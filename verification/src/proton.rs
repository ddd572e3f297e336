//! Running a game in its prefix: which runtime is used, the registry entries and
//! certificates that the game expects, and the command that starts it.
use vstd::prelude::*;

use crate::codec::{from_utf8_lossy, utf8_lossy};
use crate::launch::{run_dir, wine_path, wine_view, working_dir};
use crate::path::{
    extension, extension_of, is_rooted, join, law_extension_alone_is_replaced,
    law_join_puts_one_separator, under,
};
use crate::text::{
    begins, chars_of, contains, decimal, decimal_of, is_space, joined, law_decimal_digit_by_digit,
    law_decimal_reads_back, law_joined_with_separators, law_replaced_text, law_trimmed_text,
    lemma_texts_push, lower_ascii, occurs, occurs_at, opt_str, opt_text, pairs, parse_usize,
    parsed_usize, replace, replaced, same_ignoring_ascii_case, starts_with, string_of, texts,
    to_lower_ascii, trim, trimmed,
};

verus! {

// ---------------------------------------------------------------------------
// The runtime
// ---------------------------------------------------------------------------

/// Where the bundled launcher of the runtime is, below the home directory.
pub const BUNDLED_UMU: &'static str = ".local/share/maxima/wine/umu/umu-run";

/// Where the bundled Proton is, below the home directory.
pub const BUNDLED_PROTON: &'static str = ".local/share/maxima/wine/proton";

/// Where the bundled launcher of the runtime is.
pub fn bundled_umu(home: &str) -> (r: String)
    ensures
        r@ == under(home@, BUNDLED_UMU@),
{
    join(home, BUNDLED_UMU)
}

/// Where the bundled Proton is.
pub fn bundled_proton(home: &str) -> (r: String)
    ensures
        r@ == under(home@, BUNDLED_PROTON@),
{
    join(home, BUNDLED_PROTON)
}

/// What the search on the path found: what it printed, where it succeeded.
pub fn which(success: bool, stdout: &[u8]) -> (r: Option<String>)
    ensures
        match r {
            Some(p) => success && p@ == trimmed(utf8_lossy(stdout@)),
            None => !success,
        },
{
    if success {
        Some(trim(from_utf8_lossy(stdout).as_str()))
    } else {
        None
    }
}

/// The launcher of the runtime: the bundled one, else the one on the path.
/// `found` is what the search on the path gave.
pub fn chosen_umu(home: &str, bundled_exists: bool, found: Option<String>) -> (r: Option<String>)
    ensures
        opt_text(r) == (if bundled_exists {
            Some(under(home@, BUNDLED_UMU@))
        } else {
            opt_text(found)
        }),
{
    if bundled_exists {
        Some(bundled_umu(home))
    } else {
        found
    }
}

/// Where a Proton of this name may be installed.
pub open spec fn proton_places(home: Seq<char>, name: Seq<char>) -> Seq<Seq<char>> {
    seq![
        under(under(home, ".local/share/Steam/compatibilitytools.d"@), name),
        under(under(home, ".steam/root/compatibilitytools.d"@), name),
        under(under(home, ".local/share/umu"@), name),
        under(under(home, ".steam/steam/steamapps/common"@), name),
    ]
}

/// Where a Proton of this name may be installed, in the order of preference.
pub fn proton_candidates(home: &str, name: &str) -> (r: Vec<String>)
    ensures
        texts(r@) == proton_places(home@, name@),
{
    broadcast use lemma_texts_push;

    let mut r: Vec<String> = Vec::new();
    r.push(join(join(home, ".local/share/Steam/compatibilitytools.d").as_str(), name));
    r.push(join(join(home, ".steam/root/compatibilitytools.d").as_str(), name));
    r.push(join(join(home, ".local/share/umu").as_str(), name));
    r.push(join(join(home, ".steam/steam/steamapps/common").as_str(), name));
    assert(texts(r@) == proton_places(home@, name@));
    r
}

/// The first of some paths from `i` on that exists.
pub open spec fn existing_from(paths: Seq<Seq<char>>, exists: Seq<bool>, i: int) -> Option<Seq<char>>
    decreases paths.len() - i,
{
    if i < 0 || i >= paths.len() || i >= exists.len() {
        None
    } else if exists[i] {
        Some(paths[i])
    } else {
        existing_from(paths, exists, i + 1)
    }
}

/// The Proton that is asked for by `pin`, a path or a name: the path, where it is
/// absolute and exists, else the first candidate that does. `exists` says so of
/// each candidate.
pub open spec fn pinned(
    home: Seq<char>,
    pin: Seq<char>,
    pin_exists: bool,
    exists: Seq<bool>,
) -> Option<Seq<char>> {
    if is_rooted(pin) && pin_exists {
        Some(pin)
    } else {
        existing_from(proton_places(home, pin), exists, 0)
    }
}

/// The Proton that is asked for by `pin`.
pub fn pinned_proton(home: &str, pin: &str, pin_exists: bool, exists: &Vec<bool>) -> (r: Option<
    String,
>)
    ensures
        opt_text(r) == pinned(home@, pin@, pin_exists, exists@),
{
    proof {
        reveal_strlit("/");
        if is_rooted(pin@) {
            assert(pin@.subrange(0, 1) =~= "/"@);
        } else if begins(pin@, "/"@) {
            assert(pin@.subrange(0, 1)[0] == pin@[0]);
        }
    }
    if starts_with(pin, "/") && pin_exists {
        return Some(pin.to_owned());
    }
    let paths = proton_candidates(home, pin);
    let mut i: usize = 0;
    while i < paths.len() && i < exists.len()
        invariant
            i <= paths.len(),
            i <= exists.len(),
            texts(paths@) == proton_places(home@, pin@),
            existing_from(texts(paths@), exists@, 0) == existing_from(
                texts(paths@),
                exists@,
                i as int,
            ),
            pinned(home@, pin@, pin_exists, exists@) == existing_from(texts(paths@), exists@, 0),
        decreases paths.len() - i,
    {
        if exists[i] {
            assert(texts(paths@)[i as int] == paths@[i as int]@);
            return Some(paths[i].clone());
        }
        i += 1;
    }
    None
}

/// The Proton that is used: the one that is asked for, else the bundled one where
/// it exists.
pub fn chosen_proton(home: &str, pinned: Option<String>, bundled_exists: bool) -> (r: Option<
    String,
>)
    ensures
        opt_text(r) == (match pinned {
            Some(p) => Some(p@),
            None => if bundled_exists {
                Some(under(home@, BUNDLED_PROTON@))
            } else {
                None
            },
        }),
{
    match pinned {
        Some(p) => Some(p),
        None => {
            if bundled_exists {
                Some(bundled_proton(home))
            } else {
                None
            }
        },
    }
}

// ---------------------------------------------------------------------------
// Commands
// ---------------------------------------------------------------------------

/// A run of the runtime's launcher, which is a Python program: its path and
/// arguments, what it finds in its environment, and where it runs.
#[derive(Debug)]
pub struct Run {
    pub args: Vec<String>,
    pub env: Vec<(String, String)>,
    pub dir: Option<String>,
}

/// What a run says.
#[verifier::ext_equal]
pub struct Running {
    pub args: Seq<Seq<char>>,
    pub env: Seq<(Seq<char>, Seq<char>)>,
    pub dir: Option<Seq<char>>,
}

impl View for Run {
    type V = Running;

    open spec fn view(&self) -> Running {
        Running { args: texts(self.args@), env: pairs(self.env@), dir: opt_text(self.dir) }
    }
}

/// What some runs say.
pub open spec fn runs(l: Seq<Run>) -> Seq<Running> {
    Seq::new(l.len(), |i: int| l[i]@)
}

/// The runtime that runs a game: its launcher, Proton if one was found, and the
/// prefix.
#[derive(Debug)]
pub struct Runtime {
    pub umu: String,
    pub proton: Option<String>,
    pub prefix: String,
}

/// What every run finds in its environment.
pub open spec fn base_env(rt: Runtime) -> Seq<(Seq<char>, Seq<char>)> {
    let e = seq![("WINEPREFIX"@, rt.prefix@), ("GAMEID"@, "0"@), ("STORE"@, "none"@)];
    match rt.proton {
        Some(p) => e.push(("PROTONPATH"@, p@)),
        None => e,
    }
}

fn add_env(env: &mut Vec<(String, String)>, name: &str, value: &str)
    ensures
        pairs(final(env)@) == pairs(old(env)@).push((name@, value@)),
{
    env.push((name.to_owned(), value.to_owned()));
}

fn base_env_of(rt: &Runtime) -> (r: Vec<(String, String)>)
    ensures
        pairs(r@) == base_env(*rt),
{
    let mut r: Vec<(String, String)> = Vec::new();
    assert(pairs(r@) == Seq::<(Seq<char>, Seq<char>)>::empty());
    add_env(&mut r, "WINEPREFIX", rt.prefix.as_str());
    add_env(&mut r, "GAMEID", "0");
    add_env(&mut r, "STORE", "none");
    if let Some(p) = &rt.proton {
        add_env(&mut r, "PROTONPATH", p.as_str());
    }
    assert(pairs(r@) == base_env(*rt));
    r
}

fn add_arg(args: &mut Vec<String>, a: &str)
    ensures
        texts(final(args)@) == texts(old(args)@).push(a@),
{
    broadcast use lemma_texts_push;

    args.push(a.to_owned());
}

// ---------------------------------------------------------------------------
// The registry
// ---------------------------------------------------------------------------

/// The key in the view of 32-bit programs that belongs to a key below
/// `HKLM\SOFTWARE`, in either case of letters. A key that is in that view already
/// has none.
pub open spec fn wow64_key(key: Seq<char>) -> Option<Seq<char>> {
    if occurs(lower_ascii(key), "wow6432node"@) {
        None
    } else if begins(lower_ascii(key), "hklm\\software\\"@) {
        Some("HKLM\\SOFTWARE\\Wow6432Node\\"@ + key.skip(14))
    } else {
        None
    }
}

/// The key in the view of 32-bit programs that belongs to a key.
pub fn wow64_variant(key: &str) -> (r: Option<String>)
    ensures
        opt_text(r) == wow64_key(key@),
{
    let lower = to_lower_ascii(key);
    if contains(lower.as_str(), "wow6432node") {
        return None;
    }
    if starts_with(lower.as_str(), "hklm\\software\\") {
        proof {
            reveal_strlit("hklm\\software\\");
        }
        let v = chars_of(key);
        let rest = string_of(vstd::slice::slice_subrange(v.as_slice(), 14, v.len()));
        assert(rest@ =~= key@.skip(14));
        let mut r = "HKLM\\SOFTWARE\\Wow6432Node\\".to_owned();
        r.append(rest.as_str());
        Some(r)
    } else {
        None
    }
}

/// The key in the view of 32-bit programs has no further such key: the view is
/// entered once.
pub proof fn law_wow64_view_is_entered_once(key: Seq<char>)
    ensures
        wow64_key(key) matches Some(w) ==> wow64_key(w) is None,
{
    if let Some(w) = wow64_key(key) {
        reveal_strlit("HKLM\\SOFTWARE\\Wow6432Node\\");
        reveal_strlit("wow6432node");
        assert(lower_ascii(w).subrange(14, 25) =~= "wow6432node"@);
        assert(occurs_at(lower_ascii(w), "wow6432node"@, 14));
    }
}

/// The keys that a value is written to, so that programs of either width see it.
pub open spec fn key_targets(key: Seq<char>) -> Seq<Seq<char>> {
    match wow64_key(key) {
        Some(w) => seq![key, w],
        None => seq![key],
    }
}

/// The run that writes a value to one key.
pub open spec fn reg_add(
    rt: Runtime,
    key: Seq<char>,
    value: Seq<char>,
    data: Seq<char>,
) -> Running {
    Running {
        args: seq![
            rt.umu@,
            "reg"@,
            "add"@,
            key,
            "/v"@,
            value,
            "/t"@,
            "REG_SZ"@,
            "/d"@,
            data,
            "/f"@,
        ],
        env: base_env(rt),
        dir: None,
    }
}

/// The runs that write a value to a key.
pub open spec fn reg_adds(
    rt: Runtime,
    key: Seq<char>,
    value: Seq<char>,
    data: Seq<char>,
) -> Seq<Running> {
    let k = key_targets(key);
    Seq::new(k.len(), |i: int| reg_add(rt, k[i], value, data))
}

fn reg_add_run(rt: &Runtime, key: &str, value: &str, data: &str) -> (r: Run)
    ensures
        r@ == reg_add(*rt, key@, value@, data@),
{
    let mut args: Vec<String> = Vec::new();
    assert(texts(args@) == Seq::<Seq<char>>::empty());
    add_arg(&mut args, rt.umu.as_str());
    add_arg(&mut args, "reg");
    add_arg(&mut args, "add");
    add_arg(&mut args, key);
    add_arg(&mut args, "/v");
    add_arg(&mut args, value);
    add_arg(&mut args, "/t");
    add_arg(&mut args, "REG_SZ");
    add_arg(&mut args, "/d");
    add_arg(&mut args, data);
    add_arg(&mut args, "/f");
    Run { args, env: base_env_of(rt), dir: None }
}

/// Writes a value to a key, and to the key in the view of 32-bit programs that
/// belongs to it.
pub fn reg_add_both(rt: &Runtime, key: &str, value: &str, data: &str) -> (r: Vec<Run>)
    ensures
        runs(r@) == reg_adds(*rt, key@, value@, data@),
{
    let mut r: Vec<Run> = Vec::new();
    r.push(reg_add_run(rt, key, value, data));
    if let Some(w) = wow64_variant(key) {
        r.push(reg_add_run(rt, w.as_str(), value, data));
    }
    assert(runs(r@) == reg_adds(*rt, key@, value@, data@));
    r
}

/// A registry location with the short names of the hives.
pub open spec fn short_hives(reg: Seq<char>) -> Seq<char> {
    replaced(
        replaced(
            replaced(reg, "HKEY_LOCAL_MACHINE"@, "HKLM"@),
            "HKEY_CURRENT_USER"@,
            "HKCU"@,
        ),
        "HKEY_CLASSES_ROOT"@,
        "HKCR"@,
    )
}

/// Where `c` last occurs among the first `end` characters.
pub open spec fn last_of(s: Seq<char>, c: char, end: int) -> Option<int>
    decreases end,
{
    if end <= 0 {
        None
    } else if s[end - 1] == c {
        Some(end - 1)
    } else {
        last_of(s, c, end - 1)
    }
}

/// The key and the value name of a registry location. The value name is what
/// follows the last backslash; neither is empty.
pub open spec fn register_parts(reg: Seq<char>) -> Option<(Seq<char>, Seq<char>)> {
    let s = short_hives(reg);
    match last_of(s, '\\', s.len() as int) {
        Some(i) => {
            let key = trimmed(s.take(i));
            let value = trimmed(s.skip(i + 1));
            if key.len() == 0 || value.len() == 0 {
                None
            } else {
                Some((key, value))
            }
        },
        None => None,
    }
}

/// Parts a registry location into its key and its value name.
pub fn parse_register(reg: &str) -> (r: Option<(String, String)>)
    ensures
        match r {
            Some((k, v)) => register_parts(reg@) == Some((k@, v@)),
            None => register_parts(reg@) is None,
        },
{
    proof {
        reveal_strlit("HKEY_LOCAL_MACHINE");
        reveal_strlit("HKEY_CURRENT_USER");
        reveal_strlit("HKEY_CLASSES_ROOT");
    }
    let a = replace(reg, "HKEY_LOCAL_MACHINE", "HKLM");
    let b = replace(a.as_str(), "HKEY_CURRENT_USER", "HKCU");
    let s = replace(b.as_str(), "HKEY_CLASSES_ROOT", "HKCR");
    let v = chars_of(s.as_str());
    let mut end: usize = v.len();
    while end > 0 && v[end - 1] != '\\'
        invariant
            end <= v.len(),
            v@ == s@,
            last_of(s@, '\\', s@.len() as int) == last_of(s@, '\\', end as int),
        decreases end,
    {
        end -= 1;
    }
    if end == 0 {
        return None;
    }
    let left = string_of(vstd::slice::slice_subrange(v.as_slice(), 0, end - 1));
    let right = string_of(vstd::slice::slice_subrange(v.as_slice(), end, v.len()));
    assert(left@ =~= s@.take(end - 1));
    assert(right@ =~= s@.skip(end as int));
    let key = trim(left.as_str());
    let value = trim(right.as_str());
    if key.as_str().is_empty() || value.as_str().is_empty() {
        None
    } else {
        Some((key, value))
    }
}

proof fn lemma_last_of(s: Seq<char>, c: char, k: int, end: int)
    requires
        0 <= k < end <= s.len(),
        s[k] == c,
        forall|j: int| k < j < end ==> #[trigger] s[j] != c,
    ensures
        last_of(s, c, end) == Some(k),
    decreases end,
{
    if end - 1 > k {
        assert(s[end - 1] != c);
        lemma_last_of(s, c, k, end - 1);
    }
}

/// A location that is made of a key and a value name, with the short name of its
/// hive, parts into the two.
pub proof fn law_location_parts_again(key: Seq<char>, value: Seq<char>)
    requires
        key.len() > 0,
        value.len() > 0,
        trimmed(key) == key,
        trimmed(value) == value,
        forall|i: int| 0 <= i < value.len() ==> #[trigger] value[i] != '\\',
        !occurs(key + seq!['\\'] + value, "HKEY_LOCAL_MACHINE"@),
        !occurs(key + seq!['\\'] + value, "HKEY_CURRENT_USER"@),
        !occurs(key + seq!['\\'] + value, "HKEY_CLASSES_ROOT"@),
    ensures
        register_parts(key + seq!['\\'] + value) == Some((key, value)),
{
    let s = key + seq!['\\'] + value;
    crate::text::lemma_find_occurs(s, "HKEY_LOCAL_MACHINE"@);
    crate::text::lemma_find_occurs(s, "HKEY_CURRENT_USER"@);
    crate::text::lemma_find_occurs(s, "HKEY_CLASSES_ROOT"@);
    assert(short_hives(s) == s);
    let k = key.len() as int;
    assert forall|j: int| k < j < s.len() implies #[trigger] s[j] != '\\' by {
        assert(s[j] == value[j - k - 1]);
    }
    lemma_last_of(s, '\\', k, s.len() as int);
    assert(s.take(k) =~= key);
    assert(s.skip(k + 1) =~= value);
}

/// The mark in a prefix that the launcher's keys are written.
pub fn launcher_marker(prefix: &str, product_id: u32) -> (r: String)
    ensures
        r@ == under(prefix@, ".optima-reg3-"@ + decimal(product_id as nat)),
{
    let mut name = ".optima-reg3-".to_owned();
    name.append(decimal_of(product_id as u64).as_str());
    join(prefix, name.as_str())
}

/// The mark in a prefix that the game's own key is written.
pub fn game_key_marker(prefix: &str, product_id: u32) -> (r: String)
    ensures
        r@ == under(prefix@, ".optima-gamekey-"@ + decimal(product_id as nat)),
{
    let mut name = ".optima-gamekey-".to_owned();
    name.append(decimal_of(product_id as u64).as_str());
    join(prefix, name.as_str())
}

/// The mark in a prefix that the settings which the game ships are imported.
pub fn seed_marker(prefix: &str, product_id: u32) -> (r: String)
    ensures
        r@ == under(prefix@, ".optima-regseed-"@ + decimal(product_id as nat)),
{
    let mut name = ".optima-regseed-".to_owned();
    name.append(decimal_of(product_id as u64).as_str());
    join(prefix, name.as_str())
}

/// The directory of a game as the registry names it.
pub open spec fn registry_dir(game_dir: Seq<char>) -> Seq<char> {
    wine_view(game_dir) + "\\"@
}

/// The key of the launcher.
pub const LAUNCHER_KEY: &'static str = "HKLM\\SOFTWARE\\Ubisoft\\Launcher";

/// The writes that tell a game where it is installed, as the launcher would.
pub open spec fn launcher_runs(rt: Runtime, product_id: u32, game_dir: Seq<char>) -> Seq<Running> {
    reg_adds(
        rt,
        LAUNCHER_KEY@ + "\\Installs\\"@ + decimal(product_id as nat),
        "InstallDir"@,
        registry_dir(game_dir),
    ) + reg_adds(rt, LAUNCHER_KEY@, "InstallDir"@, registry_dir(game_dir))
}

/// The write of the game's own key.
#[derive(Debug)]
pub struct GameKey {
    pub key: String,
    pub value: String,
    pub runs: Vec<Run>,
}

/// What is left to write to the registry of a prefix.
#[derive(Debug)]
pub struct RegistryPlan {
    /// The launcher's keys, where they are not written yet.
    pub launcher: Option<Vec<Run>>,
    /// The game's own key, where it is known and not written yet.
    pub game_key: Option<GameKey>,
}

/// The game's own key, where `install_reg` names one.
pub open spec fn own_key(install_reg: Option<Seq<char>>) -> Option<(Seq<char>, Seq<char>)> {
    match install_reg {
        Some(reg) => register_parts(reg),
        None => None,
    }
}

/// What is left to write to the registry, so that the game finds where it is
/// installed. The game's own key comes from its configuration, which may not be
/// known yet: it is only done once it could be written.
pub fn ensure_registry(
    rt: &Runtime,
    product_id: u32,
    game_dir: &str,
    install_reg: Option<&str>,
    launcher_marked: bool,
    game_key_marked: bool,
) -> (r: RegistryPlan)
    ensures
        match r.launcher {
            Some(l) => !launcher_marked && runs(l@) == launcher_runs(*rt, product_id, game_dir@),
            None => launcher_marked,
        },
        match r.game_key {
            Some(g) => !game_key_marked && own_key(opt_str(install_reg)) == Some(
                (g.key@, g.value@),
            ) && runs(g.runs@) == reg_adds(*rt, g.key@, g.value@, registry_dir(game_dir@)),
            None => game_key_marked || own_key(opt_str(install_reg)) is None,
        },
{
    let mut win = wine_path(game_dir);
    win.append("\\");
    let launcher = if launcher_marked {
        None
    } else {
        let mut key = LAUNCHER_KEY.to_owned();
        key.append("\\Installs\\");
        key.append(decimal_of(product_id as u64).as_str());
        let mut l = reg_add_both(rt, key.as_str(), "InstallDir", win.as_str());
        let ghost first = l@;
        let mut more = reg_add_both(rt, LAUNCHER_KEY, "InstallDir", win.as_str());
        let ghost second = more@;
        l.append(&mut more);
        assert(runs(l@) == runs(first) + runs(second));
        Some(l)
    };
    let parts = match install_reg {
        Some(reg) => parse_register(reg),
        None => None,
    };
    let game_key = match parts {
        Some((key, value)) => {
            if game_key_marked {
                None
            } else {
                let l = reg_add_both(rt, key.as_str(), value.as_str(), win.as_str());
                Some(GameKey { key, value, runs: l })
            }
        },
        None => None,
    };
    RegistryPlan { launcher, game_key }
}

// ---------------------------------------------------------------------------
// Certificates and settings that are shipped
// ---------------------------------------------------------------------------

/// The mark in a prefix that the certificate is trusted.
pub fn cert_marker(prefix: &str) -> (r: String)
    ensures
        r@ == under(prefix@, ".optima-cert"@),
{
    join(prefix, ".optima-cert")
}

/// Where the certificate is put in a prefix.
pub fn cert_path(prefix: &str) -> (r: String)
    ensures
        r@ == under(prefix@, "optima-signing.cer"@),
{
    join(prefix, "optima-signing.cer")
}

/// The run that adds a certificate to a store.
pub open spec fn cert_add(rt: Runtime, store: Seq<char>, cer: Seq<char>) -> Running {
    Running {
        args: seq![rt.umu@, "certutil"@, "-addstore"@, "-f"@, store, wine_view(cer)],
        env: base_env(rt),
        dir: None,
    }
}

fn cert_run(rt: &Runtime, store: &str, cer: &str) -> (r: Run)
    ensures
        r@ == cert_add(*rt, store@, cer@),
{
    let mut args: Vec<String> = Vec::new();
    assert(texts(args@) == Seq::<Seq<char>>::empty());
    add_arg(&mut args, rt.umu.as_str());
    add_arg(&mut args, "certutil");
    add_arg(&mut args, "-addstore");
    add_arg(&mut args, "-f");
    add_arg(&mut args, store);
    add_arg(&mut args, wine_path(cer).as_str());
    Run { args, env: base_env_of(rt), dir: None }
}

/// Trusts the certificate at `cer` inside the prefix.
pub fn ensure_cert_trust(rt: &Runtime, cer: &str) -> (r: Vec<Run>)
    ensures
        runs(r@) == seq![
            cert_add(*rt, "Root"@, cer@),
            cert_add(*rt, "TrustedPublisher"@, cer@),
        ],
{
    let mut r: Vec<Run> = Vec::new();
    r.push(cert_run(rt, "Root", cer));
    r.push(cert_run(rt, "TrustedPublisher", cer));
    assert(runs(r@) == seq![
        cert_add(*rt, "Root"@, cer@),
        cert_add(*rt, "TrustedPublisher"@, cer@),
    ]);
    r
}

/// Where a game ships registry settings.
pub fn seed_dirs(game_dir: &str) -> (r: Vec<String>)
    ensures
        texts(r@) == seq![game_dir@, under(game_dir@, "support"@)],
{
    let mut r: Vec<String> = Vec::new();
    assert(texts(r@) == Seq::<Seq<char>>::empty());
    add_arg(&mut r, game_dir);
    add_arg(&mut r, join(game_dir, "support").as_str());
    assert(texts(r@) == seq![game_dir@, under(game_dir@, "support"@)]);
    r
}

/// Whether a file holds registry settings.
pub fn is_seed(path: &str) -> (r: bool)
    ensures
        r == (extension_of(path@) matches Some(e) && lower_ascii(e) == lower_ascii("reg"@)),
{
    match extension(path) {
        Some(e) => same_ignoring_ascii_case(e.as_str(), "reg"),
        None => false,
    }
}

/// The run that imports registry settings.
pub fn import_seed(rt: &Runtime, path: &str) -> (r: Run)
    ensures
        r@ == (Running {
            args: seq![rt.umu@, "regedit"@, "/S"@, wine_view(path@)],
            env: base_env(*rt),
            dir: None,
        }),
{
    let mut args: Vec<String> = Vec::new();
    assert(texts(args@) == Seq::<Seq<char>>::empty());
    add_arg(&mut args, rt.umu.as_str());
    add_arg(&mut args, "regedit");
    add_arg(&mut args, "/S");
    add_arg(&mut args, wine_path(path).as_str());
    Run { args, env: base_env_of(rt), dir: None }
}

// ---------------------------------------------------------------------------
// The game
// ---------------------------------------------------------------------------

/// How many processors a game sees: the number that is asked for, and four where
/// none is.
pub open spec fn cpu_count(limit: Option<Seq<char>>) -> usize {
    match limit {
        Some(t) => match parsed_usize(t) {
            Some(n) => n,
            None => 4,
        },
        None => 4,
    }
}

/// The numbers below `n`.
pub open spec fn numbers(n: nat) -> Seq<Seq<char>> {
    Seq::new(n, |i: int| decimal(i as nat))
}

/// The processors that a game sees. They are not limited where their number is
/// zero.
pub open spec fn topology(limit: Option<Seq<char>>) -> Option<Seq<char>> {
    let n = cpu_count(limit);
    if n > 0 {
        Some(decimal(n as nat) + ":"@ + joined(numbers(n as nat), ","@))
    } else {
        None
    }
}

/// The processors that a game sees.
pub fn cpu_topology(limit: Option<&str>) -> (r: Option<String>)
    ensures
        opt_text(r) == topology(opt_str(limit)),
{
    let n: usize = match limit {
        Some(t) => match parse_usize(t) {
            Some(n) => n,
            None => 4,
        },
        None => 4,
    };
    if n == 0 {
        return None;
    }
    let mut list: Vec<String> = Vec::new();
    let mut i: usize = 0;
    while i < n
        invariant
            i <= n,
            texts(list@) == numbers(i as nat),
        decreases n - i,
    {
        broadcast use lemma_texts_push;

        list.push(decimal_of(i as u64));
        assert(numbers((i + 1) as nat) == numbers(i as nat).push(decimal(i as nat)));
        i += 1;
    }
    let mut r = decimal_of(n as u64);
    r.append(":");
    r.append(crate::text::join(&list, ",").as_str());
    Some(r)
}

/// The device that graphics are bound to: the one that is asked for, unless that
/// is nothing or `none`, and where nothing is asked for NVIDIA's, if there is one.
pub open spec fn device_filter(asked: Option<Seq<char>>, nvidia: bool) -> Option<Seq<char>> {
    match asked {
        Some(v) => if lower_ascii(v) == lower_ascii("none"@) || v.len() == 0 {
            None
        } else {
            Some(v)
        },
        None => if nvidia {
            Some("NVIDIA"@)
        } else {
            None
        },
    }
}

/// The device that graphics are bound to.
pub fn dxvk_filter(asked: Option<&str>, nvidia: bool) -> (r: Option<String>)
    ensures
        opt_text(r) == device_filter(opt_str(asked), nvidia),
{
    match asked {
        Some(v) => {
            if same_ignoring_ascii_case(v, "none") || v.is_empty() {
                None
            } else {
                Some(v.to_owned())
            }
        },
        None => {
            if nvidia {
                Some("NVIDIA".to_owned())
            } else {
                None
            }
        },
    }
}

/// What the user asks of a run.
#[derive(Debug)]
pub struct RunOptions {
    /// Leaves NVIDIA's own interface on, which some titles crash with.
    pub nvapi: bool,
    /// How many processors the game sees.
    pub cpu_limit: Option<String>,
    /// The device that graphics are bound to.
    pub dxvk_filter: Option<String>,
    /// There is a device of NVIDIA's.
    pub nvidia: bool,
    /// Writes logs into the prefix.
    pub log: bool,
}

/// `e` with one entry more, where there is a value.
pub open spec fn with_entry(
    e: Seq<(Seq<char>, Seq<char>)>,
    name: Seq<char>,
    value: Option<Seq<char>>,
) -> Seq<(Seq<char>, Seq<char>)> {
    match value {
        Some(v) => e.push((name, v)),
        None => e,
    }
}

/// What a game finds in its environment.
pub open spec fn game_env(rt: Runtime, o: RunOptions) -> Seq<(Seq<char>, Seq<char>)> {
    let e = base_env(rt);
    let e = if o.nvapi {
        e
    } else {
        e.push(("PROTON_DISABLE_NVAPI"@, "1"@)).push(("DXVK_ENABLE_NVAPI"@, "0"@))
    };
    let e = with_entry(e, "WINE_CPU_TOPOLOGY"@, topology(opt_text(o.cpu_limit)));
    let e = with_entry(
        e,
        "DXVK_FILTER_DEVICE_NAME"@,
        device_filter(opt_text(o.dxvk_filter), o.nvidia),
    );
    if o.log {
        e.push(("PROTON_LOG"@, "1"@)).push(("PROTON_LOG_DIR"@, rt.prefix@)).push(
            ("VK_LOADER_DEBUG"@, "error,warn,info"@),
        ).push(("DXVK_LOG_LEVEL"@, "info"@))
    } else {
        e
    }
}

fn as_opt_str(s: &Option<String>) -> (r: Option<&str>)
    ensures
        opt_str(r) == opt_text(*s),
{
    match s {
        Some(t) => Some(t.as_str()),
        None => None,
    }
}

/// The run that starts a game.
pub fn game_run(
    rt: &Runtime,
    game_dir: &str,
    exe: &str,
    args: &Vec<String>,
    options: &RunOptions,
) -> (r: Run)
    ensures
        r@ == (Running {
            args: seq![rt.umu@, exe@] + texts(args@),
            env: game_env(*rt, *options),
            dir: Some(run_dir(game_dir@, exe@)),
        }),
{
    let mut all: Vec<String> = Vec::new();
    assert(texts(all@) == Seq::<Seq<char>>::empty());
    add_arg(&mut all, rt.umu.as_str());
    add_arg(&mut all, exe);
    let ghost lead = seq![rt.umu@, exe@];
    assert(texts(all@) == lead);
    let mut i: usize = 0;
    while i < args.len()
        invariant
            i <= args.len(),
            texts(all@) == lead + texts(args@).take(i as int),
        decreases args.len() - i,
    {
        add_arg(&mut all, args[i].as_str());
        assert(texts(args@).take(i + 1) == texts(args@).take(i as int).push(
            texts(args@)[i as int],
        ));
        assert(texts(all@) == lead + texts(args@).take(i + 1));
        i += 1;
    }
    assert(texts(args@).take(i as int) == texts(args@));
    let mut env = base_env_of(rt);
    if !options.nvapi {
        add_env(&mut env, "PROTON_DISABLE_NVAPI", "1");
        add_env(&mut env, "DXVK_ENABLE_NVAPI", "0");
    }
    if let Some(t) = cpu_topology(as_opt_str(&options.cpu_limit)) {
        add_env(&mut env, "WINE_CPU_TOPOLOGY", t.as_str());
    }
    if let Some(f) = dxvk_filter(as_opt_str(&options.dxvk_filter), options.nvidia) {
        add_env(&mut env, "DXVK_FILTER_DEVICE_NAME", f.as_str());
    }
    if options.log {
        add_env(&mut env, "PROTON_LOG", "1");
        add_env(&mut env, "PROTON_LOG_DIR", rt.prefix.as_str());
        add_env(&mut env, "VK_LOADER_DEBUG", "error,warn,info");
        add_env(&mut env, "DXVK_LOG_LEVEL", "info");
    }
    assert(pairs(env@) == game_env(*rt, *options));
    Run { args: all, env, dir: Some(working_dir(game_dir, exe)) }
}

/// How Proton is shown in a command.
pub open spec fn proton_words(rt: Runtime) -> Seq<char> {
    match rt.proton {
        Some(p) => " PROTONPATH="@ + p@,
        None => seq![],
    }
}

/// The command that would start a game.
pub fn would_run_text(rt: &Runtime, game_dir: &str, exe: &str, args: &Vec<String>) -> (r: String)
    ensures
        r@ == "[launch] would run: cd "@ + run_dir(game_dir@, exe@) + " && WINEPREFIX="@
            + rt.prefix@ + " GAMEID=0 STORE=none"@ + proton_words(*rt) + " python3 "@ + rt.umu@
            + " "@ + exe@ + " "@ + joined(texts(args@), " "@),
{
    let mut r = "[launch] would run: cd ".to_owned();
    r.append(working_dir(game_dir, exe).as_str());
    r.append(" && WINEPREFIX=");
    r.append(rt.prefix.as_str());
    r.append(" GAMEID=0 STORE=none");
    let ghost before = r@;
    if let Some(p) = &rt.proton {
        r.append(" PROTONPATH=");
        r.append(p.as_str());
    }
    assert(r@ == before + proton_words(*rt));
    r.append(" python3 ");
    r.append(rt.umu.as_str());
    r.append(" ");
    r.append(exe);
    r.append(" ");
    r.append(crate::text::join(args, " ").as_str());
    r
}

/// What is said when a game starts.
pub fn starting_text(exe: &str, args: &Vec<String>) -> (r: String)
    ensures
        r@ == "[launch] starting "@ + exe@ + " "@ + joined(texts(args@), " "@)
            + " under Proton..."@,
{
    let mut r = "[launch] starting ".to_owned();
    r.append(exe);
    r.append(" ");
    r.append(crate::text::join(args, " ").as_str());
    r.append(" under Proton...");
    r
}

// ---------------------------------------------------------------------------
// What a run promises
// ---------------------------------------------------------------------------

proof fn lemma_existing_later(paths: Seq<Seq<char>>, exists: Seq<bool>, i: int, k: int)
    requires
        0 <= i <= k <= paths.len(),
        paths.len() == exists.len(),
        forall|j: int| i <= j < k ==> !#[trigger] exists[j],
    ensures
        existing_from(paths, exists, i) == existing_from(paths, exists, k),
    decreases k - i,
{
    if i < k {
        assert(!exists[i]);
        lemma_existing_later(paths, exists, i + 1, k);
    }
}

/// A runtime that is asked for by a path which is there is that path. Another is the first
/// place of its name that is there, and none where none is.
pub proof fn law_runtime_is_the_first_there(
    home: Seq<char>,
    pin: Seq<char>,
    pin_exists: bool,
    exists: Seq<bool>,
    k: int,
)
    requires
        exists.len() == 4,
        0 <= k <= 4,
        forall|j: int| 0 <= j < k ==> !#[trigger] exists[j],
        k < 4 ==> exists[k],
    ensures
        pin.len() > 0 && pin[0] == '/' && pin_exists ==> pinned(home, pin, pin_exists, exists)
            == Some(pin),
        !(pin.len() > 0 && pin[0] == '/' && pin_exists) && k < 4 ==> pinned(
            home,
            pin,
            pin_exists,
            exists,
        ) == Some(proton_places(home, pin)[k]),
        !(pin.len() > 0 && pin[0] == '/' && pin_exists) && k == 4 ==> pinned(
            home,
            pin,
            pin_exists,
            exists,
        ) is None,
{
    lemma_existing_later(proton_places(home, pin), exists, 0, k);
}

/// The places where a runtime of some name may be, all below the home directory.
pub proof fn law_places_of_a_runtime(home: Seq<char>, name: Seq<char>)
    requires
        home.len() > 0 && home.last() != '/',
        name.len() > 0 && name[0] != '/',
    ensures
        proton_places(home, name).len() == 4,
        proton_places(home, name)[0] == home + seq!['/']
            + ".local/share/Steam/compatibilitytools.d"@ + seq!['/'] + name,
        proton_places(home, name)[1] == home + seq!['/'] + ".steam/root/compatibilitytools.d"@
            + seq!['/'] + name,
        proton_places(home, name)[2] == home + seq!['/'] + ".local/share/umu"@ + seq!['/'] + name,
        proton_places(home, name)[3] == home + seq!['/'] + ".steam/steam/steamapps/common"@
            + seq!['/'] + name,
{
    reveal_strlit(".local/share/Steam/compatibilitytools.d");
    reveal_strlit(".steam/root/compatibilitytools.d");
    reveal_strlit(".local/share/umu");
    reveal_strlit(".steam/steam/steamapps/common");
    lemma_place(home, ".local/share/Steam/compatibilitytools.d"@, name);
    lemma_place(home, ".steam/root/compatibilitytools.d"@, name);
    lemma_place(home, ".local/share/umu"@, name);
    lemma_place(home, ".steam/steam/steamapps/common"@, name);
}

proof fn lemma_place(home: Seq<char>, dir: Seq<char>, name: Seq<char>)
    requires
        home.len() > 0 && home.last() != '/',
        dir.len() > 0 && dir[0] != '/' && dir.last() != '/',
        name.len() > 0 && name[0] != '/',
    ensures
        under(under(home, dir), name) == home + seq!['/'] + dir + seq!['/'] + name,
{
    law_join_puts_one_separator(home, dir);
    let d = home + seq!['/'] + dir;
    assert(d.last() == dir.last());
    law_join_puts_one_separator(d, name);
}

/// A key of the machine's software, in letters of either case, has a second view; a key
/// that is in it already, and one of another hive, has none.
pub proof fn law_software_keys_have_a_second_view(m: Seq<char>, s: Seq<char>)
    requires
        m.len() == 14,
    ensures
        lower_ascii(m) == "hklm\\software\\"@ && !occurs(lower_ascii(m + s), "wow6432node"@)
            ==> wow64_key(m + s) == Some("HKLM\\SOFTWARE\\Wow6432Node\\"@ + s),
        lower_ascii(m) != "hklm\\software\\"@ ==> wow64_key(m + s) is None,
        occurs(lower_ascii(m + s), "wow6432node"@) ==> wow64_key(m + s) is None,
{
    reveal_strlit("hklm\\software\\");
    let key = m + s;
    let low = lower_ascii(key);
    assert(low.subrange(0, 14) =~= lower_ascii(m));
    assert(key.skip(14) =~= s);
}

/// A value of a key is written there and in its second view, with the same command, and
/// nowhere else.
pub proof fn law_value_is_written_in_each_view(
    rt: Runtime,
    key: Seq<char>,
    value: Seq<char>,
    data: Seq<char>,
)
    ensures
        wow64_key(key) is None ==> reg_adds(rt, key, value, data) == seq![
            reg_add(rt, key, value, data),
        ],
        wow64_key(key) matches Some(w) ==> reg_adds(rt, key, value, data) == seq![
            reg_add(rt, key, value, data),
            reg_add(rt, w, value, data),
        ],
        reg_add(rt, key, value, data).args == seq![rt.umu@, "reg"@, "add"@, key] + seq![
            "/v"@,
            value,
        ] + seq!["/t"@, "REG_SZ"@] + seq!["/d"@, data] + seq!["/f"@],
        reg_add(rt, key, value, data).env == base_env(rt),
        reg_add(rt, key, value, data).dir is None,
{
    match wow64_key(key) {
        None => {
            assert(reg_adds(rt, key, value, data) =~= seq![reg_add(rt, key, value, data)]);
        },
        Some(w) => {
            assert(reg_adds(rt, key, value, data) =~= seq![
                reg_add(rt, key, value, data),
                reg_add(rt, w, value, data),
            ]);
        },
    }
}

/// The launcher's keys tell where the game is, as the prefix sees it: that of the product
/// first, and that of the launcher itself.
pub proof fn law_launcher_keys_tell_the_directory(
    rt: Runtime,
    product_id: u32,
    game_dir: Seq<char>,
)
    ensures
        launcher_runs(rt, product_id, game_dir).len() > 0 && launcher_runs(
            rt,
            product_id,
            game_dir,
        )[0] == reg_add(
            rt,
            "HKLM\\SOFTWARE\\Ubisoft\\Launcher"@ + "\\Installs\\"@ + decimal(product_id as nat),
            "InstallDir"@,
            wine_view(game_dir) + seq!['\\'],
        ),
        launcher_runs(rt, product_id, game_dir).contains(
            reg_add(
                rt,
                "HKLM\\SOFTWARE\\Ubisoft\\Launcher"@,
                "InstallDir"@,
                wine_view(game_dir) + seq!['\\'],
            ),
        ),
{
    reveal_strlit("\\");
    assert("\\"@ =~= seq!['\\']);
    let l = LAUNCHER_KEY@ + "\\Installs\\"@ + decimal(product_id as nat);
    let a = reg_adds(rt, l, "InstallDir"@, registry_dir(game_dir));
    let b = reg_adds(rt, LAUNCHER_KEY@, "InstallDir"@, registry_dir(game_dir));
    law_value_is_written_in_each_view(rt, l, "InstallDir"@, registry_dir(game_dir));
    law_value_is_written_in_each_view(rt, LAUNCHER_KEY@, "InstallDir"@, registry_dir(game_dir));
    assert(a.len() > 0 && b.len() > 0);
    assert((a + b)[0] == a[0]);
    assert((a + b)[a.len() as int] == b[0]);
}

proof fn lemma_hive_elsewhere(
    pre: Seq<char>,
    rest: Seq<char>,
    hive: Seq<char>,
    to: Seq<char>,
)
    requires
        hive.len() >= 5,
        hive.take(5) == "HKEY_"@,
        !occurs(rest, "HKEY_"@),
        forall|i: int| 0 <= i < pre.len() ==> !#[trigger] occurs_at(pre + rest, hive, i),
    ensures
        replaced(pre + rest, hive, to) == pre + rest,
{
    reveal_strlit("HKEY_");
    let s = pre + rest;
    assert forall|i: int| !occurs_at(s, hive, i) by {
        if occurs_at(s, hive, i) {
            let j = i - pre.len();
            assert(j >= 0);
            assert forall|m: int| 0 <= m < 5 implies rest[j + m] == "HKEY_"@[m] by {
                assert(s.subrange(i, i + hive.len())[m] == s[i + m]);
                assert(hive.take(5)[m] == hive[m]);
            }
            assert(rest.subrange(j, j + 5) =~= "HKEY_"@);
            assert(occurs_at(rest, "HKEY_"@, j));
            assert(false);
        }
    }
    crate::text::lemma_find_occurs(s, hive);
}

proof fn lemma_short_is_no_hive(pre: Seq<char>, rest: Seq<char>, hive: Seq<char>)
    requires
        pre.len() == 4,
        pre[1] != 'H' && pre[2] != 'E' && pre[2] != 'H' && pre[3] != 'H',
        hive.len() >= 5,
        hive.take(5) == "HKEY_"@,
    ensures
        forall|i: int| 0 <= i < pre.len() ==> !#[trigger] occurs_at(pre + rest, hive, i),
{
    reveal_strlit("HKEY_");
    let s = pre + rest;
    assert forall|i: int| 0 <= i < pre.len() implies !#[trigger] occurs_at(s, hive, i) by {
        if occurs_at(s, hive, i) {
            assert(s.subrange(i, i + hive.len())[0] == s[i]);
            assert(s.subrange(i, i + hive.len())[2] == s[i + 2]);
            assert(hive.take(5)[0] == hive[0] && hive.take(5)[2] == hive[2]);
            assert("HKEY_"@[0] == 'H' && "HKEY_"@[2] == 'E');
            assert(s[i] == pre[i]);
            if i == 0 {
                assert(s[2] == pre[2]);
            }
            assert(false);
        }
    }
}

proof fn lemma_machine_is_short(rest: Seq<char>)
    requires
        !occurs(rest, "HKEY_"@),
    ensures
        short_hives("HKEY_LOCAL_MACHINE"@ + rest) == "HKLM"@ + rest,
{
    reveal_strlit("HKEY_");
    reveal_strlit("HKEY_LOCAL_MACHINE");
    reveal_strlit("HKEY_CURRENT_USER");
    reveal_strlit("HKEY_CLASSES_ROOT");
    reveal_strlit("HKLM");
    let hm = "HKEY_LOCAL_MACHINE"@;
    let hu = "HKEY_CURRENT_USER"@;
    let hc = "HKEY_CLASSES_ROOT"@;
    assert(hm.take(5) =~= "HKEY_"@);
    assert(hu.take(5) =~= "HKEY_"@);
    assert(hc.take(5) =~= "HKEY_"@);
    let none = Seq::<char>::empty();
    assert(none + hm + rest =~= hm + rest);
    law_replaced_text(none, hm, rest, "HKLM"@);
    lemma_hive_elsewhere(none, rest, hm, "HKLM"@);
    assert(none + rest =~= rest);
    assert(none + "HKLM"@ + rest =~= "HKLM"@ + rest);
    lemma_short_is_no_hive("HKLM"@, rest, hu);
    lemma_hive_elsewhere("HKLM"@, rest, hu, "HKCU"@);
    lemma_short_is_no_hive("HKLM"@, rest, hc);
    lemma_hive_elsewhere("HKLM"@, rest, hc, "HKCR"@);
}

proof fn lemma_user_is_short(rest: Seq<char>)
    requires
        !occurs(rest, "HKEY_"@),
    ensures
        short_hives("HKEY_CURRENT_USER"@ + rest) == "HKCU"@ + rest,
{
    reveal_strlit("HKEY_");
    reveal_strlit("HKEY_LOCAL_MACHINE");
    reveal_strlit("HKEY_CURRENT_USER");
    reveal_strlit("HKEY_CLASSES_ROOT");
    reveal_strlit("HKCU");
    let hm = "HKEY_LOCAL_MACHINE"@;
    let hu = "HKEY_CURRENT_USER"@;
    let hc = "HKEY_CLASSES_ROOT"@;
    assert(hm.take(5) =~= "HKEY_"@);
    assert(hu.take(5) =~= "HKEY_"@);
    assert(hc.take(5) =~= "HKEY_"@);
    let s = hu + rest;
    assert forall|i: int| 0 <= i < hu.len() implies !#[trigger] occurs_at(s, hm, i) by {
        if occurs_at(s, hm, i) {
            assert(s.subrange(i, i + 18)[0] == s[i]);
            assert(s.subrange(i, i + 18)[5] == s[i + 5]);
            assert(s[i] == hu[i]);
            assert(i == 0);
            assert(s[5] == hu[5]);
            assert(false);
        }
    }
    lemma_hive_elsewhere(hu, rest, hm, "HKLM"@);
    let none = Seq::<char>::empty();
    assert(none + hu + rest =~= hu + rest);
    law_replaced_text(none, hu, rest, "HKCU"@);
    lemma_hive_elsewhere(none, rest, hu, "HKCU"@);
    assert(none + rest =~= rest);
    assert(none + "HKCU"@ + rest =~= "HKCU"@ + rest);
    lemma_short_is_no_hive("HKCU"@, rest, hc);
    lemma_hive_elsewhere("HKCU"@, rest, hc, "HKCR"@);
}

proof fn lemma_classes_are_short(rest: Seq<char>)
    requires
        !occurs(rest, "HKEY_"@),
    ensures
        short_hives("HKEY_CLASSES_ROOT"@ + rest) == "HKCR"@ + rest,
{
    reveal_strlit("HKEY_");
    reveal_strlit("HKEY_LOCAL_MACHINE");
    reveal_strlit("HKEY_CURRENT_USER");
    reveal_strlit("HKEY_CLASSES_ROOT");
    let hm = "HKEY_LOCAL_MACHINE"@;
    let hu = "HKEY_CURRENT_USER"@;
    let hc = "HKEY_CLASSES_ROOT"@;
    assert(hm.take(5) =~= "HKEY_"@);
    assert(hu.take(5) =~= "HKEY_"@);
    assert(hc.take(5) =~= "HKEY_"@);
    let s = hc + rest;
    assert forall|i: int| 0 <= i < hc.len() implies !#[trigger] occurs_at(s, hm, i) by {
        if occurs_at(s, hm, i) {
            assert(s.subrange(i, i + 18)[0] == s[i]);
            assert(s.subrange(i, i + 18)[5] == s[i + 5]);
            assert(s[i] == hc[i]);
            assert(i == 0);
            assert(s[5] == hc[5]);
            assert(false);
        }
    }
    lemma_hive_elsewhere(hc, rest, hm, "HKLM"@);
    assert forall|i: int| 0 <= i < hc.len() implies !#[trigger] occurs_at(s, hu, i) by {
        if occurs_at(s, hu, i) {
            assert(s.subrange(i, i + 17)[0] == s[i]);
            assert(s.subrange(i, i + 17)[6] == s[i + 6]);
            assert(s[i] == hc[i]);
            assert(i == 0);
            assert(s[6] == hc[6]);
            assert(false);
        }
    }
    lemma_hive_elsewhere(hc, rest, hu, "HKCU"@);
    let none = Seq::<char>::empty();
    assert(none + hc + rest =~= hc + rest);
    law_replaced_text(none, hc, rest, "HKCR"@);
    lemma_hive_elsewhere(none, rest, hc, "HKCR"@);
    assert(none + rest =~= rest);
    assert(none + "HKCR"@ + rest =~= "HKCR"@ + rest);
}

proof fn lemma_parts_behind(reg: Seq<char>, key: Seq<char>, value: Seq<char>)
    requires
        short_hives(reg) == key + seq!['\\'] + value,
        key.len() > 0 && !is_space(key[0]) && !is_space(key.last()),
        value.len() > 0 && !is_space(value[0]) && !is_space(value.last()),
        !value.contains('\\'),
    ensures
        register_parts(reg) == Some((key, value)),
{
    let t = key + seq!['\\'] + value;
    let k = key.len() as int;
    assert forall|j: int| k < j < t.len() implies #[trigger] t[j] != '\\' by {
        assert(t[j] == value[j - k - 1]);
        assert(value.contains(value[j - k - 1]));
    }
    lemma_last_of(t, '\\', k, t.len() as int);
    assert(t.take(k) =~= key);
    assert(t.skip(k + 1) =~= value);
    let none = Seq::<char>::empty();
    law_trimmed_text(none, key, none);
    law_trimmed_text(none, value, none);
    assert(none + key + none =~= key);
    assert(none + value + none =~= value);
}

/// A location in the registry is parted at its last backslash into a key and a value, and
/// the long names of the hives give way to the short ones.
pub proof fn law_location_is_parted(path: Seq<char>, value: Seq<char>)
    requires
        path.len() > 0 && !is_space(path.last()),
        value.len() > 0 && !is_space(value[0]) && !is_space(value.last()),
        !value.contains('\\'),
        !occurs(seq!['\\'] + path + seq!['\\'] + value, "HKEY_"@),
    ensures
        register_parts("HKEY_LOCAL_MACHINE"@ + (seq!['\\'] + path + seq!['\\'] + value)) == Some(
            ("HKLM"@ + (seq!['\\'] + path), value),
        ),
        register_parts("HKEY_CURRENT_USER"@ + (seq!['\\'] + path + seq!['\\'] + value)) == Some(
            ("HKCU"@ + (seq!['\\'] + path), value),
        ),
        register_parts("HKEY_CLASSES_ROOT"@ + (seq!['\\'] + path + seq!['\\'] + value)) == Some(
            ("HKCR"@ + (seq!['\\'] + path), value),
        ),
{
    reveal_strlit("HKLM");
    reveal_strlit("HKCU");
    reveal_strlit("HKCR");
    let rest = seq!['\\'] + path + seq!['\\'] + value;
    let m = "HKLM"@ + (seq!['\\'] + path);
    let u = "HKCU"@ + (seq!['\\'] + path);
    let c = "HKCR"@ + (seq!['\\'] + path);
    assert(m[0] == 'H' && u[0] == 'H' && c[0] == 'H');
    assert(!is_space('H'));
    assert(m.last() == path.last() && u.last() == path.last() && c.last() == path.last());
    lemma_machine_is_short(rest);
    assert("HKLM"@ + rest =~= m + seq!['\\'] + value);
    lemma_parts_behind("HKEY_LOCAL_MACHINE"@ + rest, m, value);
    lemma_user_is_short(rest);
    assert("HKCU"@ + rest =~= u + seq!['\\'] + value);
    lemma_parts_behind("HKEY_CURRENT_USER"@ + rest, u, value);
    lemma_classes_are_short(rest);
    assert("HKCR"@ + rest =~= c + seq!['\\'] + value);
    lemma_parts_behind("HKEY_CLASSES_ROOT"@ + rest, c, value);
}

proof fn lemma_none_of(s: Seq<char>, c: char, end: int)
    requires
        0 <= end <= s.len(),
        forall|j: int| 0 <= j < end ==> #[trigger] s[j] != c,
    ensures
        last_of(s, c, end) is None,
    decreases end,
{
    if end > 0 {
        assert(s[end - 1] != c);
        lemma_none_of(s, c, end - 1);
    }
}

/// What has no backslash, or nothing on one side of the last, is no location.
pub proof fn law_no_location_without_both_parts(s: Seq<char>, b: Seq<char>)
    requires
        !occurs(s, "HKEY_"@),
        forall|i: int| 0 <= i < s.len() ==> #[trigger] s[i] != '\\',
        forall|i: int| 0 <= i < b.len() ==> is_space(#[trigger] b[i]),
        !occurs(s + seq!['\\'] + b, "HKEY_"@),
        !occurs(b + seq!['\\'] + s, "HKEY_"@),
    ensures
        register_parts(s) is None,
        register_parts(s + seq!['\\'] + b) is None,
        register_parts(b + seq!['\\'] + s) is None,
{
    lemma_no_hives(s);
    lemma_none_of(s, '\\', s.len() as int);
    let none = Seq::<char>::empty();
    law_trimmed_text(b, none, none);
    assert(b + none + none =~= b);
    let x = s + seq!['\\'] + b;
    lemma_no_hives(x);
    assert forall|j: int| s.len() < j < x.len() implies #[trigger] x[j] != '\\' by {
        assert(x[j] == b[j - s.len() - 1]);
        assert(is_space(b[j - s.len() - 1]));
        assert(!is_space('\\'));
    }
    lemma_last_of(x, '\\', s.len() as int, x.len() as int);
    assert(x.skip(s.len() as int + 1) =~= b);
    let y = b + seq!['\\'] + s;
    lemma_no_hives(y);
    assert forall|j: int| b.len() < j < y.len() implies #[trigger] y[j] != '\\' by {
        assert(y[j] == s[j - b.len() - 1]);
    }
    lemma_last_of(y, '\\', b.len() as int, y.len() as int);
    assert(y.take(b.len() as int) =~= b);
}

proof fn lemma_no_hives(s: Seq<char>)
    requires
        !occurs(s, "HKEY_"@),
    ensures
        short_hives(s) == s,
{
    reveal_strlit("HKEY_");
    reveal_strlit("HKEY_LOCAL_MACHINE");
    reveal_strlit("HKEY_CURRENT_USER");
    reveal_strlit("HKEY_CLASSES_ROOT");
    let none = Seq::<char>::empty();
    assert(none + s =~= s);
    assert("HKEY_LOCAL_MACHINE"@.take(5) =~= "HKEY_"@);
    assert("HKEY_CURRENT_USER"@.take(5) =~= "HKEY_"@);
    assert("HKEY_CLASSES_ROOT"@.take(5) =~= "HKEY_"@);
    lemma_hive_elsewhere(none, s, "HKEY_LOCAL_MACHINE"@, "HKLM"@);
    lemma_hive_elsewhere(none, s, "HKEY_CURRENT_USER"@, "HKCU"@);
    lemma_hive_elsewhere(none, s, "HKEY_CLASSES_ROOT"@, "HKCR"@);
}

/// A game is told of as many processors as were asked for, each by its number from zero
/// on; of four where no number was given, and of all of them where it is zero.
pub proof fn law_processors_are_counted(n: usize, t: Seq<char>)
    ensures
        n > 0 ==> topology(Some(decimal(n as nat))) == Some(
            decimal(n as nat) + ":"@ + joined(
                Seq::new(n as nat, |i: int| decimal(i as nat)),
                ","@,
            ),
        ),
        topology(Some(decimal(0))) is None,
        topology(None) == topology(Some(decimal(4))),
        parsed_usize(t) is None ==> topology(Some(t)) == topology(Some(decimal(4))),
{
    law_decimal_reads_back(n as nat);
    law_decimal_reads_back(0);
    law_decimal_reads_back(4);
}

/// Where no number is given the list of the processors is the first four.
pub proof fn law_four_processors()
    ensures
        topology(None) == Some("4:0,1,2,3"@),
{
    reveal_strlit("4:0,1,2,3");
    reveal_strlit(":");
    reveal_strlit(",");
    reveal_strlit("0123456789");
    law_decimal_digit_by_digit(0, 0);
    law_decimal_digit_by_digit(0, 1);
    law_decimal_digit_by_digit(0, 2);
    law_decimal_digit_by_digit(0, 3);
    law_decimal_digit_by_digit(0, 4);
    let l = numbers(4);
    assert(l =~= seq![decimal(0)].push(decimal(1)).push(decimal(2)).push(decimal(3)));
    law_joined_with_separators(seq![decimal(0)], decimal(0), ","@);
    law_joined_with_separators(seq![decimal(0)], decimal(1), ","@);
    law_joined_with_separators(seq![decimal(0)].push(decimal(1)), decimal(2), ","@);
    law_joined_with_separators(
        seq![decimal(0)].push(decimal(1)).push(decimal(2)),
        decimal(3),
        ","@,
    );
    assert(decimal(4) + ":"@ + joined(l, ","@) =~= "4:0,1,2,3"@);
}

/// The graphics card that is asked for is used; `none`, in letters of either case, and
/// nothing ask for no choice; without a wish a card of the common maker is.
pub proof fn law_card_is_chosen(v: Seq<char>, nvidia: bool)
    ensures
        v.len() > 0 && lower_ascii(v) != "none"@ ==> device_filter(Some(v), nvidia) == Some(v),
        v.len() == 0 || lower_ascii(v) == "none"@ ==> device_filter(Some(v), nvidia) is None,
        device_filter(None, true) == Some("NVIDIA"@),
        device_filter(None, false) is None,
{
    reveal_strlit("none");
    assert(lower_ascii("none"@) =~= "none"@);
}

/// A game runs in its prefix and, where one was chosen, with its runtime. Each option adds
/// its own entries, and nothing else is added.
pub proof fn law_environment_of_a_game(rt: Runtime, o: RunOptions)
    ensures
        game_env(rt, o).contains(("WINEPREFIX"@, rt.prefix@)),
        game_env(rt, o).contains(("GAMEID"@, "0"@)),
        game_env(rt, o).contains(("STORE"@, "none"@)),
        rt.proton matches Some(p) ==> game_env(rt, o).contains(("PROTONPATH"@, p@)),
        !o.nvapi ==> game_env(rt, o).contains(("PROTON_DISABLE_NVAPI"@, "1"@)) && game_env(
            rt,
            o,
        ).contains(("DXVK_ENABLE_NVAPI"@, "0"@)),
        topology(opt_text(o.cpu_limit)) matches Some(t) ==> game_env(rt, o).contains(
            ("WINE_CPU_TOPOLOGY"@, t),
        ),
        device_filter(opt_text(o.dxvk_filter), o.nvidia) matches Some(d) ==> game_env(
            rt,
            o,
        ).contains(("DXVK_FILTER_DEVICE_NAME"@, d)),
        o.log ==> game_env(rt, o).contains(("PROTON_LOG"@, "1"@)) && game_env(rt, o).contains(
            ("PROTON_LOG_DIR"@, rt.prefix@),
        ) && game_env(rt, o).contains(("VK_LOADER_DEBUG"@, "error,warn,info"@)) && game_env(
            rt,
            o,
        ).contains(("DXVK_LOG_LEVEL"@, "info"@)),
        game_env(rt, o).len() == 3 + (if rt.proton is Some {
            1int
        } else {
            0
        }) + (if o.nvapi {
            0int
        } else {
            2
        }) + (if topology(opt_text(o.cpu_limit)) is Some {
            1int
        } else {
            0
        }) + (if device_filter(opt_text(o.dxvk_filter), o.nvidia) is Some {
            1int
        } else {
            0
        }) + (if o.log {
            4int
        } else {
            0
        }),
{
    let e0 = base_env(rt);
    let e1 = if o.nvapi {
        e0
    } else {
        e0.push(("PROTON_DISABLE_NVAPI"@, "1"@)).push(("DXVK_ENABLE_NVAPI"@, "0"@))
    };
    let t = topology(opt_text(o.cpu_limit));
    let e2 = with_entry(e1, "WINE_CPU_TOPOLOGY"@, t);
    let d = device_filter(opt_text(o.dxvk_filter), o.nvidia);
    let e3 = with_entry(e2, "DXVK_FILTER_DEVICE_NAME"@, d);
    let e4 = game_env(rt, o);
    assert(e4[0] == ("WINEPREFIX"@, rt.prefix@));
    assert(e4[1] == ("GAMEID"@, "0"@));
    assert(e4[2] == ("STORE"@, "none"@));
    if let Some(p) = rt.proton {
        assert(e4[3] == ("PROTONPATH"@, p@));
    }
    if !o.nvapi {
        assert(e4[e0.len() as int] == ("PROTON_DISABLE_NVAPI"@, "1"@));
        assert(e4[e0.len() as int + 1] == ("DXVK_ENABLE_NVAPI"@, "0"@));
    }
    if let Some(v) = t {
        assert(e4[e1.len() as int] == ("WINE_CPU_TOPOLOGY"@, v));
    }
    if let Some(v) = d {
        assert(e4[e2.len() as int] == ("DXVK_FILTER_DEVICE_NAME"@, v));
    }
    if o.log {
        assert(e4[e3.len() as int] == ("PROTON_LOG"@, "1"@));
        assert(e4[e3.len() as int + 1] == ("PROTON_LOG_DIR"@, rt.prefix@));
        assert(e4[e3.len() as int + 2] == ("VK_LOADER_DEBUG"@, "error,warn,info"@));
        assert(e4[e3.len() as int + 3] == ("DXVK_LOG_LEVEL"@, "info"@));
    }
}

/// The launcher that is shipped is used where it is there, and else the one that was
/// found; so is the runtime, but for one that was asked for, which comes first.
pub proof fn law_shipped_runtime_is_used(
    home: &str,
    found: Option<String>,
    a: Option<String>,
    b: Option<String>,
    pin: String,
    c: Option<String>,
    d: Option<String>,
    e: Option<String>,
    there: bool,
)
    requires
        call_ensures(chosen_umu, (home, true, found), a),
        call_ensures(chosen_umu, (home, false, found), b),
        call_ensures(chosen_proton, (home, Some(pin), there), c),
        call_ensures(chosen_proton, (home, None, true), d),
        call_ensures(chosen_proton, (home, None, false), e),
    ensures
        a matches Some(p) && p@ == under(home@, ".local/share/maxima/wine/umu/umu-run"@),
        opt_text(b) == opt_text(found),
        c matches Some(p) && p@ == pin@,
        d matches Some(p) && p@ == under(home@, ".local/share/maxima/wine/proton"@),
        e is None,
{
}

/// What is done in the registry: what is marked as done is not done again; else the
/// launcher's keys are written, and the game's own where it names a location.
pub proof fn law_registry_is_filled_once(
    rt: &Runtime,
    product_id: u32,
    game_dir: &str,
    reg: &str,
    launcher_marked: bool,
    game_key_marked: bool,
    r: RegistryPlan,
    path: Seq<char>,
    value: Seq<char>,
)
    requires
        call_ensures(
            ensure_registry,
            (rt, product_id, game_dir, Some(reg), launcher_marked, game_key_marked),
            r,
        ),
        path.len() > 0 && !is_space(path.last()),
        value.len() > 0 && !is_space(value[0]) && !is_space(value.last()),
        !value.contains('\\'),
        !occurs(seq!['\\'] + path + seq!['\\'] + value, "HKEY_"@),
        reg@ == "HKEY_LOCAL_MACHINE"@ + (seq!['\\'] + path + seq!['\\'] + value),
    ensures
        r.launcher is Some <==> !launcher_marked,
        r.game_key is Some <==> !game_key_marked,
        r.game_key matches Some(g) ==> g.key@ == "HKLM"@ + (seq!['\\'] + path) && g.value@ == value
            && runs(g.runs@).len() > 0 && runs(g.runs@)[0] == reg_add(
            *rt,
            "HKLM"@ + (seq!['\\'] + path),
            value,
            wine_view(game_dir@) + seq!['\\'],
        ),
{
    reveal_strlit("\\");
    assert("\\"@ =~= seq!['\\']);
    law_location_is_parted(path, value);
    if let Some(g) = r.game_key {
        law_value_is_written_in_each_view(*rt, g.key@, g.value@, registry_dir(game_dir@));
    }
}

/// A game is run by the launcher: first its path and then its arguments, all of them and
/// in order.
pub proof fn law_game_is_run_with_its_arguments(
    rt: &Runtime,
    game_dir: &str,
    exe: &str,
    args: &Vec<String>,
    options: &RunOptions,
    r: Run,
    i: int,
)
    requires
        call_ensures(game_run, (rt, game_dir, exe, args, options), r),
        0 <= i < args@.len(),
    ensures
        r@.args.len() == args@.len() + 2,
        r@.args[0] == rt.umu@,
        r@.args[1] == exe@,
        r@.args[i + 2] == (args@[i])@,
        r@.env == game_env(*rt, *options),
{
}

/// Seeds of the registry are the files of that extension, in letters of either case.
pub proof fn law_seeds_by_their_extension(
    path: &str,
    r: bool,
    dir: Seq<char>,
    stem: Seq<char>,
    ext: Seq<char>,
)
    requires
        call_ensures(is_seed, (path,), r),
        path@ == under(dir, stem + seq!['.'] + ext),
        dir.len() > 0,
        stem.len() > 0,
        ext.len() > 0,
        forall|i: int| 0 <= i < stem.len() ==> #[trigger] stem[i] != '/',
        forall|i: int| 0 <= i < ext.len() ==> #[trigger] ext[i] != '/' && ext[i] != '.',
    ensures
        r <==> lower_ascii(ext) == "reg"@,
{
    reveal_strlit("reg");
    assert(lower_ascii("reg"@) =~= "reg"@);
    law_extension_alone_is_replaced(dir, stem, ext, ext);
}

/// The certificate is trusted both as a root and as a publisher's.
pub proof fn law_certificate_is_trusted(rt: &Runtime, cer: &str, r: Vec<Run>)
    requires
        call_ensures(ensure_cert_trust, (rt, cer), r),
    ensures
        runs(r@).len() == 2,
        runs(r@)[0].args == seq![rt.umu@, "certutil"@, "-addstore"@, "-f"@] + seq![
            "Root"@,
            wine_view(cer@),
        ],
        runs(r@)[1].args == seq![rt.umu@, "certutil"@, "-addstore"@, "-f"@] + seq![
            "TrustedPublisher"@,
            wine_view(cer@),
        ],
        runs(r@)[0].env == base_env(*rt) && runs(r@)[1].env == base_env(*rt),
{
}

/// Where the path of a command is looked for, it is what was printed without the white
/// space round it, and nothing where the search failed.
pub proof fn law_command_is_where_it_was_found(
    stdout: &[u8],
    a: Option<String>,
    b: Option<String>,
)
    requires
        call_ensures(which, (true, stdout), a),
        call_ensures(which, (false, stdout), b),
    ensures
        a matches Some(p) && p@ == trimmed(utf8_lossy(stdout@)),
        b is None,
{
}

} // verus!
