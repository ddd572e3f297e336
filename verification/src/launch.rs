//! Preparing a game for its launch: which loaders its executable asks for, the
//! configuration they read, and where the game runs.
use vstd::prelude::*;
use vstd::utf8::encode_utf8;

use crate::path::{
    file_name, is_plain_name, law_join_adds_one_component, lemma_settled_twice, name_of, parent,
    parent_of, settled, under,
};
use crate::text::{
    decimal, decimal_of, find, first_at, flag, flag_of, lemma_find_occurs, lemma_find_some,
    lemma_joined_stands, lemma_still_stands,
    lower_ascii, occurs, occurs_at, opt_str, replace, replaced, same, same_ignoring_ascii_case,
};

verus! {

// ---------------------------------------------------------------------------
// What an executable asks for
// ---------------------------------------------------------------------------

/// A byte with an upper case letter made lower case.
pub open spec fn lower_byte(b: u8) -> u8 {
    if 65 <= b <= 90 {
        (b + 32) as u8
    } else {
        b
    }
}

/// Some bytes with their upper case letters made lower case.
pub open spec fn lower_bytes(b: Seq<u8>) -> Seq<u8> {
    Seq::new(b.len(), |i: int| lower_byte(b[i]))
}

fn to_lower_byte(b: u8) -> (r: u8)
    ensures
        r == lower_byte(b),
{
    if 65 <= b && b <= 90 {
        b + 32
    } else {
        b
    }
}

/// Where some bytes first occur, in either case of letters.
pub open spec fn bytes_at(hay: Seq<u8>, needle: Seq<u8>) -> Option<int> {
    if needle.len() == 0 {
        None
    } else {
        find(lower_bytes(hay), lower_bytes(needle))
    }
}

fn lower_match(hay: &[u8], needle: &[u8], i: usize) -> (r: bool)
    requires
        i + needle.len() <= hay.len(),
    ensures
        r == occurs_at(lower_bytes(hay@), lower_bytes(needle@), i as int),
{
    let ghost low = lower_bytes(hay@);
    let ghost pat = lower_bytes(needle@);
    let mut k: usize = 0;
    while k < needle.len()
        invariant
            i + needle.len() <= hay.len(),
            k <= needle.len(),
            low == lower_bytes(hay@),
            pat == lower_bytes(needle@),
            forall|j: int| 0 <= j < k ==> low[i + j] == #[trigger] pat[j],
        decreases needle.len() - k,
    {
        if to_lower_byte(hay[i + k]) != to_lower_byte(needle[k]) {
            assert(low.subrange(i as int, i + pat.len())[k as int] == low[i + k]);
            assert(pat[k as int] != low[i + k]);
            return false;
        }
        assert(low[i + k] == pat[k as int]);
        k += 1;
    }
    assert(low.subrange(i as int, i + pat.len()) =~= pat);
    true
}

/// Searches bytes for others, in either case of letters. Nothing is found where
/// nothing is searched for.
pub fn find_bytes(hay: &[u8], needle: &[u8]) -> (r: Option<usize>)
    ensures
        match r {
            Some(i) => bytes_at(hay@, needle@) == Some(i as int),
            None => bytes_at(hay@, needle@) is None,
        },
{
    if needle.len() == 0 {
        return None;
    }
    let ghost low = lower_bytes(hay@);
    let ghost pat = lower_bytes(needle@);
    proof {
        lemma_find_occurs(low, pat);
    }
    if hay.len() < needle.len() {
        return None;
    }
    let last: usize = hay.len() - needle.len();
    let mut i: usize = 0;
    while i <= last
        invariant
            last == hay.len() - needle.len(),
            i <= last + 1,
            needle.len() > 0,
            low == lower_bytes(hay@),
            pat == lower_bytes(needle@),
            forall|j: int| 0 <= j < i ==> !#[trigger] occurs_at(low, pat, j),
        decreases last + 1 - i,
    {
        if lower_match(hay, needle, i) {
            proof {
                assert(first_at(low, pat, i as int));
                lemma_find_some(low, pat, i as int);
            }
            return Some(i);
        }
        i += 1;
    }
    None
}

/// The symbol that each user of Creative EAX carries.
pub const EAX_SYMBOL: &'static str = "EAXDirectSound";

/// The loader that only the newer generation imports.
pub const ORBIT_IMPORT: &'static str = "ubiorbitapi_r2_loader";

/// Whether an executable needs Creative EAX. There are no bytes where it could
/// not be read.
pub fn needs_eax(exe: Option<&[u8]>) -> (r: bool)
    ensures
        r == (exe matches Some(b) && bytes_at(b@, encode_utf8(EAX_SYMBOL@)) is Some),
{
    match exe {
        Some(b) => find_bytes(b, EAX_SYMBOL.as_bytes()).is_some(),
        None => false,
    }
}

/// The generation of loaders that an executable is linked against.
#[derive(Clone, Copy, Debug, PartialEq, Eq, Structural)]
pub enum Drm {
    /// `uplay_r1_loader.dll`, as most single-player titles.
    UplayR1,
    /// `ubiorbitapi_r2_loader.dll` and `upc_r1_loader.dll`.
    OrbitR2,
}

/// The generation of loaders that an executable names. There are no bytes where
/// it could not be read; then it is the common one.
pub fn detect_drm(exe: Option<&[u8]>) -> (r: Drm)
    ensures
        r == (if exe matches Some(b) && bytes_at(b@, encode_utf8(ORBIT_IMPORT@)) is Some {
            Drm::OrbitR2
        } else {
            Drm::UplayR1
        }),
{
    match exe {
        Some(b) => {
            if find_bytes(b, ORBIT_IMPORT.as_bytes()).is_some() {
                Drm::OrbitR2
            } else {
                Drm::UplayR1
            }
        },
        None => Drm::UplayR1,
    }
}

// ---------------------------------------------------------------------------
// Loaders
// ---------------------------------------------------------------------------

/// The loaders that are put next to an executable.
#[derive(Clone, Copy, Debug, PartialEq, Eq, Structural)]
pub enum Loader {
    UplayR1x64,
    UplayR1x32,
    OrbitR2x32,
}

/// A loader and the name that it is put under.
#[derive(Clone, Copy, Debug)]
pub struct Placed {
    pub name: &'static str,
    pub loader: Loader,
}

/// The names and the loaders.
pub open spec fn placements(l: Seq<Placed>) -> Seq<(Seq<char>, Loader)> {
    Seq::new(l.len(), |i: int| (l[i].name@, l[i].loader))
}

/// What every title gets.
pub open spec fn common_loaders() -> Seq<(Seq<char>, Loader)> {
    seq![
        ("uplay_r1_loader64.dll"@, Loader::UplayR1x64),
        ("uplay_r1_loader.dll"@, Loader::UplayR1x32),
        ("ubiorbitapi_r1_loader64.dll"@, Loader::UplayR1x64),
    ]
}

/// The loaders that a title gets. The flat loader of the newer generation has the
/// functions of the older one.
pub fn loaders_for(drm: Drm) -> (r: Vec<Placed>)
    ensures
        placements(r@) == (match drm {
            Drm::UplayR1 => common_loaders(),
            Drm::OrbitR2 => common_loaders() + seq![
                ("ubiorbitapi_r2_loader.dll"@, Loader::OrbitR2x32),
                ("upc_r1_loader.dll"@, Loader::UplayR1x32),
            ],
        }),
{
    let mut r: Vec<Placed> = Vec::new();
    r.push(Placed { name: "uplay_r1_loader64.dll", loader: Loader::UplayR1x64 });
    r.push(Placed { name: "uplay_r1_loader.dll", loader: Loader::UplayR1x32 });
    r.push(Placed { name: "ubiorbitapi_r1_loader64.dll", loader: Loader::UplayR1x64 });
    if drm == Drm::OrbitR2 {
        r.push(Placed { name: "ubiorbitapi_r2_loader.dll", loader: Loader::OrbitR2x32 });
        r.push(Placed { name: "upc_r1_loader.dll", loader: Loader::UplayR1x32 });
    }
    r
}

/// The name under which a file that was there before is kept.
pub fn backup_name(name: &str) -> (r: String)
    ensures
        r@ == name@ + ".orig"@,
{
    let mut r = name.to_owned();
    r.append(".orig");
    r
}

/// A file of `len` bytes has the size of one of our loaders.
pub open spec fn is_our_size(len: int, loader_lens: Seq<u64>) -> bool {
    exists|i: int| 0 <= i < loader_lens.len() && #[trigger] loader_lens[i] == len
}

/// Whether a file has the size of one of our loaders. There is no size where it
/// could not be told.
pub fn is_our_loader(len: Option<u64>, loader_lens: &Vec<u64>) -> (r: bool)
    ensures
        r == (len matches Some(n) && is_our_size(n as int, loader_lens@)),
{
    if let Some(n) = len {
        let mut i: usize = 0;
        while i < loader_lens.len()
            invariant
                i <= loader_lens.len(),
                len == Some(n),
                forall|j: int| 0 <= j < i ==> #[trigger] loader_lens@[j] != n,
            decreases loader_lens.len() - i,
        {
            if loader_lens[i] == n {
                return true;
            }
            i += 1;
        }
    }
    false
}

/// A file that is about to be replaced is kept: once, and not where it is one of
/// ours.
pub open spec fn is_backed_up(exists: bool, backed_up: bool, ours: bool) -> bool {
    exists && !backed_up && !ours
}

/// Whether a file that is about to be replaced is kept.
pub fn backs_up(exists: bool, backed_up: bool, ours: bool) -> (r: bool)
    ensures
        r == is_backed_up(exists, backed_up, ours),
{
    exists && !backed_up && !ours
}

/// What stands under the name of a loader, and what is kept under its backup name.
pub struct Place {
    pub file: Option<Seq<u8>>,
    pub kept: Option<Seq<u8>>,
}

/// What a deployment of `loader` leaves: the file that was there is moved to its
/// backup name where it is kept, and the loader is written.
pub open spec fn deployed(p: Place, loader: Seq<u8>, loader_lens: Seq<u64>) -> Place {
    let ours = p.file matches Some(b) && is_our_size(b.len() as int, loader_lens);
    Place {
        file: Some(loader),
        kept: if is_backed_up(p.file is Some, p.kept is Some, ours) {
            p.file
        } else {
            p.kept
        },
    }
}

/// The game's own file is kept when a loader is first put in its place. It stays
/// when a loader is put there again, whichever that is.
pub proof fn law_the_file_of_the_game_is_kept(
    p: Place,
    loader: Seq<u8>,
    next: Seq<u8>,
    loader_lens: Seq<u64>,
)
    requires
        p.file matches Some(b) && !is_our_size(b.len() as int, loader_lens),
        p.kept is None,
    ensures
        deployed(p, loader, loader_lens) == (Place { file: Some(loader), kept: p.file }),
        deployed(deployed(p, loader, loader_lens), next, loader_lens) == (Place {
            file: Some(next),
            kept: p.file,
        }),
{
}

/// What is kept is never replaced, nor given up.
pub proof fn law_what_is_kept_stays(p: Place, loader: Seq<u8>, loader_lens: Seq<u64>)
    requires
        p.kept is Some,
    ensures
        deployed(p, loader, loader_lens).kept == p.kept,
{
}

/// A loader of ours is never taken for the game's own file: to deploy it again
/// changes nothing.
pub proof fn law_deploying_again_changes_nothing(
    p: Place,
    loader: Seq<u8>,
    loader_lens: Seq<u64>,
)
    requires
        is_our_size(loader.len() as int, loader_lens),
    ensures
        deployed(deployed(p, loader, loader_lens), loader, loader_lens) == deployed(
            p,
            loader,
            loader_lens,
        ),
{
}

// ---------------------------------------------------------------------------
// Configuration
// ---------------------------------------------------------------------------

/// The player that the loaders present to a game.
#[derive(Debug)]
pub struct LaunchAccount {
    pub user_id: String,
    pub username: String,
    pub email: String,
    pub ticket: String,
    pub password: String,
    pub app_id: u32,
    pub language: String,
}

/// The contents of `Uplay.ini`.
pub open spec fn ini_text(acct: LaunchAccount) -> Seq<char> {
    "[Uplay]\r\nIsAppOwned=1\r\nUplayConnection=0\r\nAppId="@ + decimal(acct.app_id as nat)
        + "\r\nUsername="@ + acct.username@ + "\r\nEmail="@ + acct.email@ + "\r\nPassword="@
        + acct.password@ + "\r\nLanguage="@ + acct.language@ + "\r\nCdKey=\r\nUserId="@
        + acct.user_id@ + "\r\nTickedId="@ + acct.ticket@ + "\r\nSavePath=Default\r\n"@
}

/// The contents of `Uplay.ini`.
pub fn uplay_ini(acct: &LaunchAccount) -> (r: String)
    ensures
        r@ == ini_text(*acct),
{
    let mut r = "[Uplay]\r\nIsAppOwned=1\r\nUplayConnection=0\r\nAppId=".to_owned();
    r.append(decimal_of(acct.app_id as u64).as_str());
    r.append("\r\nUsername=");
    r.append(acct.username.as_str());
    r.append("\r\nEmail=");
    r.append(acct.email.as_str());
    r.append("\r\nPassword=");
    r.append(acct.password.as_str());
    r.append("\r\nLanguage=");
    r.append(acct.language.as_str());
    r.append("\r\nCdKey=\r\nUserId=");
    r.append(acct.user_id.as_str());
    r.append("\r\nTickedId=");
    r.append(acct.ticket.as_str());
    r.append("\r\nSavePath=Default\r\n");
    r
}

/// A character in a TOML basic string.
pub open spec fn toml_char(c: char) -> Seq<char> {
    if c == '\\' || c == '"' {
        seq!['\\', c]
    } else {
        seq![c]
    }
}

/// A text in a TOML basic string.
pub open spec fn toml_escaped(s: Seq<char>) -> Seq<char>
    decreases s.len(),
{
    if s.len() == 0 {
        seq![]
    } else {
        toml_escaped(s.drop_last()) + toml_char(s.last())
    }
}

/// Escapes a text for a TOML basic string.
pub fn toml_escape(s: &str) -> (r: String)
    ensures
        r@ == toml_escaped(s@),
{
    let mut r = String::new();
    for c in it: s.chars()
        invariant
            it.seq() == s@,
            r@ == toml_escaped(s@.take(it.index())),
    {
        proof {
            let k = it.index();
            assert(s@.take(k + 1).drop_last() == s@.take(k));
        }
        let ghost before = r@;
        if c == '\\' || c == '"' {
            r.push('\\');
        }
        r.push(c);
        assert(r@ == before + toml_char(c));
    }
    assert(s@.take(s@.len() as int) == s@);
    r
}

/// What a TOML basic string stands for, up to the quote that ends it.
pub open spec fn toml_read(t: Seq<char>) -> Seq<char>
    decreases t.len(),
{
    if t.len() == 0 || t[0] == '"' {
        seq![]
    } else if t[0] == '\\' && t.len() > 1 {
        seq![t[1]] + toml_read(t.skip(2))
    } else {
        seq![t[0]] + toml_read(t.skip(1))
    }
}

proof fn lemma_toml_read(s: Seq<char>, rest: Seq<char>)
    ensures
        toml_read(toml_escaped(s) + rest) == s + toml_read(rest),
    decreases s.len(),
{
    if s.len() == 0 {
        assert(toml_escaped(s) + rest =~= rest);
        assert(s + toml_read(rest) =~= toml_read(rest));
    } else {
        let c = s.last();
        let more = toml_char(c) + rest;
        lemma_toml_read(s.drop_last(), more);
        assert(toml_escaped(s) + rest =~= toml_escaped(s.drop_last()) + more);
        if c == '\\' || c == '"' {
            assert(more.skip(2) =~= rest);
        } else {
            assert(more.skip(1) =~= rest);
        }
        assert(toml_read(more) == seq![c] + toml_read(rest));
        assert(s.drop_last() + (seq![c] + toml_read(rest)) =~= s + toml_read(rest));
    }
}

/// An escaped text reads back as itself and does not end its string early,
/// whatever follows the closing quote.
pub proof fn law_toml_text_reads_back(s: Seq<char>, rest: Seq<char>)
    ensures
        toml_read(toml_escaped(s) + seq!['"'] + rest) == s,
{
    let more = seq!['"'] + rest;
    assert(toml_escaped(s) + seq!['"'] + rest =~= toml_escaped(s) + more);
    lemma_toml_read(s, more);
    assert(s + toml_read(more) =~= s);
}

/// Whether a game is told that it is offline, given the switch that says
/// otherwise.
pub fn is_offline(online: Option<&str>) -> (r: bool)
    ensures
        r == !(opt_str(online) == Some("1"@) || opt_str(online) == Some("true"@)),
{
    match online {
        Some(v) => !(same(v, "1") || same(v, "true")),
        None => true,
    }
}

/// The contents of `Uplay.toml`.
pub open spec fn uplay_toml_text(
    acct: LaunchAccount,
    name: Seq<char>,
    offline: bool,
    log: bool,
) -> Seq<char> {
    "[Uplay]\nName = \""@ + toml_escaped(name)
        + "\"\nSaves = \"Saves\"\nCdKeys = [\"\"]\nLanguage = \""@ + toml_escaped(acct.language@)
        + "\"\nOfflineMode = "@ + flag(offline)
        + "\nInstallHooks = false\n\n[Uplay.Log]\nWrite = "@ + flag(log)
        + "\nPath = \"Uplay.log\"\n\n[Uplay.Profile]\nAccountId = \""@ + toml_escaped(acct.user_id@)
        + "\"\nEmail = \""@ + toml_escaped(acct.email@) + "\"\nUsername = \""@ + toml_escaped(
        acct.username@,
    ) + "\"\nPassword = \""@ + toml_escaped(acct.password@) + "\"\nTicket = \""@ + toml_escaped(
        acct.ticket@,
    ) + "\"\n"@
}

/// The contents of `Uplay.toml`. Saves go to a directory below the game's own: an
/// absolute path would be misread inside the prefix.
pub fn uplay_toml(acct: &LaunchAccount, name: &str, offline: bool, log: bool) -> (r: String)
    ensures
        r@ == uplay_toml_text(*acct, name@, offline, log),
{
    let mut r = "[Uplay]\nName = \"".to_owned();
    r.append(toml_escape(name).as_str());
    r.append("\"\nSaves = \"Saves\"\nCdKeys = [\"\"]\nLanguage = \"");
    r.append(toml_escape(acct.language.as_str()).as_str());
    r.append("\"\nOfflineMode = ");
    r.append(flag_of(offline));
    r.append("\nInstallHooks = false\n\n[Uplay.Log]\nWrite = ");
    r.append(flag_of(log));
    r.append("\nPath = \"Uplay.log\"\n\n[Uplay.Profile]\nAccountId = \"");
    r.append(toml_escape(acct.user_id.as_str()).as_str());
    r.append("\"\nEmail = \"");
    r.append(toml_escape(acct.email.as_str()).as_str());
    r.append("\"\nUsername = \"");
    r.append(toml_escape(acct.username.as_str()).as_str());
    r.append("\"\nPassword = \"");
    r.append(toml_escape(acct.password.as_str()).as_str());
    r.append("\"\nTicket = \"");
    r.append(toml_escape(acct.ticket.as_str()).as_str());
    r.append("\"\n");
    r
}

/// The contents of `Orbit.toml`.
pub open spec fn orbit_toml_text(acct: LaunchAccount, name: Seq<char>, log: bool) -> Seq<char> {
    "[Orbit]\nName = \""@ + toml_escaped(name) + "\"\nProductId = "@ + decimal(acct.app_id as nat)
        + "\nSaves = \"Saves\"\nCdKeys = [\"\"]\n\n[Orbit.Log]\nWrite = "@ + flag(log)
        + "\nPath = \"Orbit.log\"\n\n[Orbit.Profile]\nAccountId = \""@ + toml_escaped(acct.user_id@)
        + "\"\nUsername = \""@ + toml_escaped(acct.username@) + "\"\nPassword = \""@ + toml_escaped(
        acct.password@,
    ) + "\"\n"@
}

/// The contents of `Orbit.toml`.
pub fn orbit_toml(acct: &LaunchAccount, name: &str, log: bool) -> (r: String)
    ensures
        r@ == orbit_toml_text(*acct, name@, log),
{
    let mut r = "[Orbit]\nName = \"".to_owned();
    r.append(toml_escape(name).as_str());
    r.append("\"\nProductId = ");
    r.append(decimal_of(acct.app_id as u64).as_str());
    r.append("\nSaves = \"Saves\"\nCdKeys = [\"\"]\n\n[Orbit.Log]\nWrite = ");
    r.append(flag_of(log));
    r.append("\nPath = \"Orbit.log\"\n\n[Orbit.Profile]\nAccountId = \"");
    r.append(toml_escape(acct.user_id.as_str()).as_str());
    r.append("\"\nUsername = \"");
    r.append(toml_escape(acct.username.as_str()).as_str());
    r.append("\"\nPassword = \"");
    r.append(toml_escape(acct.password.as_str()).as_str());
    r.append("\"\n");
    r
}

/// A file and what it holds.
#[derive(Debug)]
pub struct ConfigFile {
    pub name: &'static str,
    pub text: String,
}

/// The names and the contents of some files.
pub open spec fn contents(l: Seq<ConfigFile>) -> Seq<(Seq<char>, Seq<char>)> {
    Seq::new(l.len(), |i: int| (l[i].name@, l[i].text@))
}

/// The files that are written next to an executable: those of both loaders of the
/// older generation, and that of the newer one for titles that use it.
pub fn config_files(
    drm: Drm,
    acct: &LaunchAccount,
    name: &str,
    offline: bool,
    log: bool,
) -> (r: Vec<ConfigFile>)
    ensures
        ({
            let both = seq![
                ("Uplay.toml"@, uplay_toml_text(*acct, name@, offline, log)),
                ("Uplay.ini"@, ini_text(*acct)),
            ];
            contents(r@) == (match drm {
                Drm::UplayR1 => both,
                Drm::OrbitR2 => both.push(("Orbit.toml"@, orbit_toml_text(*acct, name@, log))),
            })
        }),
{
    let mut r: Vec<ConfigFile> = Vec::new();
    r.push(ConfigFile { name: "Uplay.toml", text: uplay_toml(acct, name, offline, log) });
    r.push(ConfigFile { name: "Uplay.ini", text: uplay_ini(acct) });
    let ghost both = seq![
        ("Uplay.toml"@, uplay_toml_text(*acct, name@, offline, log)),
        ("Uplay.ini"@, ini_text(*acct)),
    ];
    assert(contents(r@) =~= both);
    if drm == Drm::OrbitR2 {
        r.push(ConfigFile { name: "Orbit.toml", text: orbit_toml(acct, name, log) });
        assert(contents(r@) =~= both.push(("Orbit.toml"@, orbit_toml_text(*acct, name@, log))));
    }
    r
}

// ---------------------------------------------------------------------------
// Where a game runs
// ---------------------------------------------------------------------------

/// A directory that a game of the Unreal engine runs in.
pub open spec fn is_system_dir(p: Seq<char>) -> bool {
    name_of(p) matches Some(n) && lower_ascii(n) == lower_ascii("System"@)
}

/// Where a game runs: at the root of its installation, and where its executable
/// is in a `System` directory, there.
pub open spec fn run_dir(install_root: Seq<char>, exe: Seq<char>) -> Seq<char> {
    match parent_of(exe) {
        Some(p) => if is_system_dir(p) {
            p
        } else {
            install_root
        },
        None => install_root,
    }
}

/// The directory that a game runs in.
pub fn working_dir(install_root: &str, exe: &str) -> (r: String)
    ensures
        r@ == run_dir(install_root@, exe@),
{
    if let Some(p) = parent(exe) {
        if let Some(n) = file_name(p.as_str()) {
            if same_ignoring_ascii_case(n.as_str(), "System") {
                return p;
            }
        }
    }
    install_root.to_owned()
}

/// An executable in a `System` directory runs there.
pub proof fn law_system_executable_runs_there(root: Seq<char>, dir: Seq<char>, exe: Seq<char>)
    requires
        root.len() > 0,
        is_plain_name(dir),
        lower_ascii(dir) == lower_ascii("System"@),
        is_plain_name(exe),
    ensures
        run_dir(root, under(under(root, dir), exe)) == settled(under(root, dir)),
{
    law_join_adds_one_component(root, dir);
    law_join_adds_one_component(under(root, dir), exe);
    lemma_settled_twice(under(root, dir));
}

/// An executable in any other directory runs at the root of the installation.
pub proof fn law_other_executables_run_at_the_root(root: Seq<char>, dir: Seq<char>, exe: Seq<char>)
    requires
        dir.len() > 0,
        !is_system_dir(dir),
        is_plain_name(exe),
    ensures
        run_dir(root, under(dir, exe)) == root,
{
    law_join_adds_one_component(dir, exe);
    lemma_settled_twice(dir);
}

/// A path as it is seen inside the prefix.
pub open spec fn wine_view(p: Seq<char>) -> Seq<char> {
    "Z:"@ + replaced(p, "/"@, "\\"@)
}

/// A path as it is seen inside the prefix: `/a/b` is `Z:\a\b` there.
pub fn wine_path(p: &str) -> (r: String)
    ensures
        r@ == wine_view(p@),
{
    proof {
        reveal_strlit("/");
    }
    let mut r = "Z:".to_owned();
    r.append(replace(p, "/", "\\").as_str());
    r
}

// ---------------------------------------------------------------------------
// What a launch promises
// ---------------------------------------------------------------------------

/// Two bytes that are equal, or the same ASCII letter in different cases.
pub open spec fn is_same_letter(a: u8, b: u8) -> bool {
    ||| a == b
    ||| (65 <= a <= 90 && b == a + 32)
    ||| (65 <= b <= 90 && a == b + 32)
}

proof fn lemma_lower_occurs(hay: Seq<u8>, needle: Seq<u8>, i: int)
    requires
        0 <= i,
        i + needle.len() <= hay.len(),
    ensures
        occurs_at(lower_bytes(hay), lower_bytes(needle), i) <==> forall|m: int|
            0 <= m < needle.len() ==> is_same_letter(hay[i + m], #[trigger] needle[m]),
{
    let low = lower_bytes(hay);
    let pat = lower_bytes(needle);
    let part = low.subrange(i, i + pat.len());
    if occurs_at(low, pat, i) {
        assert forall|m: int| 0 <= m < needle.len() implies is_same_letter(
            hay[i + m],
            #[trigger] needle[m],
        ) by {
            assert(part[m] == low[i + m]);
            assert(pat[m] == lower_byte(needle[m]));
        }
    }
    if forall|m: int| 0 <= m < needle.len() ==> is_same_letter(hay[i + m], #[trigger] needle[m]) {
        assert forall|m: int| 0 <= m < pat.len() implies part[m] == #[trigger] pat[m] by {
            assert(is_same_letter(hay[i + m], needle[m]));
        }
        assert(part =~= pat);
    }
}

/// Bytes that stand anywhere in others, letters in either case, are found, however far
/// back they stand. What is found is the least such position: at each `j` before it
/// they do not stand.
pub proof fn law_bytes_are_found_where_they_first_stand(
    hay: Seq<u8>,
    needle: Seq<u8>,
    i: int,
    j: int,
)
    requires
        needle.len() > 0,
        0 <= i,
        i + needle.len() <= hay.len(),
        forall|m: int|
            0 <= m < needle.len() ==> is_same_letter(hay[i + m], #[trigger] needle[m]),
        0 <= j,
    ensures
        bytes_at(hay, needle) matches Some(k) && 0 <= k <= i && (forall|m: int|
            0 <= m < needle.len() ==> is_same_letter(hay[k + m], #[trigger] needle[m])) && (j < k
            ==> exists|m: int|
            0 <= m < needle.len() && !is_same_letter(hay[j + m], #[trigger] needle[m])),
{
    let low = lower_bytes(hay);
    let pat = lower_bytes(needle);
    lemma_lower_occurs(hay, needle, i);
    lemma_find_occurs(low, pat);
    let k = find(low, pat)->0;
    if i < k {
        assert(!occurs_at(low, pat, i));
    }
    lemma_lower_occurs(hay, needle, k);
    if j < k {
        lemma_lower_occurs(hay, needle, j);
        assert(!occurs_at(low, pat, j));
    }
}

/// Where nothing is found, the bytes stand nowhere.
pub proof fn law_no_bytes_are_overlooked(hay: Seq<u8>, needle: Seq<u8>, j: int)
    requires
        needle.len() > 0,
        bytes_at(hay, needle) is None,
        0 <= j,
        j + needle.len() <= hay.len(),
    ensures
        exists|m: int|
            0 <= m < needle.len() && !is_same_letter(hay[j + m], #[trigger] needle[m]),
{
    lemma_find_occurs(lower_bytes(hay), lower_bytes(needle));
    lemma_lower_occurs(hay, needle, j);
}

/// A name is found behind whatever comes before it, and before whatever follows.
pub proof fn law_name_is_found_in_an_executable(
    before: Seq<u8>,
    name: Seq<u8>,
    spelled: Seq<u8>,
    after: Seq<u8>,
)
    requires
        name.len() > 0,
        spelled.len() == name.len(),
        forall|m: int| 0 <= m < name.len() ==> is_same_letter(spelled[m], #[trigger] name[m]),
    ensures
        bytes_at(before + spelled + after, name) matches Some(k) && 0 <= k <= before.len(),
{
    let hay = before + spelled + after;
    let n = before.len() as int;
    assert forall|m: int| 0 <= m < name.len() implies is_same_letter(
        hay[n + m],
        #[trigger] name[m],
    ) by {
        assert(hay[n + m] == spelled[m]);
    }
    law_bytes_are_found_where_they_first_stand(hay, name, n, 0);
}

/// The bytes of an ASCII text are its characters.
proof fn lemma_ascii_bytes(s: Seq<char>)
    requires
        vstd::utf8::is_ascii_chars(s),
    ensures
        encode_utf8(s) == Seq::new(s.len(), |i: int| s[i] as u8),
{
    vstd::utf8::is_ascii_chars_encode_utf8(s);
    assert(encode_utf8(s) =~= Seq::new(s.len(), |i: int| s[i] as u8));
}

/// An executable that imports the loader of the newer generation is known by it, and
/// one that uses Creative EAX by its symbol, wherever the name stands.
pub proof fn law_imports_are_recognised(before: Seq<u8>, after: Seq<u8>)
    ensures
        bytes_at(
            before + encode_utf8("ubiorbitapi_r2_loader.dll"@) + after,
            encode_utf8(ORBIT_IMPORT@),
        ) is Some,
        bytes_at(
            before + encode_utf8("EAXDirectSoundCreate8"@) + after,
            encode_utf8(EAX_SYMBOL@),
        ) is Some,
{
    reveal_strlit("ubiorbitapi_r2_loader.dll");
    reveal_strlit("ubiorbitapi_r2_loader");
    reveal_strlit("EAXDirectSoundCreate8");
    reveal_strlit("EAXDirectSound");
    let dll = encode_utf8("ubiorbitapi_r2_loader.dll"@);
    let import = encode_utf8(ORBIT_IMPORT@);
    lemma_ascii_bytes("ubiorbitapi_r2_loader.dll"@);
    lemma_ascii_bytes(ORBIT_IMPORT@);
    assert(dll.take(21) =~= import);
    assert(before + dll + after =~= before + import + (dll.skip(21) + after));
    law_name_is_found_in_an_executable(before, import, import, dll.skip(21) + after);
    let call = encode_utf8("EAXDirectSoundCreate8"@);
    let symbol = encode_utf8(EAX_SYMBOL@);
    lemma_ascii_bytes("EAXDirectSoundCreate8"@);
    lemma_ascii_bytes(EAX_SYMBOL@);
    assert(call.take(14) =~= symbol);
    assert(before + call + after =~= before + symbol + (call.skip(14) + after));
    law_name_is_found_in_an_executable(before, symbol, symbol, call.skip(14) + after);
}

/// A file of another length than every loader is the game's own, and is kept; one of
/// the length of a loader is not.
pub proof fn law_length_tells_the_files_apart(p: Place, loader: Seq<u8>, loader_lens: Seq<u64>)
    requires
        p.file is Some,
        p.kept is None,
    ensures
        (forall|i: int| 0 <= i < loader_lens.len() ==> #[trigger] loader_lens[i] != p.file->0.len())
            ==> deployed(p, loader, loader_lens).kept == p.file,
        (exists|i: int| 0 <= i < loader_lens.len() && #[trigger] loader_lens[i] == p.file->0.len())
            ==> deployed(p, loader, loader_lens).kept is None,
        deployed(p, loader, loader_lens).file == Some(loader),
        deployed(Place { file: None, kept: None }, loader, loader_lens) == (Place {
            file: Some(loader),
            kept: None,
        }),
{
}

/// Some texts, one behind the other.
pub open spec fn chained(l: Seq<Seq<char>>) -> Seq<char>
    decreases l.len(),
{
    if l.len() == 0 {
        seq![]
    } else {
        chained(l.drop_last()) + l.last()
    }
}

proof fn lemma_chained(l: Seq<Seq<char>>, x: Seq<char>) -> (r: Seq<Seq<char>>)
    ensures
        r == l.push(x),
        chained(r) == chained(l) + x,
{
    assert(l.push(x).drop_last() =~= l);
    l.push(x)
}

/// Each three texts in a row stand in the chain as they are.
proof fn lemma_stands_in_chain(l: Seq<Seq<char>>, k: int)
    requires
        0 <= k,
        k + 2 < l.len(),
    ensures
        occurs(chained(l), l[k] + l[k + 1] + l[k + 2]),
    decreases l.len(),
{
    let m = l.drop_last();
    if k + 3 == l.len() {
        reveal_with_fuel(chained, 3);
        lemma_joined_stands(chained(m.drop_last().drop_last()), l[k], l[k + 1], l[k + 2]);
    } else {
        lemma_stands_in_chain(m, k);
        lemma_still_stands(chained(m), l.last(), l[k] + l[k + 1] + l[k + 2]);
    }
}

/// `Uplay.ini` presents the account: each of its fields stands there as it is, behind
/// its name and before the line of the next.
pub proof fn law_ini_presents_the_account(acct: LaunchAccount)
    ensures
        occurs(
            ini_text(acct),
            "[Uplay]\r\nIsAppOwned=1\r\nUplayConnection=0\r\nAppId="@ + decimal(acct.app_id as nat)
                + "\r\nUsername="@,
        ),
        occurs(ini_text(acct), "\r\nUsername="@ + acct.username@ + "\r\nEmail="@),
        occurs(ini_text(acct), "\r\nEmail="@ + acct.email@ + "\r\nPassword="@),
        occurs(ini_text(acct), "\r\nPassword="@ + acct.password@ + "\r\nLanguage="@),
        occurs(ini_text(acct), "\r\nLanguage="@ + acct.language@ + "\r\nCdKey=\r\nUserId="@),
        occurs(ini_text(acct), "\r\nCdKey=\r\nUserId="@ + acct.user_id@ + "\r\nTickedId="@),
        occurs(ini_text(acct), "\r\nTickedId="@ + acct.ticket@ + "\r\nSavePath=Default\r\n"@),
{
    let l = Seq::<Seq<char>>::empty();
    let l = lemma_chained(l, "[Uplay]\r\nIsAppOwned=1\r\nUplayConnection=0\r\nAppId="@);
    let l = lemma_chained(l, decimal(acct.app_id as nat));
    let l = lemma_chained(l, "\r\nUsername="@);
    let l = lemma_chained(l, acct.username@);
    let l = lemma_chained(l, "\r\nEmail="@);
    let l = lemma_chained(l, acct.email@);
    let l = lemma_chained(l, "\r\nPassword="@);
    let l = lemma_chained(l, acct.password@);
    let l = lemma_chained(l, "\r\nLanguage="@);
    let l = lemma_chained(l, acct.language@);
    let l = lemma_chained(l, "\r\nCdKey=\r\nUserId="@);
    let l = lemma_chained(l, acct.user_id@);
    let l = lemma_chained(l, "\r\nTickedId="@);
    let l = lemma_chained(l, acct.ticket@);
    let l = lemma_chained(l, "\r\nSavePath=Default\r\n"@);
    assert(Seq::<char>::empty() + "[Uplay]\r\nIsAppOwned=1\r\nUplayConnection=0\r\nAppId="@ =~= "[Uplay]\r\nIsAppOwned=1\r\nUplayConnection=0\r\nAppId="@);
    assert(chained(l) == ini_text(acct));
    lemma_stands_in_chain(l, 0);
    lemma_stands_in_chain(l, 2);
    lemma_stands_in_chain(l, 4);
    lemma_stands_in_chain(l, 6);
    lemma_stands_in_chain(l, 8);
    lemma_stands_in_chain(l, 10);
    lemma_stands_in_chain(l, 12);
}

/// `Uplay.toml` presents the account: each of its fields stands there, escaped, between
/// its name and what follows.
pub proof fn law_uplay_toml_presents_the_account(
    acct: LaunchAccount,
    name: Seq<char>,
    offline: bool,
    log: bool,
)
    ensures
        occurs(
            uplay_toml_text(acct, name, offline, log),
            "[Uplay]\nName = \""@ + toml_escaped(name)
                + "\"\nSaves = \"Saves\"\nCdKeys = [\"\"]\nLanguage = \""@,
        ),
        occurs(
            uplay_toml_text(acct, name, offline, log),
            "\"\nSaves = \"Saves\"\nCdKeys = [\"\"]\nLanguage = \""@ + toml_escaped(acct.language@)
                + "\"\nOfflineMode = "@,
        ),
        occurs(
            uplay_toml_text(acct, name, offline, log),
            "\"\nOfflineMode = "@ + flag(offline)
                + "\nInstallHooks = false\n\n[Uplay.Log]\nWrite = "@,
        ),
        occurs(
            uplay_toml_text(acct, name, offline, log),
            "\nInstallHooks = false\n\n[Uplay.Log]\nWrite = "@ + flag(log)
                + "\nPath = \"Uplay.log\"\n\n[Uplay.Profile]\nAccountId = \""@,
        ),
        occurs(
            uplay_toml_text(acct, name, offline, log),
            "\nPath = \"Uplay.log\"\n\n[Uplay.Profile]\nAccountId = \""@ + toml_escaped(acct.user_id@)
                + "\"\nEmail = \""@,
        ),
        occurs(
            uplay_toml_text(acct, name, offline, log),
            "\"\nEmail = \""@ + toml_escaped(acct.email@) + "\"\nUsername = \""@,
        ),
        occurs(
            uplay_toml_text(acct, name, offline, log),
            "\"\nUsername = \""@ + toml_escaped(acct.username@) + "\"\nPassword = \""@,
        ),
        occurs(
            uplay_toml_text(acct, name, offline, log),
            "\"\nPassword = \""@ + toml_escaped(acct.password@) + "\"\nTicket = \""@,
        ),
        occurs(
            uplay_toml_text(acct, name, offline, log),
            "\"\nTicket = \""@ + toml_escaped(acct.ticket@) + "\"\n"@,
        ),
{
    let l = Seq::<Seq<char>>::empty();
    let l = lemma_chained(l, "[Uplay]\nName = \""@);
    let l = lemma_chained(l, toml_escaped(name));
    let l = lemma_chained(l, "\"\nSaves = \"Saves\"\nCdKeys = [\"\"]\nLanguage = \""@);
    let l = lemma_chained(l, toml_escaped(acct.language@));
    let l = lemma_chained(l, "\"\nOfflineMode = "@);
    let l = lemma_chained(l, flag(offline));
    let l = lemma_chained(l, "\nInstallHooks = false\n\n[Uplay.Log]\nWrite = "@);
    let l = lemma_chained(l, flag(log));
    let l = lemma_chained(l, "\nPath = \"Uplay.log\"\n\n[Uplay.Profile]\nAccountId = \""@);
    let l = lemma_chained(l, toml_escaped(acct.user_id@));
    let l = lemma_chained(l, "\"\nEmail = \""@);
    let l = lemma_chained(l, toml_escaped(acct.email@));
    let l = lemma_chained(l, "\"\nUsername = \""@);
    let l = lemma_chained(l, toml_escaped(acct.username@));
    let l = lemma_chained(l, "\"\nPassword = \""@);
    let l = lemma_chained(l, toml_escaped(acct.password@));
    let l = lemma_chained(l, "\"\nTicket = \""@);
    let l = lemma_chained(l, toml_escaped(acct.ticket@));
    let l = lemma_chained(l, "\"\n"@);
    assert(Seq::<char>::empty() + "[Uplay]\nName = \""@ =~= "[Uplay]\nName = \""@);
    assert(chained(l) == uplay_toml_text(acct, name, offline, log));
    lemma_stands_in_chain(l, 0);
    lemma_stands_in_chain(l, 2);
    lemma_stands_in_chain(l, 4);
    lemma_stands_in_chain(l, 6);
    lemma_stands_in_chain(l, 8);
    lemma_stands_in_chain(l, 10);
    lemma_stands_in_chain(l, 12);
    lemma_stands_in_chain(l, 14);
    lemma_stands_in_chain(l, 16);
}

/// `Orbit.toml` presents the account in the same way.
pub proof fn law_orbit_toml_presents_the_account(
    acct: LaunchAccount,
    name: Seq<char>,
    log: bool,
)
    ensures
        occurs(
            orbit_toml_text(acct, name, log),
            "[Orbit]\nName = \""@ + toml_escaped(name) + "\"\nProductId = "@,
        ),
        occurs(
            orbit_toml_text(acct, name, log),
            "\"\nProductId = "@ + decimal(acct.app_id as nat)
                + "\nSaves = \"Saves\"\nCdKeys = [\"\"]\n\n[Orbit.Log]\nWrite = "@,
        ),
        occurs(
            orbit_toml_text(acct, name, log),
            "\nSaves = \"Saves\"\nCdKeys = [\"\"]\n\n[Orbit.Log]\nWrite = "@ + flag(log)
                + "\nPath = \"Orbit.log\"\n\n[Orbit.Profile]\nAccountId = \""@,
        ),
        occurs(
            orbit_toml_text(acct, name, log),
            "\nPath = \"Orbit.log\"\n\n[Orbit.Profile]\nAccountId = \""@ + toml_escaped(acct.user_id@)
                + "\"\nUsername = \""@,
        ),
        occurs(
            orbit_toml_text(acct, name, log),
            "\"\nUsername = \""@ + toml_escaped(acct.username@) + "\"\nPassword = \""@,
        ),
        occurs(
            orbit_toml_text(acct, name, log),
            "\"\nPassword = \""@ + toml_escaped(acct.password@) + "\"\n"@,
        ),
{
    let l = Seq::<Seq<char>>::empty();
    let l = lemma_chained(l, "[Orbit]\nName = \""@);
    let l = lemma_chained(l, toml_escaped(name));
    let l = lemma_chained(l, "\"\nProductId = "@);
    let l = lemma_chained(l, decimal(acct.app_id as nat));
    let l = lemma_chained(l, "\nSaves = \"Saves\"\nCdKeys = [\"\"]\n\n[Orbit.Log]\nWrite = "@);
    let l = lemma_chained(l, flag(log));
    let l = lemma_chained(l, "\nPath = \"Orbit.log\"\n\n[Orbit.Profile]\nAccountId = \""@);
    let l = lemma_chained(l, toml_escaped(acct.user_id@));
    let l = lemma_chained(l, "\"\nUsername = \""@);
    let l = lemma_chained(l, toml_escaped(acct.username@));
    let l = lemma_chained(l, "\"\nPassword = \""@);
    let l = lemma_chained(l, toml_escaped(acct.password@));
    let l = lemma_chained(l, "\"\n"@);
    assert(Seq::<char>::empty() + "[Orbit]\nName = \""@ =~= "[Orbit]\nName = \""@);
    assert(chained(l) == orbit_toml_text(acct, name, log));
    lemma_stands_in_chain(l, 0);
    lemma_stands_in_chain(l, 2);
    lemma_stands_in_chain(l, 4);
    lemma_stands_in_chain(l, 6);
    lemma_stands_in_chain(l, 8);
    lemma_stands_in_chain(l, 10);
}

/// An executable in a directory that is not called `System`, letters in either case,
/// runs at the root of the installation.
pub proof fn law_executables_elsewhere_run_at_the_root(
    root: Seq<char>,
    dir: Seq<char>,
    exe: Seq<char>,
)
    requires
        root.len() > 0,
        is_plain_name(dir),
        lower_ascii(dir) != lower_ascii("System"@),
        is_plain_name(exe),
    ensures
        run_dir(root, under(under(root, dir), exe)) == root,
{
    law_join_adds_one_component(root, dir);
    law_join_adds_one_component(under(root, dir), exe);
    lemma_settled_twice(under(root, dir));
}

/// Inside the prefix a path is that on drive `Z:` with each separator turned round.
pub proof fn law_path_inside_the_prefix(p: Seq<char>)
    ensures
        wine_view(p) == seq!['Z', ':'] + Seq::new(
            p.len(),
            |i: int|
                if p[i] == '/' {
                    '\\'
                } else {
                    p[i]
                },
        ),
{
    reveal_strlit("Z:");
    reveal_strlit("/");
    reveal_strlit("\\");
    assert("/"@ =~= seq!['/']);
    assert("\\"@ =~= seq!['\\']);
    assert("Z:"@ =~= seq!['Z', ':']);
    crate::text::law_replaced_char(p, '/', '\\');
}

/// The function that searches an executable finds the bytes where they first stand, in
/// letters of either case, and says so only where they do.
pub proof fn law_find_bytes_finds_the_first(
    hay: &[u8],
    needle: &[u8],
    r: Option<usize>,
    i: int,
    j: int,
)
    requires
        call_ensures(find_bytes, (hay, needle), r),
        needle@.len() > 0,
        0 <= i && i + needle@.len() <= hay@.len(),
        forall|m: int|
            0 <= m < needle@.len() ==> is_same_letter(hay@[i + m], #[trigger] needle@[m]),
        0 <= j,
    ensures
        r matches Some(k) && k <= i && (forall|m: int|
            0 <= m < needle@.len() ==> is_same_letter(hay@[k + m], #[trigger] needle@[m])) && (j
            < k ==> exists|m: int|
            0 <= m < needle@.len() && !is_same_letter(hay@[j + m], #[trigger] needle@[m])),
{
    law_bytes_are_found_where_they_first_stand(hay@, needle@, i, j);
}

/// Where the function finds nothing, the bytes stand nowhere.
pub proof fn law_find_bytes_overlooks_nothing(
    hay: &[u8],
    needle: &[u8],
    r: Option<usize>,
    j: int,
)
    requires
        call_ensures(find_bytes, (hay, needle), r),
        needle@.len() > 0,
        r is None,
        0 <= j && j + needle@.len() <= hay@.len(),
    ensures
        exists|m: int|
            0 <= m < needle@.len() && !is_same_letter(hay@[j + m], #[trigger] needle@[m]),
{
    law_no_bytes_are_overlooked(hay@, needle@, j);
}

/// A game is online where it is asked to be, with a one or the word, and else offline.
pub proof fn law_offline_unless_asked(online: Option<&str>, r: bool)
    requires
        call_ensures(is_offline, (online,), r),
    ensures
        online is None ==> r,
        online matches Some(s) ==> (s@ == "1"@ ==> !r) && (s@ == "true"@ ==> !r) && (s@ != "1"@
            && s@ != "true"@ ==> r),
{
}

/// A game that asks for a function of the sound library, or for the older client, is
/// recognised by the name in its executable, in letters of either case and wherever it
/// stands; without an executable neither is.
pub proof fn law_needs_of_an_executable(
    b: &[u8],
    eax: bool,
    drm: Drm,
    none: bool,
    unknown: Drm,
)
    requires
        call_ensures(needs_eax, (Some(b),), eax),
        call_ensures(detect_drm, (Some(b),), drm),
        call_ensures(needs_eax, (None,), none),
        call_ensures(detect_drm, (None,), unknown),
    ensures
        eax <==> bytes_at(b@, encode_utf8(EAX_SYMBOL@)) is Some,
        drm == Drm::OrbitR2 <==> bytes_at(b@, encode_utf8(ORBIT_IMPORT@)) is Some,
        !none,
        unknown == Drm::UplayR1,
{
}

/// Every game gets the common loaders and the files that present the account; one of the
/// older client gets that client's too, and no other game does.
pub proof fn law_older_games_get_more(
    acct: &LaunchAccount,
    name: &str,
    offline: bool,
    log: bool,
    f1: Vec<ConfigFile>,
    f2: Vec<ConfigFile>,
    l1: Vec<Placed>,
    l2: Vec<Placed>,
)
    requires
        call_ensures(config_files, (Drm::UplayR1, acct, name, offline, log), f1),
        call_ensures(config_files, (Drm::OrbitR2, acct, name, offline, log), f2),
        call_ensures(loaders_for, (Drm::UplayR1,), l1),
        call_ensures(loaders_for, (Drm::OrbitR2,), l2),
    ensures
        contents(f1@) == seq![
            ("Uplay.toml"@, uplay_toml_text(*acct, name@, offline, log)),
            ("Uplay.ini"@, ini_text(*acct)),
        ],
        contents(f2@) == contents(f1@) + seq![("Orbit.toml"@, orbit_toml_text(*acct, name@, log))],
        placements(l2@) == placements(l1@) + seq![
            ("ubiorbitapi_r2_loader.dll"@, Loader::OrbitR2x32),
            ("upc_r1_loader.dll"@, Loader::UplayR1x32),
        ],
{
}

/// A file of the game's is kept the first time one of ours replaces it: where there is
/// one, it was not kept before, and it is not ours.
pub proof fn law_when_a_file_is_kept(there: bool, kept: bool, ours: bool, r: bool)
    requires
        call_ensures(backs_up, (there, kept, ours), r),
    ensures
        r ==> there && !kept && !ours,
        there && !kept && !ours ==> r,
{
}

/// A file is ours where it is as long as one of our loaders, and one that is not there is
/// not.
pub proof fn law_our_files_by_their_length(
    n: u64,
    lens: &Vec<u64>,
    r: bool,
    none: bool,
)
    requires
        call_ensures(is_our_loader, (Some(n), lens), r),
        call_ensures(is_our_loader, (None, lens), none),
    ensures
        r <==> lens@.contains(n),
        !none,
{
    if lens@.contains(n) {
        let i = choose|i: int| 0 <= i < lens@.len() && lens@[i] == n;
        assert(lens@[i] == n);
    }
}

/// Every game gets the three loaders of the current client.
pub proof fn law_common_loaders(drm: Drm, l: Vec<Placed>)
    requires
        call_ensures(loaders_for, (drm,), l),
    ensures
        placements(l@).contains(("uplay_r1_loader64.dll"@, Loader::UplayR1x64)),
        placements(l@).contains(("uplay_r1_loader.dll"@, Loader::UplayR1x32)),
        placements(l@).contains(("ubiorbitapi_r1_loader64.dll"@, Loader::UplayR1x64)),
{
    let p = placements(l@);
    assert(p[0] == ("uplay_r1_loader64.dll"@, Loader::UplayR1x64));
    assert(p[1] == ("uplay_r1_loader.dll"@, Loader::UplayR1x32));
    assert(p[2] == ("ubiorbitapi_r1_loader64.dll"@, Loader::UplayR1x64));
}

/// In TOML a quotation mark and a backslash stand behind a backslash, and every other
/// character for itself.
pub proof fn law_toml_text_char_by_char(s: Seq<char>, c: char)
    ensures
        c == '"' || c == '\\' ==> toml_escaped(s.push(c)) == toml_escaped(s) + seq!['\\', c],
        c != '"' && c != '\\' ==> toml_escaped(s.push(c)) == toml_escaped(s) + seq![c],
        toml_escaped(Seq::<char>::empty()).len() == 0,
{
    assert(s.push(c).drop_last() =~= s);
    assert(s.push(c).last() == c);
}

} // verus!
