//! The player that a game is shown, and the launch cache that lets a game be
//! played offline.
use vstd::prelude::*;

use crate::config::{Auth, LaunchCache, Profile};
use crate::launch::LaunchAccount;
use crate::path::{
    file_name, join, law_join_adds_one_component, law_join_puts_one_separator, law_name_by_itself,
    law_plain_names, name_of, parent, parent_of, under,
};
use crate::product::{executable_of, first_executable, install_register, register_of};
use crate::text::{
    blank, is_blank, law_replaced_char, law_trimmed_text, lemma_texts_push, lower_ascii, opt_str,
    opt_text, replace, replaced, split_words, texts, to_lower_ascii, trimmed, words,
};

verus! {

// ---------------------------------------------------------------------------
// Who is playing
// ---------------------------------------------------------------------------

/// Some texts, where they are given.
pub open spec fn opt_texts(v: Seq<Option<String>>) -> Seq<Option<Seq<char>>> {
    Seq::new(v.len(), |i: int| opt_text(v[i]))
}

/// The first text from `i` on that is given and not blank.
pub open spec fn filled_from(opts: Seq<Option<Seq<char>>>, i: int) -> Option<Seq<char>>
    decreases opts.len() - i,
{
    if i < 0 || i >= opts.len() {
        None
    } else {
        match opts[i] {
            Some(t) => if is_blank(t) {
                filled_from(opts, i + 1)
            } else {
                Some(t)
            },
            None => filled_from(opts, i + 1),
        }
    }
}

/// The first text that is given and not blank.
pub fn first_nonempty(opts: &Vec<Option<String>>) -> (r: Option<String>)
    ensures
        opt_text(r) == filled_from(opt_texts(opts@), 0),
{
    let mut i: usize = 0;
    while i < opts.len()
        invariant
            i <= opts.len(),
            filled_from(opt_texts(opts@), 0) == filled_from(opt_texts(opts@), i as int),
        decreases opts.len() - i,
    {
        assert(opt_texts(opts@)[i as int] == opt_text(opts@[i as int]));
        if let Some(t) = &opts[i] {
            if !blank(t.as_str()) {
                return Some(t.clone());
            }
        }
        i += 1;
    }
    None
}

/// A letter or a digit of ASCII.
pub open spec fn is_alphanumeric(c: char) -> bool {
    ('0' <= c && c <= '9') || ('A' <= c && c <= 'Z') || ('a' <= c && c <= 'z')
}

/// The letters and digits of a name.
pub open spec fn alphanumerics(s: Seq<char>) -> Seq<char>
    decreases s.len(),
{
    if s.len() == 0 {
        seq![]
    } else if is_alphanumeric(s.last()) {
        alphanumerics(s.drop_last()).push(s.last())
    } else {
        alphanumerics(s.drop_last())
    }
}

/// What stands in front of an address that is made up for a name.
pub open spec fn handle(username: Seq<char>) -> Seq<char> {
    if alphanumerics(username).len() == 0 {
        "player"@
    } else {
        lower_ascii(alphanumerics(username))
    }
}

/// The address of a player: the one that is asked for, unless that is blank, and
/// else one that is made up from the name, which is never blank.
pub open spec fn email_for(username: Seq<char>, asked: Option<Seq<char>>) -> Seq<char> {
    match asked {
        Some(e) => if is_blank(e) {
            handle(username) + "@ubisoft.local"@
        } else {
            e
        },
        None => handle(username) + "@ubisoft.local"@,
    }
}

/// The letters and digits of a name.
fn keep_alphanumerics(s: &str) -> (r: String)
    ensures
        r@ == alphanumerics(s@),
{
    let mut r = String::new();
    for c in it: s.chars()
        invariant
            it.seq() == s@,
            r@ == alphanumerics(s@.take(it.index())),
    {
        proof {
            let k = it.index();
            assert(s@.take(k + 1).drop_last() == s@.take(k));
        }
        if ('0' <= c && c <= '9') || ('A' <= c && c <= 'Z') || ('a' <= c && c <= 'z') {
            r.push(c);
        }
    }
    assert(s@.take(s@.len() as int) == s@);
    r
}

/// The address of a player. `asked` is the one that the user asks for.
pub fn resolve_email(username: &str, asked: Option<&str>) -> (r: String)
    ensures
        r@ == email_for(username@, opt_str(asked)),
{
    if let Some(e) = asked {
        if !blank(e) {
            return e.to_owned();
        }
    }
    let kept = keep_alphanumerics(username);
    let mut r = if kept.as_str().is_empty() {
        "player".to_owned()
    } else {
        to_lower_ascii(kept.as_str())
    };
    r.append("@ubisoft.local");
    r
}

/// The address of a player is never blank.
pub proof fn law_email_is_never_blank(username: Seq<char>, asked: Option<Seq<char>>)
    ensures
        !is_blank(email_for(username, asked)),
{
    reveal_strlit("@ubisoft.local");
    let made = handle(username) + "@ubisoft.local"@;
    assert(made.last() == 'l');
    lemma_ends_in_text(made);
}

proof fn lemma_ends_in_text(s: Seq<char>)
    requires
        s.len() > 0,
        !crate::text::is_space(s.last()),
    ensures
        !is_blank(s),
    decreases s.len(),
{
    if crate::text::is_space(s[0]) {
        assert(s.len() > 1);
        assert(s.skip(1).last() == s.last());
        lemma_ends_in_text(s.skip(1));
    }
}

/// What the user asks for in place of what is stored.
#[derive(Debug)]
pub struct Overrides {
    pub username: Option<String>,
    pub email: Option<String>,
    pub password: Option<String>,
}

/// The text that a search gave, and another where it gave none.
pub open spec fn or_text(a: Option<Seq<char>>, b: Seq<char>) -> Seq<char> {
    match a {
        Some(t) => t,
        None => b,
    }
}

/// The name that a game is shown: what the user asks for, else the profile's, else
/// the account's.
pub open spec fn player_name(o: Overrides, profile: Profile, cache: LaunchCache) -> Seq<char> {
    or_text(
        filled_from(
            seq![opt_text(o.username), Some(profile.username@), Some(cache.username@)],
            0,
        ),
        "Optima"@,
    )
}

/// The address that a game is shown, in the same order, and else one that is made
/// up from the name.
pub open spec fn player_email(o: Overrides, profile: Profile, cache: LaunchCache) -> Seq<char> {
    or_text(
        filled_from(seq![opt_text(o.email), Some(profile.email@), Some(cache.email@)], 0),
        email_for(player_name(o, profile, cache), opt_text(o.email)),
    )
}

/// The password that a game is shown, in the same order, and else none.
pub open spec fn player_password(o: Overrides, profile: Profile) -> Seq<char> {
    or_text(filled_from(seq![opt_text(o.password), Some(profile.password@)], 0), seq![])
}

proof fn lemma_filled_is_filled(opts: Seq<Option<Seq<char>>>, i: int)
    requires
        0 <= i,
    ensures
        filled_from(opts, i) matches Some(t) ==> !is_blank(t),
    decreases opts.len() - i,
{
    if i < opts.len() {
        lemma_filled_is_filled(opts, i + 1);
    }
}

/// The account that a game is launched with.
pub fn launch_account(overrides: Overrides, profile: &Profile, cache: &LaunchCache) -> (r:
    LaunchAccount)
    ensures
        r.user_id@ == cache.user_id@,
        r.username@ == player_name(overrides, *profile, *cache),
        r.email@ == player_email(overrides, *profile, *cache),
        r.password@ == player_password(overrides, *profile),
        r.ticket@ == cache.ticket@,
        r.app_id == cache.app_id,
        r.language@ == cache.language@,
{
    let mut names: Vec<Option<String>> = Vec::new();
    names.push(overrides.username.clone());
    names.push(Some(profile.username.clone()));
    names.push(Some(cache.username.clone()));
    assert(opt_texts(names@) == seq![
        opt_text(overrides.username),
        Some(profile.username@),
        Some(cache.username@),
    ]);
    let username = match first_nonempty(&names) {
        Some(n) => n,
        None => "Optima".to_owned(),
    };
    let mut emails: Vec<Option<String>> = Vec::new();
    emails.push(overrides.email.clone());
    emails.push(Some(profile.email.clone()));
    emails.push(Some(cache.email.clone()));
    assert(opt_texts(emails@) == seq![
        opt_text(overrides.email),
        Some(profile.email@),
        Some(cache.email@),
    ]);
    let email = match first_nonempty(&emails) {
        Some(e) => e,
        None => match &overrides.email {
            Some(e) => resolve_email(username.as_str(), Some(e.as_str())),
            None => resolve_email(username.as_str(), None),
        },
    };
    let mut passwords: Vec<Option<String>> = Vec::new();
    passwords.push(overrides.password.clone());
    passwords.push(Some(profile.password.clone()));
    assert(opt_texts(passwords@) == seq![opt_text(overrides.password), Some(profile.password@)]);
    let password = match first_nonempty(&passwords) {
        Some(p) => p,
        None => String::new(),
    };
    LaunchAccount {
        user_id: cache.user_id.clone(),
        username,
        email,
        ticket: cache.ticket.clone(),
        password,
        app_id: cache.app_id,
        language: cache.language.clone(),
    }
}

/// A game is never shown a blank name or a blank address.
pub proof fn law_player_is_never_blank(o: Overrides, profile: Profile, cache: LaunchCache)
    ensures
        !is_blank(player_name(o, profile, cache)),
        !is_blank(player_email(o, profile, cache)),
{
    lemma_filled_is_filled(
        seq![opt_text(o.username), Some(profile.username@), Some(cache.username@)],
        0,
    );
    lemma_filled_is_filled(
        seq![opt_text(o.email), Some(profile.email@), Some(cache.email@)],
        0,
    );
    law_email_is_never_blank(player_name(o, profile, cache), opt_text(o.email));
    reveal_strlit("Optima");
    lemma_ends_in_text("Optima"@);
}

// ---------------------------------------------------------------------------
// The launch cache
// ---------------------------------------------------------------------------

/// The executable that a game is launched with: the one that is asked for, else
/// the one that its configuration names.
pub fn launch_exe(asked: Option<String>, config: &str) -> (r: Option<String>)
    ensures
        opt_text(r) == (match asked {
            Some(e) => Some(e@),
            None => executable_of(config@),
        }),
{
    match asked {
        Some(e) => Some(e),
        None => first_executable(config),
    }
}

/// What stands for the ticket of a game where the service gives none.
pub const PLACEHOLDER: &'static str = "OPTIMA";

/// The name that an account has, and another where it has none.
pub open spec fn account_name(auth: Auth) -> Seq<char> {
    if auth.name_on_platform@.len() == 0 {
        "Optima"@
    } else {
        auth.name_on_platform@
    }
}

/// What a game needs to know of its account, to be kept for offline launches.
/// `ticket` is what the service gave for the game, `asked_email` the address that
/// the user asks for, and `register` the game's own registry location.
pub fn launch_cache(
    product_id: u32,
    uplay_id: Option<u32>,
    name: String,
    exe_rel: String,
    auth: &Auth,
    ticket: Option<String>,
    asked_email: Option<&str>,
    register: Option<String>,
) -> (r: LaunchCache)
    ensures
        r.user_id@ == auth.profile_id@,
        r.username@ == account_name(*auth),
        r.email@ == email_for(account_name(*auth), opt_str(asked_email)),
        r.ticket@ == (match ticket {
            Some(t) => t@,
            None => PLACEHOLDER@,
        }),
        r.app_id == (match uplay_id {
            Some(u) => if u > product_id {
                u
            } else {
                product_id
            },
            None => product_id,
        }),
        r.language@ == "en-US"@,
        r.exe_rel == exe_rel,
        r.name == name,
        r.install_reg@ == or_text(opt_text(register), seq![]),
{
    let username = if auth.name_on_platform.as_str().is_empty() {
        "Optima".to_owned()
    } else {
        auth.name_on_platform.clone()
    };
    let email = resolve_email(username.as_str(), asked_email);
    let app_id: u32 = match uplay_id {
        Some(u) => {
            if u > product_id {
                u
            } else {
                product_id
            }
        },
        None => product_id,
    };
    LaunchCache {
        user_id: auth.profile_id.clone(),
        username,
        email,
        ticket: match ticket {
            Some(t) => t,
            None => PLACEHOLDER.to_owned(),
        },
        app_id,
        language: "en-US".to_owned(),
        exe_rel,
        name,
        install_reg: match register {
            Some(s) => s,
            None => String::new(),
        },
    }
}

/// The account that a game is launched with: the one that was just resolved, else
/// the one that was kept. A game that was never launched online has none.
pub fn chosen_cache(online: Option<LaunchCache>, kept: Option<LaunchCache>) -> (r: Option<
    LaunchCache,
>)
    ensures
        r == (match online {
            Some(c) => Some(c),
            None => kept,
        }),
{
    match online {
        Some(c) => Some(c),
        None => kept,
    }
}

/// What comes next on the way to the account that a game is launched with.
#[derive(Clone, Copy, Debug, PartialEq, Eq, Structural)]
pub enum AccountStep {
    /// Ask the services for it.
    Resolve,
    /// Take the one that the services gave.
    UseResolved,
    /// Read the one that was kept.
    LoadKept,
}

/// What comes next, where `offline` says whether only what was kept is asked for,
/// and `resolved` whether the services gave an account, once they were asked.
pub fn account_step(offline: bool, resolved: Option<bool>) -> (r: AccountStep)
    ensures
        r == (if offline {
            AccountStep::LoadKept
        } else {
            match resolved {
                None => AccountStep::Resolve,
                Some(true) => AccountStep::UseResolved,
                Some(false) => AccountStep::LoadKept,
            }
        }),
{
    if offline {
        return AccountStep::LoadKept;
    }
    match resolved {
        None => AccountStep::Resolve,
        Some(ok) => {
            if ok {
                AccountStep::UseResolved
            } else {
                AccountStep::LoadKept
            }
        },
    }
}

/// The executable that is launched, by its relative path: the one that is asked for,
/// else the one in the launch cache.
pub fn launch_rel(exe: Option<String>, cache: &LaunchCache) -> (r: String)
    ensures
        r@ == (match exe {
            Some(e) => e@,
            None => cache.exe_rel@,
        }),
{
    match exe {
        Some(e) => e,
        None => cache.exe_rel.clone(),
    }
}

/// Whether the service is asked for a ticket for a game: where the game has an id
/// there.
pub fn asks_for_ticket(uplay_id: Option<u32>) -> (r: bool)
    ensures
        r == (uplay_id matches Some(u) && u != 0),
{
    match uplay_id {
        Some(u) => u != 0,
        None => false,
    }
}

/// The game's own registry location in a launch cache, where it is known.
pub fn cached_register(cache: &LaunchCache) -> (r: Option<String>)
    ensures
        match r {
            Some(s) => cache.install_reg@.len() > 0 && s@ == cache.install_reg@,
            None => cache.install_reg@.len() == 0,
        },
{
    if cache.install_reg.as_str().is_empty() {
        None
    } else {
        Some(cache.install_reg.clone())
    }
}

/// The game's own registry location: what its configuration names, else what the
/// launch cache has kept.
pub fn known_register(config: Option<&str>, cached: Option<&LaunchCache>) -> (r: Option<String>)
    ensures
        opt_text(r) == (match (config_register(opt_str(config)), cached) {
            (Some(s), _) => Some(s),
            (None, Some(c)) => if c.install_reg@.len() > 0 {
                Some(c.install_reg@)
            } else {
                None
            },
            (None, None) => None,
        }),
{
    if let Some(c) = config {
        let s = install_register(c);
        if s.is_some() {
            return s;
        }
    }
    match cached {
        Some(c) => cached_register(c),
        None => None,
    }
}

/// The registry location that a configuration names, where there is one.
pub open spec fn config_register(config: Option<Seq<char>>) -> Option<Seq<char>> {
    match config {
        Some(c) => register_of(c),
        None => None,
    }
}

// ---------------------------------------------------------------------------
// The executable on disk
// ---------------------------------------------------------------------------

/// Where an executable is expected.
pub open spec fn exe_place(dir: Seq<char>, rel: Seq<char>) -> Seq<char> {
    under(dir, replaced(rel, "\\"@, "/"@))
}

/// Where an executable is expected: its relative path has the separators of
/// Windows.
pub fn exe_path(dir: &str, rel: &str) -> (r: String)
    ensures
        r@ == exe_place(dir@, rel@),
{
    proof {
        reveal_strlit("\\");
    }
    join(dir, replace(rel, "\\", "/").as_str())
}

/// The name of the executable at a relative path, which has the separators of Windows.
pub open spec fn base_of(rel: Seq<char>) -> Option<Seq<char>> {
    name_of(replaced(rel, "\\"@, "/"@))
}

/// The name of the executable at a relative path.
pub fn base_name(rel: &str) -> (r: Option<String>)
    ensures
        opt_text(r) == base_of(rel@),
{
    proof {
        reveal_strlit("\\");
    }
    file_name(replace(rel, "\\", "/").as_str())
}

/// The name that an executable is searched by where it is not in its place.
pub fn exe_base(rel: &str) -> (r: String)
    ensures
        r@ == or_text(base_of(rel@), seq![]),
{
    match base_name(rel) {
        Some(n) => n,
        None => String::new(),
    }
}

/// The directory of an executable, which its configuration is written to.
pub fn exe_dir(exe: &str, dir: &str) -> (r: String)
    ensures
        r@ == or_text(parent_of(exe@), dir@),
{
    match parent(exe) {
        Some(p) => p,
        None => dir.to_owned(),
    }
}

/// What a game is started with: the words that are asked for, else the switch for
/// offline play where that is, and else nothing.
pub fn launch_args(asked: Option<&str>, offline_arg: bool) -> (r: Vec<String>)
    ensures
        texts(r@) == (match asked {
            Some(a) => words(a@),
            None => if offline_arg {
                seq!["-offline"@]
            } else {
                seq![]
            },
        }),
{
    broadcast use lemma_texts_push;

    match asked {
        Some(a) => split_words(a),
        None => {
            let mut r: Vec<String> = Vec::new();
            assert(texts(r@) == Seq::<Seq<char>>::empty());
            if offline_arg {
                r.push("-offline".to_owned());
                assert(texts(r@) == seq!["-offline"@]);
            }
            r
        },
    }
}

// ---------------------------------------------------------------------------
// Which of the known names is taken
// ---------------------------------------------------------------------------

/// Of some texts the first that is given and not blank is taken.
pub proof fn law_first_filled_is_taken(opts: Seq<Option<Seq<char>>>, k: int)
    requires
        0 <= k <= opts.len(),
        forall|j: int|
            0 <= j < k ==> ((#[trigger] opts[j]) matches Some(t) ==> trimmed(t).len() == 0),
        k < opts.len() ==> (opts[k] matches Some(t) && trimmed(t).len() > 0),
    ensures
        k < opts.len() ==> filled_from(opts, 0) == opts[k],
        k == opts.len() ==> filled_from(opts, 0) is None,
{
    lemma_filled_later(opts, 0, k);
}

proof fn lemma_filled_later(opts: Seq<Option<Seq<char>>>, i: int, k: int)
    requires
        0 <= i <= k <= opts.len(),
        forall|j: int| i <= j < k ==> ((#[trigger] opts[j]) matches Some(t) ==> is_blank(t)),
    ensures
        filled_from(opts, i) == filled_from(opts, k),
    decreases k - i,
{
    if i < k {
        assert(opts[i] matches Some(t) ==> is_blank(t));
        lemma_filled_later(opts, i + 1, k);
    }
}

/// The player goes by the name that was asked for, else by that of the profile, else by
/// that of the cache, each where it is not blank, and else by a name of the program's.
pub proof fn law_player_goes_by_the_first_name(o: Overrides, profile: Profile, cache: LaunchCache)
    ensures
        (o.username matches Some(u) && trimmed(u@).len() > 0) ==> (o.username matches Some(u)
            && player_name(o, profile, cache) == u@),
        (o.username matches Some(u) ==> trimmed(u@).len() == 0) && trimmed(profile.username@).len()
            > 0 ==> player_name(o, profile, cache) == profile.username@,
        (o.username matches Some(u) ==> trimmed(u@).len() == 0) && trimmed(profile.username@).len()
            == 0 && trimmed(cache.username@).len() > 0 ==> player_name(o, profile, cache)
            == cache.username@,
        (o.username matches Some(u) ==> trimmed(u@).len() == 0) && trimmed(profile.username@).len()
            == 0 && trimmed(cache.username@).len() == 0 ==> player_name(o, profile, cache)
            == "Optima"@,
{
    let l = seq![opt_text(o.username), Some(profile.username@), Some(cache.username@)];
    assert(l[0] == opt_text(o.username));
    assert(l[1] == Some(profile.username@));
    assert(l[2] == Some(cache.username@));
    if o.username matches Some(u) && trimmed(u@).len() > 0 {
        law_first_filled_is_taken(l, 0);
    } else if trimmed(profile.username@).len() > 0 {
        law_first_filled_is_taken(l, 1);
    } else if trimmed(cache.username@).len() > 0 {
        law_first_filled_is_taken(l, 2);
    } else {
        law_first_filled_is_taken(l, 3);
    }
}

/// The player's address is the one that was asked for, else that of the profile, else
/// that of the cache, each where it is not blank, and else one made of the player's name.
pub proof fn law_player_writes_from_the_first_address(
    o: Overrides,
    profile: Profile,
    cache: LaunchCache,
)
    ensures
        (o.email matches Some(e) && trimmed(e@).len() > 0) ==> (o.email matches Some(e)
            && player_email(o, profile, cache) == e@),
        (o.email matches Some(e) ==> trimmed(e@).len() == 0) && trimmed(profile.email@).len() > 0
            ==> player_email(o, profile, cache) == profile.email@,
        (o.email matches Some(e) ==> trimmed(e@).len() == 0) && trimmed(profile.email@).len() == 0
            && trimmed(cache.email@).len() > 0 ==> player_email(o, profile, cache) == cache.email@,
        (o.email matches Some(e) ==> trimmed(e@).len() == 0) && trimmed(profile.email@).len() == 0
            && trimmed(cache.email@).len() == 0 ==> player_email(o, profile, cache) == handle(
            player_name(o, profile, cache),
        ) + "@ubisoft.local"@,
{
    let l = seq![opt_text(o.email), Some(profile.email@), Some(cache.email@)];
    assert(l[0] == opt_text(o.email));
    assert(l[1] == Some(profile.email@));
    assert(l[2] == Some(cache.email@));
    if o.email matches Some(e) && trimmed(e@).len() > 0 {
        law_first_filled_is_taken(l, 0);
    } else if trimmed(profile.email@).len() > 0 {
        law_first_filled_is_taken(l, 1);
    } else if trimmed(cache.email@).len() > 0 {
        law_first_filled_is_taken(l, 2);
    } else {
        law_first_filled_is_taken(l, 3);
    }
}

/// The player's password is the one that was asked for, else that of the profile, each
/// where it is not blank, and else there is none.
pub proof fn law_player_has_the_first_password(o: Overrides, profile: Profile)
    ensures
        (o.password matches Some(p) && trimmed(p@).len() > 0) ==> (o.password matches Some(p)
            && player_password(o, profile) == p@),
        (o.password matches Some(p) ==> trimmed(p@).len() == 0) && trimmed(profile.password@).len()
            > 0 ==> player_password(o, profile) == profile.password@,
        (o.password matches Some(p) ==> trimmed(p@).len() == 0) && trimmed(profile.password@).len()
            == 0 ==> player_password(o, profile).len() == 0,
{
    let l = seq![opt_text(o.password), Some(profile.password@)];
    assert(l[0] == opt_text(o.password));
    assert(l[1] == Some(profile.password@));
    if o.password matches Some(p) && trimmed(p@).len() > 0 {
        law_first_filled_is_taken(l, 0);
    } else if trimmed(profile.password@).len() > 0 {
        law_first_filled_is_taken(l, 1);
    } else {
        law_first_filled_is_taken(l, 2);
    }
}

proof fn lemma_alphanumerics(s: Seq<char>)
    ensures
        alphanumerics(s) == s.filter(
            |c: char|
                ('0' <= c && c <= '9') || ('A' <= c && c <= 'Z') || ('a' <= c && c <= 'z'),
        ),
    decreases s.len(),
{
    reveal(Seq::filter);
    if s.len() > 0 {
        lemma_alphanumerics(s.drop_last());
    }
}

/// An address that is made up has the letters and digits of the name before the at sign,
/// in lower case, and a word of its own where the name has none.
pub proof fn law_address_is_made_of_the_name(username: Seq<char>, asked: Option<Seq<char>>)
    ensures
        username.filter(
            |c: char|
                ('0' <= c && c <= '9') || ('A' <= c && c <= 'Z') || ('a' <= c && c <= 'z'),
        ).len() > 0 ==> handle(username) == lower_ascii(
            username.filter(
                |c: char|
                    ('0' <= c && c <= '9') || ('A' <= c && c <= 'Z') || ('a' <= c && c <= 'z'),
            ),
        ),
        username.filter(
            |c: char|
                ('0' <= c && c <= '9') || ('A' <= c && c <= 'Z') || ('a' <= c && c <= 'z'),
        ).len() == 0 ==> handle(username) == "player"@,
        (asked matches Some(e) ==> trimmed(e).len() == 0) ==> email_for(username, asked) == handle(
            username,
        ) + "@ubisoft.local"@,
        (asked matches Some(e) && trimmed(e).len() > 0) ==> Some(email_for(username, asked))
            == asked,
{
    lemma_alphanumerics(username);
}

/// The account's name is shown as it is where there is one.
pub proof fn law_account_goes_by_its_name(auth: Auth)
    ensures
        auth.name_on_platform@.len() > 0 ==> account_name(auth) == auth.name_on_platform@,
        auth.name_on_platform@.len() == 0 ==> account_name(auth) == "Optima"@,
{
}

/// An executable that is named with backslashes is looked for below the directory, part
/// by part, and its name is what stands behind the last of them.
pub proof fn law_executable_is_below_the_directory(dir: Seq<char>, a: Seq<char>, b: Seq<char>)
    requires
        dir.len() > 0 && dir.last() != '/',
        a.len() > 0 && a[0] != '/' && a[0] != '\\' && a.last() != '/' && a.last() != '\\',
        b.len() > 0 && b != seq!['.'] && b != seq!['.', '.'],
        !b.contains('/') && !b.contains('\\') && !a.contains('\\'),
    ensures
        exe_place(dir, a + seq!['\\'] + b) == dir + seq!['/'] + (a + seq!['/'] + b),
        exe_place(dir, b) == dir + seq!['/'] + b,
        base_of(a + seq!['\\'] + b) == Some(b),
        base_of(b) == Some(b),
{
    reveal_strlit("\\");
    reveal_strlit("/");
    assert("\\"@ =~= seq!['\\']);
    assert("/"@ =~= seq!['/']);
    assert forall|i: int| 0 <= i < b.len() implies #[trigger] b[i] != '/' && b[i] != '\\' by {
        assert(b.contains(b[i]));
    }
    assert forall|i: int| 0 <= i < a.len() implies #[trigger] a[i] != '\\' by {
        assert(a.contains(a[i]));
    }
    let rel = a + seq!['\\'] + b;
    let moved = a + seq!['/'] + b;
    law_replaced_char(rel, '\\', '/');
    law_replaced_char(b, '\\', '/');
    assert(replaced(rel, "\\"@, "/"@) =~= moved);
    assert(replaced(b, "\\"@, "/"@) =~= b);
    law_join_puts_one_separator(dir, moved);
    law_join_puts_one_separator(dir, b);
    law_plain_names(b);
    law_join_puts_one_separator(a, b);
    law_join_adds_one_component(a, b);
    law_name_by_itself(b);
}

/// What is kept for a launch is the account's: its number and name, the ticket where there
/// is one, and of the product's two numbers the larger.
pub proof fn law_cache_keeps_the_account(
    product_id: u32,
    uplay_id: Option<u32>,
    name: String,
    exe_rel: String,
    auth: &Auth,
    ticket: Option<String>,
    asked_email: Option<&str>,
    register: Option<String>,
    r: LaunchCache,
)
    requires
        call_ensures(
            launch_cache,
            (product_id, uplay_id, name, exe_rel, auth, ticket, asked_email, register),
            r,
        ),
    ensures
        r.user_id@ == auth.profile_id@,
        auth.name_on_platform@.len() > 0 ==> r.username@ == auth.name_on_platform@,
        ticket matches Some(t) ==> r.ticket@ == t@,
        ticket is None ==> r.ticket@ == "OPTIMA"@,
        r.app_id >= product_id,
        uplay_id matches Some(u) ==> r.app_id >= u,
        r.app_id == product_id || Some(r.app_id) == uplay_id,
        r.exe_rel@ == exe_rel@,
        r.name@ == name@,
        register matches Some(s) ==> r.install_reg@ == s@,
{
}

/// A game that is launched from what was kept, with no wishes and no profile, is shown the
/// account that it was kept for.
pub proof fn law_kept_account_is_presented(
    o: Overrides,
    profile: &Profile,
    cache: &LaunchCache,
    r: LaunchAccount,
)
    requires
        call_ensures(launch_account, (o, profile, cache), r),
        o.username is None && o.email is None && o.password is None,
        profile.username@.len() == 0 && profile.email@.len() == 0 && profile.password@.len() == 0,
        trimmed(cache.username@).len() > 0 && trimmed(cache.email@).len() > 0,
    ensures
        r.username@ == cache.username@,
        r.email@ == cache.email@,
        r.password@.len() == 0,
        r.user_id@ == cache.user_id@ && r.ticket@ == cache.ticket@ && r.app_id == cache.app_id
            && r.language@ == cache.language@,
{
    let none = Seq::<char>::empty();
    law_trimmed_text(none, none, none);
    assert(none + none + none =~= none);
    assert(profile.username@ =~= none && profile.email@ =~= none && profile.password@ =~= none);
    law_player_goes_by_the_first_name(o, *profile, *cache);
    law_player_writes_from_the_first_address(o, *profile, *cache);
    law_player_has_the_first_password(o, *profile);
}

/// Offline nothing is asked of the services; online they are asked first, and what was
/// kept is read only where they gave nothing.
pub proof fn law_services_are_asked_first(
    offline: bool,
    a: AccountStep,
    b: AccountStep,
    c: AccountStep,
)
    requires
        call_ensures(account_step, (offline, None), a),
        call_ensures(account_step, (offline, Some(true)), b),
        call_ensures(account_step, (offline, Some(false)), c),
    ensures
        offline ==> a == AccountStep::LoadKept && b == AccountStep::LoadKept && c
            == AccountStep::LoadKept,
        !offline ==> a == AccountStep::Resolve && b == AccountStep::UseResolved && c
            == AccountStep::LoadKept,
{
}

/// The executable and the arguments that are asked for are taken, word by word; else the
/// executable is the one that was kept, and the only argument that of an offline game.
pub proof fn law_wishes_are_followed(
    exe: Option<String>,
    cache: &LaunchCache,
    rel: String,
    asked: Option<&str>,
    offline_arg: bool,
    args: Vec<String>,
)
    requires
        call_ensures(launch_rel, (exe, cache), rel),
        call_ensures(launch_args, (asked, offline_arg), args),
    ensures
        exe matches Some(e) ==> rel@ == e@,
        exe is None ==> rel@ == cache.exe_rel@,
        asked matches Some(a) ==> texts(args@) == words(a@),
        asked is None && offline_arg ==> texts(args@) == seq!["-offline"@],
        asked is None && !offline_arg ==> args@.len() == 0,
{
    if asked is None && !offline_arg {
        assert(texts(args@).len() == args@.len());
    }
}

/// The location of an install path is the one that the configuration names, and else the
/// one that was kept, where it is not empty.
pub proof fn law_location_of_the_configuration_comes_first(
    config: &str,
    cache: &LaunchCache,
    r: Option<String>,
    s: Option<String>,
)
    requires
        call_ensures(known_register, (Some(config), Some(cache)), r),
        call_ensures(known_register, (None, Some(cache)), s),
    ensures
        register_of(config@) matches Some(reg) ==> (r matches Some(x) && x@ == reg),
        register_of(config@) is None ==> opt_text(r) == opt_text(s),
        cache.install_reg@.len() > 0 ==> (s matches Some(x) && x@ == cache.install_reg@),
        cache.install_reg@.len() == 0 ==> s is None,
{
}

} // verus!
