//! The state that is kept between runs: the session, the launch cache of each
//! product and the player profile, and where each of them is stored.
use vstd::prelude::*;

use crate::path::{join, law_join_puts_one_separator, law_join_tells_paths_apart, under};
use crate::text::{
    blank, decimal, decimal_of, is_blank, law_decimals_differ, lemma_decimal_value, opt_text,
    trimmed,
};

verus! {

/// A point in time: whole seconds since the start of 1970 in UTC, and the
/// nanoseconds on top of them.
#[derive(Clone, Copy, Debug, PartialEq, Eq, Structural)]
pub struct Instant {
    pub seconds: i64,
    pub nanos: u32,
}

impl Instant {
    /// `self` is not later than `other`.
    pub open spec fn not_after(self, other: Instant) -> bool {
        self.seconds < other.seconds || (self.seconds == other.seconds && self.nanos
            <= other.nanos)
    }

    /// A time that the clock can show: the start of 1970 or later.
    pub open spec fn is_clock_time(self) -> bool {
        self.seconds >= 0 && self.nanos < 1_000_000_000
    }
}

/// The point in time that an RFC 3339 text denotes.
pub uninterp spec fn rfc3339_instant(s: Seq<char>) -> Option<Instant>;

/// `chrono::DateTime::parse_from_rfc3339`, with the parsed time as seconds and
/// nanoseconds of UTC. The result is named.
#[verifier::external_body]
fn parse_rfc3339(s: &str) -> (r: Option<Instant>)
    ensures
        r == rfc3339_instant(s@),
{
    match chrono::DateTime::parse_from_rfc3339(s) {
        Ok(t) => Some(Instant { seconds: t.timestamp(), nanos: t.timestamp_subsec_nanos() }),
        Err(_) => None,
    }
}

/// `chrono::Utc::now`: a time that is not before the start of 1970. A clock that
/// is set to an earlier time makes it panic. Nothing else is claimed of the time.
#[verifier::external_body]
fn utc_now() -> (r: Instant)
    ensures
        r.is_clock_time(),
{
    let t = chrono::Utc::now();
    Instant { seconds: t.timestamp(), nanos: t.timestamp_subsec_nanos() }
}

/// What UbiServices hands back on login. `ticket` authorizes later calls,
/// `remember_me_ticket` renews it without a password.
#[derive(Debug)]
pub struct Auth {
    pub ticket: String,
    pub session_id: String,
    pub session_key: String,
    pub profile_id: String,
    pub user_id: String,
    pub name_on_platform: String,
    pub expiration: String,
    pub remember_me_ticket: String,
}

/// Whether a session with this expiration text is over at `now`, where `expiry`
/// is what the text denotes. A blank text, and one that denotes no time, mean
/// that the expiry is unknown, and then the session is not over.
pub open spec fn is_over(expiration: Seq<char>, expiry: Option<Instant>, now: Instant) -> bool {
    !is_blank(expiration) && (expiry matches Some(e) && e.not_after(now))
}

/// Whether a session is over at `now`, given what its expiration text denotes.
pub fn session_over(expiration: &str, expiry: Option<Instant>, now: Instant) -> (r: bool)
    ensures
        r == is_over(expiration@, expiry, now),
{
    if blank(expiration) {
        return false;
    }
    match expiry {
        Some(e) => e.seconds < now.seconds || (e.seconds == now.seconds && e.nanos <= now.nanos),
        None => false,
    }
}

impl Auth {
    /// Whether the stored expiration is known and not later than `now`.
    pub fn is_expired_at(&self, now: Instant) -> (r: bool)
        ensures
            r == is_over(self.expiration@, rfc3339_instant(self.expiration@), now),
    {
        session_over(self.expiration.as_str(), parse_rfc3339(self.expiration.as_str()), now)
    }

    /// Whether the stored expiration is known and in the past. A known one is held
    /// against the time that the clock shows. An unknown expiration never counts as
    /// expired, and one that is over at the start of 1970 always does, whatever the
    /// clock shows.
    pub fn is_expired(&self) -> (r: bool)
        ensures
            exists|now: Instant|
                now.is_clock_time() && r == #[trigger] is_over(
                    self.expiration@,
                    rfc3339_instant(self.expiration@),
                    now,
                ),
            is_blank(self.expiration@) ==> !r,
            rfc3339_instant(self.expiration@) is None ==> !r,
            is_over(
                self.expiration@,
                rfc3339_instant(self.expiration@),
                (Instant { seconds: 0, nanos: 0 }),
            ) ==> r,
    {
        self.is_expired_at(utc_now())
    }

    /// A session that consists of a captured ticket alone.
    pub fn of_ticket(ticket: &str) -> (r: Auth)
        ensures
            r.ticket@ == ticket@,
            r.is_bare(),
            r.session_id@.len() == 0,
    {
        let mut auth = Auth::default();
        auth.ticket = ticket.to_owned();
        auth
    }

    /// Nothing is known but the ticket and the session id.
    pub open spec fn is_bare(self) -> bool {
        &&& self.session_key@.len() == 0
        &&& self.profile_id@.len() == 0
        &&& self.user_id@.len() == 0
        &&& self.name_on_platform@.len() == 0
        &&& self.expiration@.len() == 0
        &&& self.remember_me_ticket@.len() == 0
    }
}

impl Default for Auth {
    fn default() -> (r: Auth)
        ensures
            r.is_bare(),
            r.ticket@.len() == 0,
            r.session_id@.len() == 0,
    {
        Auth {
            ticket: String::new(),
            session_id: String::new(),
            session_key: String::new(),
            profile_id: String::new(),
            user_id: String::new(),
            name_on_platform: String::new(),
            expiration: String::new(),
            remember_me_ticket: String::new(),
        }
    }
}

impl Clone for Auth {
    fn clone(&self) -> (r: Auth)
        ensures
            r == *self,
    {
        Auth {
            ticket: self.ticket.clone(),
            session_id: self.session_id.clone(),
            session_key: self.session_key.clone(),
            profile_id: self.profile_id.clone(),
            user_id: self.user_id.clone(),
            name_on_platform: self.name_on_platform.clone(),
            expiration: self.expiration.clone(),
            remember_me_ticket: self.remember_me_ticket.clone(),
        }
    }
}

/// Everything that a launch of one product needs, so that an owned game starts
/// without the network. `exe_rel` is relative to the install directory;
/// `install_reg` is the registry location of the install path, empty if unknown.
#[derive(Debug)]
pub struct LaunchCache {
    pub user_id: String,
    pub username: String,
    pub email: String,
    pub ticket: String,
    pub app_id: u32,
    pub language: String,
    pub exe_rel: String,
    pub name: String,
    pub install_reg: String,
}

impl Default for LaunchCache {
    fn default() -> (r: LaunchCache)
        ensures
            r.user_id@.len() == 0,
            r.username@.len() == 0,
            r.email@.len() == 0,
            r.ticket@.len() == 0,
            r.app_id == 0,
            r.language@.len() == 0,
            r.exe_rel@.len() == 0,
            r.name@.len() == 0,
            r.install_reg@.len() == 0,
    {
        LaunchCache {
            user_id: String::new(),
            username: String::new(),
            email: String::new(),
            ticket: String::new(),
            app_id: 0,
            language: String::new(),
            exe_rel: String::new(),
            name: String::new(),
            install_reg: String::new(),
        }
    }
}

/// The identity that is presented to games. The player supplies it once.
#[derive(Debug)]
pub struct Profile {
    pub email: String,
    pub username: String,
    pub password: String,
}

impl Default for Profile {
    fn default() -> (r: Profile)
        ensures
            r.email@.len() == 0,
            r.username@.len() == 0,
            r.password@.len() == 0,
    {
        Profile { email: String::new(), username: String::new(), password: String::new() }
    }
}

/// A field after an update: the new text where there is one.
pub open spec fn updated(old_text: Seq<char>, new_text: Option<Seq<char>>) -> Seq<char> {
    match new_text {
        Some(t) => t,
        None => old_text,
    }
}

impl Profile {
    /// Sets the fields that are given and says whether any was.
    pub fn update(
        &mut self,
        email: Option<String>,
        username: Option<String>,
        password: Option<String>,
    ) -> (changed: bool)
        ensures
            final(self).email@ == updated(old(self).email@, opt_text(email)),
            final(self).username@ == updated(old(self).username@, opt_text(username)),
            final(self).password@ == updated(old(self).password@, opt_text(password)),
            changed == (email is Some || username is Some || password is Some),
    {
        let mut changed = false;
        if let Some(e) = email {
            self.email = e;
            changed = true;
        }
        if let Some(u) = username {
            self.username = u;
            changed = true;
        }
        if let Some(p) = password {
            self.password = p;
            changed = true;
        }
        changed
    }

    /// The lines that describe the profile; the password is never shown.
    pub fn describe(&self) -> (r: Vec<String>)
        ensures
            crate::text::texts(r@) == seq![
                "Uplay player profile (fed to each game's Uplay.toml):"@,
                "  email:    "@ + shown_or(self.email@, "(unset — synthesized at launch)"@),
                "  username: "@ + shown_or(
                    self.username@,
                    "(unset — uses Ubisoft display name)"@,
                ),
                "  password: "@ + (if self.password@.len() == 0 {
                    "(unset)"@
                } else {
                    "********"@
                }),
            ],
    {
        let mut r: Vec<String> = Vec::new();
        r.push("Uplay player profile (fed to each game's Uplay.toml):".to_owned());
        let mut email = "  email:    ".to_owned();
        email.append(or_hint(self.email.as_str(), "(unset — synthesized at launch)"));
        r.push(email);
        let mut username = "  username: ".to_owned();
        username.append(or_hint(self.username.as_str(), "(unset — uses Ubisoft display name)"));
        r.push(username);
        let mut password = "  password: ".to_owned();
        if self.password.as_str().is_empty() {
            password.append("(unset)");
        } else {
            password.append("********");
        }
        r.push(password);
        assert(crate::text::texts(r@) =~= seq![
            r@[0]@,
            r@[1]@,
            r@[2]@,
            r@[3]@,
        ]);
        r
    }
}

/// A text, or a hint in its place where it is empty.
pub open spec fn shown_or(t: Seq<char>, hint: Seq<char>) -> Seq<char> {
    if t.len() == 0 {
        hint
    } else {
        t
    }
}

/// `t`, or `hint` if `t` is empty.
pub fn or_hint<'a>(t: &'a str, hint: &'a str) -> (r: &'a str)
    ensures
        r@ == shown_or(t@, hint@),
{
    if t.is_empty() {
        hint
    } else {
        t
    }
}

/// Where the session is stored.
pub fn auth_path(data_dir: &str) -> (r: String)
    ensures
        r@ == under(data_dir@, "auth.toml"@),
{
    join(data_dir, "auth.toml")
}

/// Where the player profile is stored.
pub fn profile_path(data_dir: &str) -> (r: String)
    ensures
        r@ == under(data_dir@, "profile.toml"@),
{
    join(data_dir, "profile.toml")
}

/// The directory of the launch caches.
pub fn launch_cache_dir(data_dir: &str) -> (r: String)
    ensures
        r@ == under(data_dir@, "launch_cache"@),
{
    join(data_dir, "launch_cache")
}

/// Where the launch cache of a product is stored.
pub fn launch_cache_path(data_dir: &str, product_id: u32) -> (r: String)
    ensures
        r@ == under(
            under(data_dir@, "launch_cache"@),
            decimal(product_id as nat) + ".toml"@,
        ),
{
    let mut name = decimal_of(product_id as u64);
    name.append(".toml");
    join(launch_cache_dir(data_dir).as_str(), name.as_str())
}

/// Each product has a launch cache of its own.
pub proof fn law_products_have_their_own_cache(data_dir: Seq<char>, a: u32, b: u32)
    ensures
        under(under(data_dir, "launch_cache"@), decimal(a as nat) + ".toml"@) == under(
            under(data_dir, "launch_cache"@),
            decimal(b as nat) + ".toml"@,
        ) <==> a == b,
{
    let x = decimal(a as nat);
    let y = decimal(b as nat);
    lemma_decimal_value(a as nat);
    lemma_decimal_value(b as nat);
    let t = ".toml"@;
    assert((x + t)[0] == x[0] && (y + t)[0] == y[0]);
    law_join_tells_paths_apart(under(data_dir, "launch_cache"@), x + t, y + t);
    if x + t == y + t {
        assert((x + t).take(x.len() as int) =~= x);
        assert((y + t).take(y.len() as int) =~= y);
        assert((x + t).len() == (y + t).len());
    }
    law_decimals_differ(a as nat, b as nat);
}

/// A session is over from the instant on that it names, to the nanosecond, and not
/// before; one that names no instant is never over.
pub proof fn law_session_is_over_at_its_instant(expiration: Seq<char>, e: Instant, now: Instant)
    requires
        trimmed(expiration).len() > 0,
    ensures
        is_over(expiration, Some(e), e),
        now.seconds > e.seconds ==> is_over(expiration, Some(e), now),
        now.seconds == e.seconds && now.nanos > e.nanos ==> is_over(expiration, Some(e), now),
        now.seconds == e.seconds && now.nanos < e.nanos ==> !is_over(expiration, Some(e), now),
        now.seconds < e.seconds ==> !is_over(expiration, Some(e), now),
        !is_over(expiration, None, now),
{
}

/// A session whose end was left blank is never over.
pub proof fn law_session_without_an_end(expiration: Seq<char>, e: Option<Instant>, now: Instant)
    requires
        trimmed(expiration).len() == 0,
    ensures
        !is_over(expiration, e, now),
{
}

/// What is given anew replaces what was kept, an empty text too; what is not given stays.
pub proof fn law_given_text_replaces_the_kept(kept: Seq<char>, given: Seq<char>, hint: Seq<char>)
    ensures
        updated(kept, Some(given)) == given,
        updated(kept, None) == kept,
        kept.len() > 0 ==> shown_or(kept, hint) == kept,
        kept.len() == 0 ==> shown_or(kept, hint) == hint,
{
}

/// A session that is made of a ticket alone holds it and nothing else.
pub proof fn law_ticket_alone_makes_a_session(ticket: &str, r: Auth)
    requires
        call_ensures(Auth::of_ticket, (ticket,), r),
    ensures
        r.ticket@ == ticket@,
        r.session_id@.len() == 0 && r.session_key@.len() == 0 && r.profile_id@.len() == 0
            && r.user_id@.len() == 0 && r.name_on_platform@.len() == 0 && r.expiration@.len() == 0
            && r.remember_me_ticket@.len() == 0,
{
}

/// What is kept between runs is kept apart: the session, the profile, and below a
/// directory of their own the caches, each by its product's number.
pub proof fn law_what_is_kept_is_kept_apart(
    dir: &str,
    id: u32,
    a: String,
    p: String,
    c: String,
    d: String,
)
    requires
        dir@.len() > 0 && dir@.last() != '/',
        call_ensures(auth_path, (dir,), a),
        call_ensures(profile_path, (dir,), p),
        call_ensures(launch_cache_dir, (dir,), d),
        call_ensures(launch_cache_path, (dir, id), c),
    ensures
        a@ == dir@ + seq!['/'] + "auth.toml"@,
        p@ == dir@ + seq!['/'] + "profile.toml"@,
        d@ == dir@ + seq!['/'] + "launch_cache"@,
        c@ == d@ + seq!['/'] + (decimal(id as nat) + ".toml"@),
{
    reveal_strlit("auth.toml");
    reveal_strlit("profile.toml");
    reveal_strlit("launch_cache");
    law_join_puts_one_separator(dir@, "auth.toml"@);
    law_join_puts_one_separator(dir@, "profile.toml"@);
    law_join_puts_one_separator(dir@, "launch_cache"@);
    let n = decimal(id as nat) + ".toml"@;
    lemma_decimal_value(id as nat);
    assert(n[0] == decimal(id as nat)[0]);
    law_join_puts_one_separator(d@, n);
}

} // verus!
