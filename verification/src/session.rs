//! What the commands that deal with the session decide and print.
use vstd::prelude::*;

use crate::auth::{Request, is_success, refresh_request, succeeded};
use crate::config::Auth;
use crate::text::{chars_of, lemma_texts_push, string_of, texts};

verus! {

/// What to do with the stored session.
#[derive(Clone, Copy, Debug, PartialEq, Eq, Structural)]
pub enum Stored {
    /// There is none.
    NotLoggedIn,
    /// It holds no ticket.
    NoTicket,
    /// It is over, and can be renewed without a password.
    Renew,
    /// It is used as it is.
    Use,
}

/// What to do with the stored session. `expired` says whether it is over.
pub fn stored_session(auth: Option<&Auth>, expired: bool) -> (r: Stored)
    ensures
        r == (match auth {
            None => Stored::NotLoggedIn,
            Some(a) => if a.ticket@.len() == 0 {
                Stored::NoTicket
            } else if expired && a.remember_me_ticket@.len() > 0 {
                Stored::Renew
            } else {
                Stored::Use
            },
        }),
{
    match auth {
        None => Stored::NotLoggedIn,
        Some(a) => {
            if a.ticket.as_str().is_empty() {
                Stored::NoTicket
            } else if expired && !a.remember_me_ticket.as_str().is_empty() {
                Stored::Renew
            } else {
                Stored::Use
            }
        },
    }
}

/// The session after a renewal was tried: the renewed one, and the stored one
/// where that failed.
pub fn after_renewal(stored: Auth, renewed: Option<Auth>) -> (r: Auth)
    ensures
        r == (match renewed {
            Some(fresh) => fresh,
            None => stored,
        }),
{
    match renewed {
        Some(fresh) => fresh,
        None => stored,
    }
}

/// What follows an exchange of the session's ticket.
#[derive(Debug)]
pub enum AfterExchange {
    /// The connection is opened with this ticket.
    Connect(String),
    /// The session is renewed, and the exchange made once more.
    Renew,
    /// There is nothing left to try.
    Fail,
}

/// What follows an exchange that gave `ticket`, if it was not refused. `renewed`
/// says that the session has been renewed for it already.
pub fn after_exchange(ticket: Option<String>, auth: &Auth, renewed: bool) -> (r: AfterExchange)
    ensures
        r == (match ticket {
            Some(t) => AfterExchange::Connect(t),
            None => if !renewed && auth.remember_me_ticket@.len() > 0 {
                AfterExchange::Renew
            } else {
                AfterExchange::Fail
            },
        }),
{
    match ticket {
        Some(t) => AfterExchange::Connect(t),
        None => {
            if !renewed && !auth.remember_me_ticket.as_str().is_empty() {
                AfterExchange::Renew
            } else {
                AfterExchange::Fail
            }
        },
    }
}

/// How a login is made.
#[derive(Debug)]
pub enum LoginPath {
    /// A ticket is given: this session is stored.
    Ticket(Auth),
    /// The browser is opened.
    Browser,
    /// Email and password are sent; what is not given is asked for.
    Password { email: Option<String>, password: Option<String> },
}

/// How a login is made, given what the user gives. Email and password are only
/// sent where one of them is given.
pub fn login_path(
    email: Option<String>,
    password: Option<String>,
    ticket: Option<String>,
    session_id: Option<String>,
) -> (r: LoginPath)
    ensures
        match r {
            LoginPath::Ticket(a) => ticket matches Some(t) && a.ticket == t && a.is_bare()
                && a.session_id@ == (match session_id {
                Some(s) => s@,
                None => seq![],
            }),
            LoginPath::Browser => ticket is None && email is None && password is None,
            LoginPath::Password { email: e, password: p } => ticket is None && (email is Some
                || password is Some) && e == email && p == password,
        },
{
    if let Some(t) = ticket {
        let mut a = Auth::default();
        a.ticket = t;
        if let Some(s) = session_id {
            a.session_id = s;
        }
        return LoginPath::Ticket(a);
    }
    if email.is_none() && password.is_none() {
        return LoginPath::Browser;
    }
    LoginPath::Password { email, password }
}

/// The name of an account, where it is known.
pub open spec fn shown_name(auth: Auth) -> Seq<char> {
    if auth.name_on_platform@.len() == 0 {
        "<unknown>"@
    } else {
        auth.name_on_platform@
    }
}

/// What is said after a login.
pub fn logged_in_text(auth: &Auth) -> (r: String)
    ensures
        r@ == "Logged in as "@ + shown_name(*auth) + " (profileId "@ + auth.profile_id@ + ")"@,
{
    let mut r = "Logged in as ".to_owned();
    if auth.name_on_platform.as_str().is_empty() {
        r.append("<unknown>");
    } else {
        r.append(auth.name_on_platform.as_str());
    }
    r.append(" (profileId ");
    r.append(auth.profile_id.as_str());
    r.append(")");
    r
}

/// What is said after a sign-in on the local page.
pub fn signed_in_text(auth: &Auth) -> (r: String)
    ensures
        r@ == (if auth.name_on_platform@.len() == 0 {
            "Signed in — ticket + credentials captured. Run `optima-cli list-games`."@
        } else {
            "Signed in as "@ + auth.name_on_platform@
                + " — ticket + credentials captured. Run `optima-cli list-games`."@
        }),
{
    if auth.name_on_platform.as_str().is_empty() {
        return "Signed in — ticket + credentials captured. Run `optima-cli list-games`.".to_owned();
    }
    let mut r = "Signed in as ".to_owned();
    r.append(auth.name_on_platform.as_str());
    r.append(" — ticket + credentials captured. Run `optima-cli list-games`.");
    r
}

/// What is said of the stored session.
pub fn stored_lines(auth: &Auth, expired: bool) -> (r: Vec<String>)
    ensures
        texts(r@) == seq![
            "Stored session:"@,
            "  name:       "@ + auth.name_on_platform@,
            "  profileId:  "@ + auth.profile_id@,
            "  expiration: "@ + auth.expiration@ + " ("@ + (if expired {
                "EXPIRED"@
            } else {
                "valid"@
            }) + ")"@,
        ],
{
    broadcast use lemma_texts_push;

    let mut name = "  name:       ".to_owned();
    name.append(auth.name_on_platform.as_str());
    let mut id = "  profileId:  ".to_owned();
    id.append(auth.profile_id.as_str());
    let mut until = "  expiration: ".to_owned();
    until.append(auth.expiration.as_str());
    until.append(" (");
    until.append(
        if expired {
            "EXPIRED"
        } else {
            "valid"
        },
    );
    until.append(")");
    let mut r: Vec<String> = Vec::new();
    r.push("Stored session:".to_owned());
    r.push(name);
    r.push(id);
    r.push(until);
    assert(texts(r@) == seq![
        "Stored session:"@,
        "  name:       "@ + auth.name_on_platform@,
        "  profileId:  "@ + auth.profile_id@,
        "  expiration: "@ + auth.expiration@ + " ("@ + (if expired {
            "EXPIRED"@
        } else {
            "valid"@
        }) + ")"@,
    ]);
    r
}

/// How much of a refusal is shown.
pub const EXCERPT: usize = 300;

/// The first characters of a text.
pub open spec fn excerpt(s: Seq<char>) -> Seq<char> {
    if s.len() <= EXCERPT {
        s
    } else {
        s.take(EXCERPT as int)
    }
}

fn excerpt_of(s: &str) -> (r: String)
    ensures
        r@ == excerpt(s@),
{
    let v = chars_of(s);
    if v.len() <= EXCERPT {
        s.to_owned()
    } else {
        string_of(vstd::slice::slice_subrange(v.as_slice(), 0, EXCERPT))
    }
}

/// What is said of the check of a session against the service.
pub open spec fn check_words(
    code: u16,
    status: Seq<char>,
    body: Seq<char>,
    expired: bool,
) -> Seq<Seq<char>> {
    if is_success(code) {
        seq!["  live check: OK ("@ + status + ")"@]
    } else {
        let l = seq![
            "  live check: FAILED ("@ + status + ")"@,
            "  response:   "@ + excerpt(body),
        ];
        if expired {
            l.push("  hint: session expired — run `optima-cli refresh`."@)
        } else {
            l
        }
    }
}

/// What is said of the check of a session against the service. `status` is the
/// status line of the reply.
pub fn check_lines(code: u16, status: &str, body: &str, expired: bool) -> (r: Vec<String>)
    ensures
        texts(r@) == check_words(code, status@, body@, expired),
{
    broadcast use lemma_texts_push;

    let mut r: Vec<String> = Vec::new();
    assert(texts(r@) == Seq::<Seq<char>>::empty());
    if succeeded(code) {
        let mut l = "  live check: OK (".to_owned();
        l.append(status);
        l.append(")");
        r.push(l);
    } else {
        let mut l = "  live check: FAILED (".to_owned();
        l.append(status);
        l.append(")");
        r.push(l);
        let mut b = "  response:   ".to_owned();
        b.append(excerpt_of(body).as_str());
        r.push(b);
        if expired {
            r.push("  hint: session expired — run `optima-cli refresh`.".to_owned());
        }
    }
    assert(texts(r@) == check_words(code, status@, body@, expired));
    r
}

/// What is said after a renewal.
pub fn refreshed_text(fresh: &Auth) -> (r: String)
    ensures
        r@ == "Session refreshed (new expiration "@ + fresh.expiration@ + ")."@,
{
    let mut r = "Session refreshed (new expiration ".to_owned();
    r.append(fresh.expiration.as_str());
    r.append(").");
    r
}

/// The configuration of a product as it is shown, where it has one.
pub fn shown_config<'a>(config: Option<&'a str>) -> (r: Option<&'a str>)
    ensures
        r == (match config {
            Some(c) => if c@.len() > 0 {
                Some(c)
            } else {
                None
            },
            None => None,
        }),
{
    match config {
        Some(c) => {
            if c.is_empty() {
                None
            } else {
                Some(c)
            }
        },
        None => None,
    }
}

/// Of a long reply the first three hundred characters are shown, and a short one whole.
pub proof fn law_excerpt_is_the_beginning(s: Seq<char>)
    ensures
        s.len() <= 300 ==> excerpt(s) == s,
        s.len() > 300 ==> excerpt(s) == s.subrange(0, 300),
{
    if s.len() > 300 {
        assert(s.take(300) =~= s.subrange(0, 300));
    }
}

/// A check of the session tells the status; one that failed tells the reply too, and where
/// the session is over what helps.
pub proof fn law_check_tells_the_status(
    code: u16,
    status: Seq<char>,
    body: Seq<char>,
    expired: bool,
)
    ensures
        200 <= code <= 299 ==> check_words(code, status, body, expired) == seq![
            "  live check: OK ("@ + status + ")"@,
        ],
        code < 200 || code > 299 ==> check_words(code, status, body, expired).len() == (if expired {
            3int
        } else {
            2int
        }) && check_words(code, status, body, expired)[0] == "  live check: FAILED ("@ + status
            + ")"@,
        (code < 200 || code > 299) && body.len() <= 300 ==> check_words(
            code,
            status,
            body,
            expired,
        )[1] == "  response:   "@ + body,
{
}

/// The account is shown by its name where it has one.
pub proof fn law_name_is_shown(auth: Auth)
    ensures
        auth.name_on_platform@.len() > 0 ==> shown_name(auth) == auth.name_on_platform@,
        auth.name_on_platform@.len() == 0 ==> shown_name(auth) == "<unknown>"@,
{
}

/// A session without a ticket is not used, one that is over is renewed where it can be,
/// and every other is used.
pub proof fn law_session_is_used_or_renewed(
    a: &Auth,
    expired: bool,
    r: Stored,
    q: Option<Request>,
)
    requires
        call_ensures(stored_session, (Some(a), expired), r),
        call_ensures(refresh_request, (a,), q),
    ensures
        a.ticket@.len() == 0 ==> r == Stored::NoTicket,
        a.ticket@.len() > 0 && !expired ==> r == Stored::Use,
        a.ticket@.len() > 0 && expired ==> (r == Stored::Renew <==> q is Some),
        a.ticket@.len() > 0 && expired && q is None ==> r == Stored::Use,
{
}

/// A ticket that was exchanged is used. Where it was refused the session is renewed, but
/// once only, and only where it can be.
pub proof fn law_session_is_renewed_once(
    ticket: Option<String>,
    auth: &Auth,
    renewed: bool,
    r: AfterExchange,
)
    requires
        call_ensures(after_exchange, (ticket, auth, renewed), r),
    ensures
        ticket matches Some(t) ==> r == AfterExchange::Connect(t),
        ticket is None && renewed ==> r is Fail,
        ticket is None && auth.remember_me_ticket@.len() == 0 ==> r is Fail,
        ticket is None && !renewed && auth.remember_me_ticket@.len() > 0 ==> r is Renew,
{
}

/// What a renewal gave replaces what was kept, which else stays.
pub proof fn law_renewal_replaces_the_session(kept: Auth, fresh: Auth, r: Auth, s: Auth)
    requires
        call_ensures(after_renewal, (kept, Some(fresh)), r),
        call_ensures(after_renewal, (kept, None), s),
    ensures
        r == fresh,
        s == kept,
{
}

/// A ticket that is given is signed in with, whatever else is; without one an address or
/// a password is; and without any of them the browser.
pub proof fn law_how_to_sign_in(
    email: Option<String>,
    password: Option<String>,
    ticket: Option<String>,
    session_id: Option<String>,
    r: LoginPath,
)
    requires
        call_ensures(login_path, (email, password, ticket, session_id), r),
    ensures
        ticket matches Some(t) ==> (r matches LoginPath::Ticket(a) && a.ticket == t && (
        session_id matches Some(s) ==> a.session_id@ == s@)),
        ticket is None && (email is Some || password is Some) ==> r == (LoginPath::Password {
            email,
            password,
        }),
        ticket is None && email is None && password is None ==> r is Browser,
{
}

} // verus!
