//! The UbiServices session: the requests that open, renew and check it, and what
//! their replies mean.
//!
//! A login is a request to the session endpoint with the account's email and
//! password. Where the account has two-factor authentication the first reply is
//! a challenge, and a second request carries the challenge ticket and the code.
use vstd::prelude::*;
use vstd::utf8::encode_utf8;

use crate::codec::{base64_text, to_base64};
use crate::config::Auth;
use crate::text::{begins, law_parted_at_the_first, opt_text, pairs, parted};

verus! {

/// The session endpoint.
pub const SESSIONS_URL: &'static str =
    "https://public-ubiservices.ubi.com/v3/profiles/sessions";

/// The endpoint that describes the account of a session.
pub const ME_URL: &'static str = "https://public-ubiservices.ubi.com/v3/profiles/me";

/// The application id of the desktop launcher.
pub const UBI_APP_ID: &'static str = "685a3038-2b04-47ee-9c5a-6403381a46aa";

/// The application id whose ticket the Demux service accepts.
pub const DEMUX_APP_ID: &'static str = "f68a4bb5-608a-4ff2-8123-be8ef797e0a6";

/// How this client names itself to the web services.
pub const USER_AGENT: &'static str = "Optima/0.1 (+https://github.com/Starkka15/Optima)";

/// The body of each session request.
pub const REMEMBER_ME: &'static str = "{\"rememberMe\":true}";

/// A web request: a `POST` or a `GET`, its headers in their order, and its body.
#[derive(Debug)]
pub struct Request {
    pub post: bool,
    pub url: String,
    pub headers: Vec<(String, String)>,
    pub body: Option<String>,
}

/// What a request says.
#[verifier::ext_equal]
pub struct Call {
    pub post: bool,
    pub url: Seq<char>,
    pub headers: Seq<(Seq<char>, Seq<char>)>,
    pub body: Option<Seq<char>>,
}

impl View for Request {
    type V = Call;

    open spec fn view(&self) -> Call {
        Call {
            post: self.post,
            url: self.url@,
            headers: pairs(self.headers@),
            body: opt_text(self.body),
        }
    }
}

/// A request for a session of the application `app_id`.
pub open spec fn session_call(app_id: Seq<char>, authorization: Seq<char>) -> Call {
    Call {
        post: true,
        url: SESSIONS_URL@,
        headers: seq![
            ("Content-Type"@, "application/json"@),
            ("Ubi-AppId"@, app_id),
            ("Ubi-RequestedPlatformType"@, "uplay"@),
            ("Authorization"@, authorization),
        ],
        body: Some(REMEMBER_ME@),
    }
}

/// `call` with one more header.
pub open spec fn with_header(call: Call, name: Seq<char>, value: Seq<char>) -> Call {
    Call { headers: call.headers.push((name, value)), ..call }
}

/// Adds a header.
fn add_header(h: &mut Vec<(String, String)>, name: &str, value: &str)
    ensures
        pairs(final(h)@) == pairs(old(h)@).push((name@, value@)),
{
    h.push((name.to_owned(), value.to_owned()));
}

/// A request for a session of the application `app_id`.
fn session_request(app_id: &str, authorization: &str) -> (r: Request)
    ensures
        r@ == session_call(app_id@, authorization@),
{
    let mut headers: Vec<(String, String)> = Vec::new();
    assert(pairs(headers@) == Seq::<(Seq<char>, Seq<char>)>::empty());
    add_header(&mut headers, "Content-Type", "application/json");
    add_header(&mut headers, "Ubi-AppId", app_id);
    add_header(&mut headers, "Ubi-RequestedPlatformType", "uplay");
    add_header(&mut headers, "Authorization", authorization);
    Request {
        post: true,
        url: SESSIONS_URL.to_owned(),
        headers,
        body: Some(REMEMBER_ME.to_owned()),
    }
}

/// What stands in front of a ticket in an `Authorization` header.
pub open spec fn bearer(ticket: Seq<char>) -> Seq<char> {
    "ubi_v1 t="@ + ticket
}

/// The `Authorization` value of a ticket.
fn bearer_of(ticket: &str) -> (r: String)
    ensures
        r@ == bearer(ticket@),
{
    let mut r = "ubi_v1 t=".to_owned();
    r.append(ticket);
    r
}

/// The credentials of an account as one text.
pub open spec fn credentials(email: Seq<char>, password: Seq<char>) -> Seq<char> {
    email + ":"@ + password
}

/// The first login step: email and password. The credentials fit in memory once
/// they are encoded.
pub fn login_request(email: &str, password: &str) -> (r: Request)
    requires
        encode_utf8(credentials(email@, password@)).len() <= usize::MAX / 4,
    ensures
        r@ == session_call(
            UBI_APP_ID@,
            "Basic "@ + base64_text(encode_utf8(credentials(email@, password@))),
        ),
{
    let mut plain = email.to_owned();
    plain.append(":");
    plain.append(password);
    let mut authorization = "Basic ".to_owned();
    authorization.append(to_base64(plain.as_str().as_bytes()).as_str());
    session_request(UBI_APP_ID, authorization.as_str())
}

/// The second login step: the challenge ticket and the user's code.
pub fn login_2fa_request(two_factor_ticket: &str, code: &str) -> (r: Request)
    ensures
        r@ == with_header(
            session_call(UBI_APP_ID@, bearer(two_factor_ticket@)),
            "Ubi-2FACode"@,
            code@,
        ),
{
    let mut r = session_request(UBI_APP_ID, bearer_of(two_factor_ticket).as_str());
    add_header(&mut r.headers, "Ubi-2FACode", code);
    r
}

/// Asks for a ticket for another application, on the strength of a valid one.
pub fn exchange_request(ticket: &str, app_id: &str) -> (r: Request)
    ensures
        r@ == session_call(app_id@, bearer(ticket@)),
{
    session_request(app_id, bearer_of(ticket).as_str())
}

/// Renews a session without a password. There is nothing to ask with where the
/// session has no rememberMe ticket.
pub fn refresh_request(auth: &Auth) -> (r: Option<Request>)
    ensures
        match r {
            Some(q) => auth.remember_me_ticket@.len() > 0 && q@ == session_call(
                UBI_APP_ID@,
                "rm_v1 t="@ + auth.remember_me_ticket@,
            ),
            None => auth.remember_me_ticket@.len() == 0,
        },
{
    if auth.remember_me_ticket.as_str().is_empty() {
        return None;
    }
    let mut authorization = "rm_v1 t=".to_owned();
    authorization.append(auth.remember_me_ticket.as_str());
    Some(session_request(UBI_APP_ID, authorization.as_str()))
}

/// Asks for the account of the session.
pub fn me_request(auth: &Auth) -> (r: Request)
    ensures
        r@ == (Call {
            post: false,
            url: ME_URL@,
            headers: seq![
                ("Ubi-AppId"@, UBI_APP_ID@),
                ("Ubi-RequestedPlatformType"@, "uplay"@),
                ("Ubi-SessionId"@, auth.session_id@),
                ("Authorization"@, bearer(auth.ticket@)),
            ],
            body: None,
        }),
{
    let mut headers: Vec<(String, String)> = Vec::new();
    assert(pairs(headers@) == Seq::<(Seq<char>, Seq<char>)>::empty());
    add_header(&mut headers, "Ubi-AppId", UBI_APP_ID);
    add_header(&mut headers, "Ubi-RequestedPlatformType", "uplay");
    add_header(&mut headers, "Ubi-SessionId", auth.session_id.as_str());
    add_header(&mut headers, "Authorization", bearer_of(auth.ticket.as_str()).as_str());
    Request { post: false, url: ME_URL.to_owned(), headers, body: None }
}

/// Every request of a session goes to the account service, encrypted.
pub proof fn law_requests_go_to_the_account_service(app_id: Seq<char>, authorization: Seq<char>)
    ensures
        begins(session_call(app_id, authorization).url, "https://public-ubiservices.ubi.com/"@),
        begins(ME_URL@, "https://public-ubiservices.ubi.com/"@),
{
    reveal_strlit("https://public-ubiservices.ubi.com/");
    reveal_strlit("https://public-ubiservices.ubi.com/v3/profiles/sessions");
    reveal_strlit("https://public-ubiservices.ubi.com/v3/profiles/me");
    let host = "https://public-ubiservices.ubi.com/"@;
    assert(SESSIONS_URL@.subrange(0, 35) =~= host);
    assert(ME_URL@.subrange(0, 35) =~= host);
}

// ---------------------------------------------------------------------------
// Replies
// ---------------------------------------------------------------------------

/// The reply to a session request; what it leaves out is empty.
#[derive(Debug)]
pub struct SessionResponse {
    pub ticket: String,
    pub two_factor_authentication_ticket: Option<String>,
    pub session_id: String,
    pub session_key: String,
    pub profile_id: String,
    pub user_id: String,
    pub name_on_platform: String,
    pub expiration: String,
    pub remember_me_ticket: String,
}

/// What a login attempt yields: a session, or a challenge whose ticket has to be
/// sent back with the user's code.
#[derive(Debug)]
pub enum LoginOutcome {
    Session(Auth),
    TwoFactorRequired { ticket: String },
}

/// Why a reply gives no session.
#[derive(Clone, Copy, Debug, PartialEq, Eq, Structural)]
pub enum SessionFault {
    /// The server refused the request.
    Refused,
    /// The body is no session reply.
    Unreadable,
    /// The reply holds no ticket.
    NoTicket,
}

/// The status codes that report success.
pub open spec fn is_success(code: u16) -> bool {
    200 <= code < 300
}

/// Whether a status code reports success.
pub fn succeeded(code: u16) -> (r: bool)
    ensures
        r == is_success(code),
{
    200 <= code && code < 300
}

/// The session that a reply describes.
pub open spec fn auth_of(r: SessionResponse) -> Auth {
    Auth {
        ticket: r.ticket,
        session_id: r.session_id,
        session_key: r.session_key,
        profile_id: r.profile_id,
        user_id: r.user_id,
        name_on_platform: r.name_on_platform,
        expiration: r.expiration,
        remember_me_ticket: r.remember_me_ticket,
    }
}

/// The session that a reply describes.
pub fn to_auth(r: SessionResponse) -> (a: Auth)
    ensures
        a == auth_of(r),
{
    Auth {
        ticket: r.ticket,
        session_id: r.session_id,
        session_key: r.session_key,
        profile_id: r.profile_id,
        user_id: r.user_id,
        name_on_platform: r.name_on_platform,
        expiration: r.expiration,
        remember_me_ticket: r.remember_me_ticket,
    }
}

/// What the reply to a login or a renewal means. `parsed` is the body, where it
/// could be read as a session reply.
pub open spec fn session_result(code: u16, parsed: Option<SessionResponse>) -> Result<
    LoginOutcome,
    SessionFault,
> {
    if !is_success(code) {
        Err(SessionFault::Refused)
    } else {
        match parsed {
            None => Err(SessionFault::Unreadable),
            Some(p) => if p.ticket@.len() > 0 {
                Ok(LoginOutcome::Session(auth_of(p)))
            } else {
                match p.two_factor_authentication_ticket {
                    Some(t) => if t@.len() > 0 {
                        Ok(LoginOutcome::TwoFactorRequired { ticket: t })
                    } else {
                        Err(SessionFault::NoTicket)
                    },
                    None => Err(SessionFault::NoTicket),
                }
            },
        }
    }
}

/// What the reply to a login or a renewal means.
pub fn parse_session(code: u16, parsed: Option<SessionResponse>) -> (r: Result<
    LoginOutcome,
    SessionFault,
>)
    ensures
        r == session_result(code, parsed),
{
    if !succeeded(code) {
        return Err(SessionFault::Refused);
    }
    match parsed {
        None => Err(SessionFault::Unreadable),
        Some(p) => {
            if !p.ticket.as_str().is_empty() {
                return Ok(LoginOutcome::Session(to_auth(p)));
            }
            match p.two_factor_authentication_ticket {
                Some(t) => {
                    if t.as_str().is_empty() {
                        Err(SessionFault::NoTicket)
                    } else {
                        Ok(LoginOutcome::TwoFactorRequired { ticket: t })
                    }
                },
                None => Err(SessionFault::NoTicket),
            }
        },
    }
}

/// What the reply to an exchange means.
pub open spec fn exchange_result(code: u16, parsed: Option<SessionResponse>) -> Result<
    String,
    SessionFault,
> {
    if !is_success(code) {
        Err(SessionFault::Refused)
    } else {
        match parsed {
            None => Err(SessionFault::Unreadable),
            Some(p) => if p.ticket@.len() > 0 {
                Ok(p.ticket)
            } else {
                Err(SessionFault::NoTicket)
            },
        }
    }
}

/// The ticket that the reply to an exchange holds.
pub fn exchanged_ticket(code: u16, parsed: Option<SessionResponse>) -> (r: Result<
    String,
    SessionFault,
>)
    ensures
        r == exchange_result(code, parsed),
{
    if !succeeded(code) {
        return Err(SessionFault::Refused);
    }
    match parsed {
        None => Err(SessionFault::Unreadable),
        Some(p) => {
            if p.ticket.as_str().is_empty() {
                Err(SessionFault::NoTicket)
            } else {
                Ok(p.ticket)
            }
        },
    }
}

/// What went wrong with a login or a renewal, with the server's own words.
/// `status` is the status line of the reply.
pub fn session_fault_text(fault: SessionFault, status: &str, body: &str) -> (r: String)
    ensures
        r@ == (match fault {
            SessionFault::Refused => "UbiServices returned "@ + status@ + ": "@ + body@,
            SessionFault::Unreadable => "parsing session json: "@ + body@,
            SessionFault::NoTicket => "login succeeded ("@ + status@
                + ") but no ticket in response: "@ + body@,
        }),
{
    let mut r;
    match fault {
        SessionFault::Refused => {
            r = "UbiServices returned ".to_owned();
            r.append(status);
            r.append(": ");
        },
        SessionFault::Unreadable => {
            r = "parsing session json: ".to_owned();
        },
        SessionFault::NoTicket => {
            r = "login succeeded (".to_owned();
            r.append(status);
            r.append(") but no ticket in response: ");
        },
    }
    r.append(body);
    r
}

/// What went wrong with an exchange, with the server's own words.
pub fn exchange_fault_text(fault: SessionFault, status: &str, body: &str) -> (r: String)
    ensures
        r@ == (match fault {
            SessionFault::Refused => "ticket exchange returned "@ + status@ + ": "@ + body@,
            SessionFault::Unreadable => "parsing exchange json: "@ + body@,
            SessionFault::NoTicket => "ticket exchange returned no ticket: "@ + body@,
        }),
{
    let mut r;
    match fault {
        SessionFault::Refused => {
            r = "ticket exchange returned ".to_owned();
            r.append(status);
            r.append(": ");
        },
        SessionFault::Unreadable => {
            r = "parsing exchange json: ".to_owned();
        },
        SessionFault::NoTicket => {
            r = "ticket exchange returned no ticket: ".to_owned();
        },
    }
    r.append(body);
    r
}

/// The session that the last step yields. After a renewal, and after the code of a
/// challenge was sent, another challenge is a failure.
pub fn session_of(outcome: LoginOutcome) -> (r: Option<Auth>)
    ensures
        r == (match outcome {
            LoginOutcome::Session(a) => Some(a),
            LoginOutcome::TwoFactorRequired { .. } => None,
        }),
{
    match outcome {
        LoginOutcome::Session(a) => Some(a),
        LoginOutcome::TwoFactorRequired { .. } => None,
    }
}

/// A reply that is taken for a session carries a ticket, and one that is taken
/// for a challenge carries the ticket of the challenge and no other.
pub proof fn law_outcome_carries_a_ticket(code: u16, parsed: Option<SessionResponse>)
    ensures
        session_result(code, parsed) matches Ok(LoginOutcome::Session(a)) ==> a.ticket@.len() > 0,
        session_result(code, parsed) matches Ok(
            LoginOutcome::TwoFactorRequired { ticket },
        ) ==> ticket@.len() > 0 && (parsed matches Some(p) && p.ticket@.len() == 0),
        !is_success(code) ==> session_result(code, parsed) is Err,
{
}

// ---------------------------------------------------------------------------
// Who the session belongs to
// ---------------------------------------------------------------------------

/// The text member `key` of a JSON text: nothing where the text is no JSON, and
/// no text where it has no such member or one that is no text.
pub uninterp spec fn json_member(text: Seq<char>, key: Seq<char>) -> Option<Option<Seq<char>>>;

/// `serde_json::from_str` to a `Value`, then `Value::get` with the key and
/// `Value::as_str`. The result is named.
#[verifier::external_body]
fn json_text(text: &str, key: &str) -> (r: Option<Option<String>>)
    ensures
        match r {
            Some(t) => json_member(text@, key@) == Some(opt_text(t)),
            None => json_member(text@, key@) is None,
        },
{
    let v = serde_json::from_str::<serde_json::Value>(text).ok()?;
    Some(v.get(key).and_then(|x| x.as_str()).map(|x| x.to_owned()))
}

/// What a reply to `me_request` says of the account.
#[derive(Debug)]
pub struct Identity {
    pub profile_id: Option<String>,
    pub name_on_platform: Option<String>,
}

/// What the account's own description says: nothing where the request failed or
/// its body is no JSON.
pub fn identity_in(code: u16, body: &str) -> (r: Option<Identity>)
    ensures
        match r {
            Some(i) => is_success(code) && json_member(body@, "profileId"@) == Some(
                opt_text(i.profile_id),
            ) && json_member(body@, "nameOnPlatform"@) == Some(opt_text(i.name_on_platform)),
            None => !is_success(code) || json_member(body@, "profileId"@) is None || json_member(
                body@,
                "nameOnPlatform"@,
            ) is None,
        },
{
    if !succeeded(code) {
        return None;
    }
    let profile_id = match json_text(body, "profileId") {
        Some(t) => t,
        None => {
            return None;
        },
    };
    let name_on_platform = match json_text(body, "nameOnPlatform") {
        Some(t) => t,
        None => {
            return None;
        },
    };
    Some(Identity { profile_id, name_on_platform })
}

/// The text that replaces `old_text`, where there is one.
pub open spec fn taken(old_text: String, new_text: Option<String>) -> String {
    match new_text {
        Some(t) => t,
        None => old_text,
    }
}

/// The text that fills `old_text`, where that is empty and there is one.
pub open spec fn filled(old_text: String, new_text: Option<String>) -> String {
    if old_text@.len() == 0 {
        taken(old_text, new_text)
    } else {
        old_text
    }
}

/// A session that does not know yet whose it is.
pub open spec fn is_anonymous(auth: Auth) -> bool {
    auth.profile_id@.len() == 0 || auth.name_on_platform@.len() == 0
}

/// Whether a session does not know yet whose it is.
pub fn lacks_identity(auth: &Auth) -> (r: bool)
    ensures
        r == is_anonymous(*auth),
{
    auth.profile_id.as_str().is_empty() || auth.name_on_platform.as_str().is_empty()
}

/// Notes whose session it is: what the account says replaces what was known.
pub fn take_identity(auth: &mut Auth, who: Identity)
    ensures
        *final(auth) == (Auth {
            profile_id: taken(old(auth).profile_id, who.profile_id),
            name_on_platform: taken(old(auth).name_on_platform, who.name_on_platform),
            ..*old(auth)
        }),
{
    if let Some(n) = who.name_on_platform {
        auth.name_on_platform = n;
    }
    if let Some(id) = who.profile_id {
        auth.profile_id = id;
    }
}

/// Completes whose session it is: what is known stays.
pub fn fill_identity(auth: &mut Auth, who: Identity)
    ensures
        *final(auth) == (Auth {
            profile_id: filled(old(auth).profile_id, who.profile_id),
            name_on_platform: filled(old(auth).name_on_platform, who.name_on_platform),
            ..*old(auth)
        }),
{
    if auth.profile_id.as_str().is_empty() {
        if let Some(id) = who.profile_id {
            auth.profile_id = id;
        }
    }
    if auth.name_on_platform.as_str().is_empty() {
        if let Some(n) = who.name_on_platform {
            auth.name_on_platform = n;
        }
    }
}

// ---------------------------------------------------------------------------
// What a sign-in promises
// ---------------------------------------------------------------------------

/// A reply of success with a ticket opens the session that it describes, field by field.
/// One without a ticket asks for a code where it has a challenge. Every other reply is a
/// fault: refused, unreadable or without a ticket.
pub proof fn law_reply_opens_the_session(code: u16, p: SessionResponse, t: String)
    ensures
        200 <= code <= 299 && p.ticket@.len() > 0 ==> (session_result(code, Some(p)) matches Ok(
            LoginOutcome::Session(a),
        ) && a.ticket == p.ticket && a.session_id == p.session_id && a.session_key == p.session_key
            && a.profile_id == p.profile_id && a.user_id == p.user_id && a.name_on_platform
            == p.name_on_platform && a.expiration == p.expiration && a.remember_me_ticket
            == p.remember_me_ticket),
        200 <= code <= 299 && p.ticket@.len() == 0 && p.two_factor_authentication_ticket == Some(t)
            && t@.len() > 0 ==> session_result(code, Some(p)) == Ok::<_, SessionFault>(
            LoginOutcome::TwoFactorRequired { ticket: t },
        ),
        200 <= code <= 299 && p.ticket@.len() == 0 && (
        p.two_factor_authentication_ticket matches Some(c) ==> c@.len() == 0) ==> session_result(
            code,
            Some(p),
        ) == Err::<LoginOutcome, _>(SessionFault::NoTicket),
        200 <= code <= 299 ==> session_result(code, None) == Err::<LoginOutcome, _>(
            SessionFault::Unreadable,
        ),
        code < 200 || code > 299 ==> session_result(code, Some(p)) == Err::<LoginOutcome, _>(
            SessionFault::Refused,
        ) && session_result(code, None) == Err::<LoginOutcome, _>(SessionFault::Refused),
{
}

/// An exchange gives the ticket of a reply of success; every other reply is a fault.
pub proof fn law_exchange_gives_the_ticket(code: u16, p: SessionResponse)
    ensures
        200 <= code <= 299 && p.ticket@.len() > 0 ==> exchange_result(code, Some(p)) == Ok::<
            _,
            SessionFault,
        >(p.ticket),
        200 <= code <= 299 && p.ticket@.len() == 0 ==> exchange_result(code, Some(p)) == Err::<
            String,
            _,
        >(SessionFault::NoTicket),
        200 <= code <= 299 ==> exchange_result(code, None) == Err::<String, _>(
            SessionFault::Unreadable,
        ),
        code < 200 || code > 299 ==> exchange_result(code, Some(p)) == Err::<String, _>(
            SessionFault::Refused,
        ) && exchange_result(code, None) == Err::<String, _>(SessionFault::Refused),
{
}

/// A request for a session names the application and who asks, and asks to be
/// remembered; a header that is added leaves all of it as it is.
pub proof fn law_session_is_asked_for(
    app_id: Seq<char>,
    authorization: Seq<char>,
    name: Seq<char>,
    value: Seq<char>,
)
    ensures
        session_call(app_id, authorization).post,
        session_call(app_id, authorization).url
            == "https://public-ubiservices.ubi.com/v3/profiles/sessions"@,
        session_call(app_id, authorization).body == Some("{\"rememberMe\":true}"@),
        session_call(app_id, authorization).headers.len() == 4,
        session_call(app_id, authorization).headers.contains(
            ("Content-Type"@, "application/json"@),
        ),
        session_call(app_id, authorization).headers.contains(("Ubi-AppId"@, app_id)),
        session_call(app_id, authorization).headers.contains(
            ("Ubi-RequestedPlatformType"@, "uplay"@),
        ),
        session_call(app_id, authorization).headers.contains(("Authorization"@, authorization)),
        with_header(session_call(app_id, authorization), name, value).headers == session_call(
            app_id,
            authorization,
        ).headers + seq![(name, value)],
        with_header(session_call(app_id, authorization), name, value).post,
        with_header(session_call(app_id, authorization), name, value).url == session_call(
            app_id,
            authorization,
        ).url,
        with_header(session_call(app_id, authorization), name, value).body == session_call(
            app_id,
            authorization,
        ).body,
{
    let h = session_call(app_id, authorization).headers;
    assert(h[0] == ("Content-Type"@, "application/json"@));
    assert(h[1] == ("Ubi-AppId"@, app_id));
    assert(h[2] == ("Ubi-RequestedPlatformType"@, "uplay"@));
    assert(h[3] == ("Authorization"@, authorization));
    assert(h.push((name, value)) =~= h + seq![(name, value)]);
}

/// Credentials are parted at their first colon into the address and the password, and a
/// ticket stands behind its mark.
pub proof fn law_credentials_are_parted(email: Seq<char>, password: Seq<char>, ticket: Seq<char>)
    requires
        !email.contains(':'),
    ensures
        parted(credentials(email, password), ':') == Some((email, password)),
        begins(bearer(ticket), "ubi_v1 t="@),
        bearer(ticket).len() == ticket.len() + 9,
        bearer(ticket).skip(9) == ticket,
{
    reveal_strlit(":");
    reveal_strlit("ubi_v1 t=");
    assert(":"@ =~= seq![':']);
    assert forall|i: int| 0 <= i < email.len() implies #[trigger] email[i] != ':' by {
        assert(email.contains(email[i]));
    }
    law_parted_at_the_first(email, ':', password);
    assert(bearer(ticket).take(9) =~= "ubi_v1 t="@);
    assert(bearer(ticket).subrange(0, 9) =~= "ubi_v1 t="@);
    assert(bearer(ticket).skip(9) =~= ticket);
}

/// What a reply says of the account is taken; where only gaps are to be filled, what is
/// known stays.
pub proof fn law_identity_is_taken_or_filled(known: String, new_text: String)
    ensures
        taken(known, Some(new_text)) == new_text,
        taken(known, None) == known,
        known@.len() > 0 ==> filled(known, Some(new_text)) == known,
        known@.len() == 0 ==> filled(known, Some(new_text)) == new_text,
        filled(known, None) == known,
{
}

/// An account is known by its profile and its name, both of them.
pub proof fn law_account_is_known(auth: Auth)
    ensures
        is_anonymous(auth) <==> !(auth.profile_id@.len() > 0 && auth.name_on_platform@.len() > 0),
{
}

/// Each request says who asks: with the address and the password, with a ticket, or with
/// what was kept to be remembered by; a code goes in a header of its own.
pub proof fn law_requests_say_who_asks(
    email: &str,
    password: &str,
    login: Request,
    ticket: &str,
    code: &str,
    second: Request,
    app_id: &str,
    exchange: Request,
)
    requires
        encode_utf8(credentials(email@, password@)).len() <= usize::MAX / 4,
        call_ensures(login_request, (email, password), login),
        call_ensures(login_2fa_request, (ticket, code), second),
        call_ensures(exchange_request, (ticket, app_id), exchange),
    ensures
        login@.headers.contains(
            ("Authorization"@, "Basic "@ + base64_text(encode_utf8(email@ + ":"@ + password@))),
        ),
        second@.headers.contains(("Authorization"@, "ubi_v1 t="@ + ticket@)),
        second@.headers.contains(("Ubi-2FACode"@, code@)),
        exchange@.headers.contains(("Authorization"@, "ubi_v1 t="@ + ticket@)),
        exchange@.headers.contains(("Ubi-AppId"@, app_id@)),
        login@.post && second@.post && exchange@.post,
{
    let b = "Basic "@ + base64_text(encode_utf8(email@ + ":"@ + password@));
    law_session_is_asked_for(UBI_APP_ID@, b, "Ubi-2FACode"@, code@);
    let s = session_call(UBI_APP_ID@, bearer(ticket@));
    let h = with_header(s, "Ubi-2FACode"@, code@).headers;
    assert(h[3] == ("Authorization"@, bearer(ticket@)));
    assert(h[4] == ("Ubi-2FACode"@, code@));
    law_session_is_asked_for(app_id@, bearer(ticket@), "Ubi-2FACode"@, code@);
}

/// A session is renewed and checked with what it holds.
pub proof fn law_session_speaks_for_itself(auth: &Auth, renew: Option<Request>, me: Request)
    requires
        call_ensures(refresh_request, (auth,), renew),
        call_ensures(me_request, (auth,), me),
    ensures
        renew is Some <==> auth.remember_me_ticket@.len() > 0,
        renew matches Some(q) ==> q@.post && q@.headers.contains(
            ("Authorization"@, "rm_v1 t="@ + auth.remember_me_ticket@),
        ),
        !me@.post && me@.body is None,
        me@.headers.contains(("Authorization"@, "ubi_v1 t="@ + auth.ticket@)),
        me@.headers.contains(("Ubi-SessionId"@, auth.session_id@)),
{
    if let Some(q) = renew {
        law_session_is_asked_for(
            UBI_APP_ID@,
            "rm_v1 t="@ + auth.remember_me_ticket@,
            seq![],
            seq![],
        );
    }
    let h = me@.headers;
    assert(h[2] == ("Ubi-SessionId"@, auth.session_id@));
    assert(h[3] == ("Authorization"@, bearer(auth.ticket@)));
}

/// Who an account is is read from a reply of success alone.
pub proof fn law_identity_is_read_from_success(code: u16, body: &str, r: Option<Identity>)
    requires
        call_ensures(identity_in, (code, body), r),
    ensures
        code < 200 || code > 299 ==> r is None,
        200 <= code <= 299 ==> (json_member(body@, "profileId"@) matches Some(id) ==> json_member(
            body@,
            "nameOnPlatform"@,
        ) matches Some(name) ==> (r matches Some(i) && opt_text(i.profile_id) == id && opt_text(
            i.name_on_platform,
        ) == name)),
{
}

} // verus!
