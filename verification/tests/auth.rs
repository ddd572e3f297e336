use optima::auth::{
    exchange_fault_text, exchange_request, exchanged_ticket, fill_identity, identity_in,
    lacks_identity, login_2fa_request, login_request, me_request, parse_session, refresh_request,
    session_fault_text, session_of, succeeded, take_identity, to_auth, Identity, LoginOutcome,
    Request, SessionFault, SessionResponse, DEMUX_APP_ID, UBI_APP_ID,
};
use optima::config::Auth;

fn header(r: &Request, name: &str) -> Option<String> {
    r.headers.iter().find(|(n, _)| n == name).map(|(_, v)| v.clone())
}

fn response(ticket: &str, challenge: Option<&str>) -> SessionResponse {
    SessionResponse {
        ticket: ticket.to_string(),
        two_factor_authentication_ticket: challenge.map(String::from),
        session_id: "sid".to_string(),
        session_key: "key".to_string(),
        profile_id: "pid".to_string(),
        user_id: "uid".to_string(),
        name_on_platform: "Me".to_string(),
        expiration: "never".to_string(),
        remember_me_ticket: "rm".to_string(),
    }
}

#[test]
fn a_login_sends_the_credentials_in_base64() {
    let r = login_request("Aladdin", "open sesame");
    assert!(r.post);
    assert_eq!(r.url, "https://public-ubiservices.ubi.com/v3/profiles/sessions");
    assert_eq!(header(&r, "Authorization").unwrap(), "Basic QWxhZGRpbjpvcGVuIHNlc2FtZQ==");
    assert_eq!(header(&r, "Content-Type").unwrap(), "application/json");
    assert_eq!(header(&r, "Ubi-AppId").unwrap(), UBI_APP_ID);
    assert_eq!(header(&r, "Ubi-RequestedPlatformType").unwrap(), "uplay");
    assert_eq!(r.body.unwrap(), "{\"rememberMe\":true}");
}

#[test]
fn base64_is_padded_to_four_characters() {
    let auth = |e: &str, p: &str| header(&login_request(e, p), "Authorization").unwrap();
    assert_eq!(auth("", ""), "Basic Og==");
    assert_eq!(auth("a", ""), "Basic YTo=");
    assert_eq!(auth("a", "b"), "Basic YTpi");
    assert_eq!(auth("?", "~~ÿ"), "Basic Pzp+fsO/");
}

#[test]
fn the_code_of_a_challenge_is_sent_along() {
    let r = login_2fa_request("challenge", "123456");
    assert_eq!(header(&r, "Authorization").unwrap(), "ubi_v1 t=challenge");
    assert_eq!(r.headers.last().unwrap(), &("Ubi-2FACode".to_string(), "123456".to_string()));
}

#[test]
fn an_exchange_names_the_other_application() {
    let r = exchange_request("tick", DEMUX_APP_ID);
    assert_eq!(header(&r, "Ubi-AppId").unwrap(), "f68a4bb5-608a-4ff2-8123-be8ef797e0a6");
    assert_eq!(header(&r, "Authorization").unwrap(), "ubi_v1 t=tick");
}

#[test]
fn a_renewal_needs_a_ticket_for_it() {
    let mut a = Auth::default();
    assert!(refresh_request(&a).is_none());
    a.remember_me_ticket = "keep".to_string();
    let r = refresh_request(&a).unwrap();
    assert_eq!(header(&r, "Authorization").unwrap(), "rm_v1 t=keep");
}

#[test]
fn the_account_is_asked_for_with_the_session() {
    let a = to_auth(response("tick", None));
    let r = me_request(&a);
    assert!(!r.post && r.body.is_none());
    assert_eq!(r.url, "https://public-ubiservices.ubi.com/v3/profiles/me");
    assert_eq!(header(&r, "Ubi-SessionId").unwrap(), "sid");
    assert_eq!(header(&r, "Authorization").unwrap(), "ubi_v1 t=tick");
    assert_eq!(r.headers.len(), 4);
}

#[test]
fn success_is_what_the_codes_from_200_report() {
    for (code, ok) in [(199, false), (200, true), (204, true), (299, true), (300, false), (401, false)] {
        assert_eq!(succeeded(code), ok);
    }
}

#[test]
fn a_reply_with_a_ticket_is_a_session() {
    for challenge in [None, Some("c")] {
        match parse_session(200, Some(response("tick", challenge))) {
            Ok(LoginOutcome::Session(a)) => {
                assert_eq!(a.ticket, "tick");
                assert_eq!(a.session_id, "sid");
                assert_eq!(a.session_key, "key");
                assert_eq!(a.profile_id, "pid");
                assert_eq!(a.user_id, "uid");
                assert_eq!(a.name_on_platform, "Me");
                assert_eq!(a.expiration, "never");
                assert_eq!(a.remember_me_ticket, "rm");
            }
            other => panic!("{other:?}"),
        }
    }
}

#[test]
fn a_reply_without_a_ticket_may_be_a_challenge() {
    match parse_session(201, Some(response("", Some("c")))) {
        Ok(LoginOutcome::TwoFactorRequired { ticket }) => assert_eq!(ticket, "c"),
        other => panic!("{other:?}"),
    }
}

#[test]
fn replies_that_give_no_session() {
    let fault = |code, p| parse_session(code, p).unwrap_err();
    assert_eq!(fault(403, Some(response("tick", None))), SessionFault::Refused);
    assert_eq!(fault(200, None), SessionFault::Unreadable);
    assert_eq!(fault(200, Some(response("", None))), SessionFault::NoTicket);
    assert_eq!(fault(200, Some(response("", Some("")))), SessionFault::NoTicket);
}

#[test]
fn what_an_exchange_gives() {
    assert_eq!(exchanged_ticket(200, Some(response("t", None))).unwrap(), "t");
    assert_eq!(exchanged_ticket(429, Some(response("t", None))), Err(SessionFault::Refused));
    assert_eq!(exchanged_ticket(200, None), Err(SessionFault::Unreadable));
    assert_eq!(exchanged_ticket(200, Some(response("", Some("c")))), Err(SessionFault::NoTicket));
}

#[test]
fn faults_show_the_words_of_the_server() {
    let s = "403 Forbidden";
    assert_eq!(
        session_fault_text(SessionFault::Refused, s, "{no}"),
        "UbiServices returned 403 Forbidden: {no}"
    );
    assert_eq!(session_fault_text(SessionFault::Unreadable, s, "x"), "parsing session json: x");
    assert_eq!(
        session_fault_text(SessionFault::NoTicket, "200 OK", "{}"),
        "login succeeded (200 OK) but no ticket in response: {}"
    );
    assert_eq!(
        exchange_fault_text(SessionFault::Refused, s, "b"),
        "ticket exchange returned 403 Forbidden: b"
    );
    assert_eq!(exchange_fault_text(SessionFault::Unreadable, s, "b"), "parsing exchange json: b");
    assert_eq!(
        exchange_fault_text(SessionFault::NoTicket, s, "b"),
        "ticket exchange returned no ticket: b"
    );
}

#[test]
fn a_second_challenge_is_no_session() {
    assert!(session_of(LoginOutcome::TwoFactorRequired { ticket: "c".to_string() }).is_none());
    let a = session_of(LoginOutcome::Session(Auth::of_ticket("t"))).unwrap();
    assert_eq!(a.ticket, "t");
}

#[test]
fn the_account_describes_itself() {
    let body = "{\"profileId\":\"p-1\",\"nameOnPlatform\":\"Zo\\u00eb\",\"x\":1}";
    let i = identity_in(200, body).unwrap();
    assert_eq!(i.profile_id.unwrap(), "p-1");
    assert_eq!(i.name_on_platform.unwrap(), "Zoë");
    assert!(identity_in(401, body).is_none());
    assert!(identity_in(200, "<html>").is_none());
    let i = identity_in(200, "{\"profileId\":7}").unwrap();
    assert!(i.profile_id.is_none() && i.name_on_platform.is_none());
}

#[test]
fn an_identity_is_taken_or_filled_in() {
    let who = || Identity {
        profile_id: Some("new".to_string()),
        name_on_platform: Some("New".to_string()),
    };
    let mut a = Auth::default();
    a.profile_id = "old".to_string();
    assert!(lacks_identity(&a));
    fill_identity(&mut a, who());
    assert_eq!((a.profile_id.as_str(), a.name_on_platform.as_str()), ("old", "New"));
    assert!(!lacks_identity(&a));
    take_identity(&mut a, who());
    assert_eq!(a.profile_id, "new");
    take_identity(&mut a, Identity { profile_id: None, name_on_platform: None });
    assert_eq!(a.name_on_platform, "New");
}
