use optima::config::Auth;
use optima::session::{
    after_exchange, after_renewal, check_lines, logged_in_text, login_path, refreshed_text,
    shown_config, signed_in_text, stored_lines, stored_session, AfterExchange, LoginPath, Stored,
};

fn auth(ticket: &str, remember: &str) -> Auth {
    let mut a = Auth::of_ticket(ticket);
    a.remember_me_ticket = remember.to_string();
    a
}

#[test]
fn what_becomes_of_the_stored_session() {
    assert_eq!(stored_session(None, true), Stored::NotLoggedIn);
    assert_eq!(stored_session(Some(&auth("", "rm")), true), Stored::NoTicket);
    assert_eq!(stored_session(Some(&auth("t", "rm")), true), Stored::Renew);
    assert_eq!(stored_session(Some(&auth("t", "")), true), Stored::Use);
    assert_eq!(stored_session(Some(&auth("t", "rm")), false), Stored::Use);
    assert_eq!(after_renewal(auth("old", ""), Some(auth("new", ""))).ticket, "new");
    assert_eq!(after_renewal(auth("old", ""), None).ticket, "old");
}

#[test]
fn a_refused_exchange_is_made_once_more() {
    let a = auth("t", "rm");
    match after_exchange(Some("x".to_string()), &a, false) {
        AfterExchange::Connect(t) => assert_eq!(t, "x"),
        other => panic!("{other:?}"),
    }
    assert!(matches!(after_exchange(None, &a, false), AfterExchange::Renew));
    assert!(matches!(after_exchange(None, &a, true), AfterExchange::Fail));
    assert!(matches!(after_exchange(None, &auth("t", ""), false), AfterExchange::Fail));
}

#[test]
fn ways_to_log_in() {
    let s = |x: &str| Some(x.to_string());
    match login_path(s("e"), s("p"), s("tick"), s("sid")) {
        LoginPath::Ticket(a) => {
            assert_eq!((a.ticket.as_str(), a.session_id.as_str()), ("tick", "sid"));
        }
        other => panic!("{other:?}"),
    }
    match login_path(None, None, s("tick"), None) {
        LoginPath::Ticket(a) => assert_eq!(a.session_id, ""),
        other => panic!("{other:?}"),
    }
    assert!(matches!(login_path(None, None, None, s("sid")), LoginPath::Browser));
    match login_path(s("e"), None, None, None) {
        LoginPath::Password { email, password } => {
            assert_eq!((email, password), (s("e"), None));
        }
        other => panic!("{other:?}"),
    }
}

#[test]
fn what_is_said_after_a_login() {
    let mut a = auth("t", "");
    a.profile_id = "pid".to_string();
    assert_eq!(logged_in_text(&a), "Logged in as <unknown> (profileId pid)");
    assert_eq!(
        signed_in_text(&a),
        "Signed in — ticket + credentials captured. Run `optima-cli list-games`."
    );
    a.name_on_platform = "Me".to_string();
    assert_eq!(logged_in_text(&a), "Logged in as Me (profileId pid)");
    assert_eq!(
        signed_in_text(&a),
        "Signed in as Me — ticket + credentials captured. Run `optima-cli list-games`."
    );
    a.expiration = "soon".to_string();
    assert_eq!(refreshed_text(&a), "Session refreshed (new expiration soon).");
}

#[test]
fn what_is_said_of_a_session() {
    let mut a = auth("t", "");
    a.name_on_platform = "Me".to_string();
    a.profile_id = "pid".to_string();
    a.expiration = "then".to_string();
    assert_eq!(
        stored_lines(&a, true),
        vec![
            "Stored session:",
            "  name:       Me",
            "  profileId:  pid",
            "  expiration: then (EXPIRED)",
        ]
    );
    assert_eq!(stored_lines(&a, false)[3], "  expiration: then (valid)");
}

#[test]
fn what_is_said_of_a_check() {
    assert_eq!(check_lines(200, "200 OK", "x", true), vec!["  live check: OK (200 OK)"]);
    let body = "ä".repeat(301);
    let l = check_lines(401, "401 Unauthorized", &body, true);
    assert_eq!(l[0], "  live check: FAILED (401 Unauthorized)");
    assert_eq!(l[1], format!("  response:   {}", "ä".repeat(300)));
    assert_eq!(l[2], "  hint: session expired — run `optima-cli refresh`.");
    assert_eq!(check_lines(401, "x", "short", false), vec!["  live check: FAILED (x)", "  response:   short"]);
}

#[test]
fn a_configuration_is_shown_where_there_is_one() {
    assert_eq!(shown_config(Some("a: b")), Some("a: b"));
    assert_eq!(shown_config(Some("")), None);
    assert_eq!(shown_config(None), None);
}
