use optima::browser_login::{extract_ticket, read_paste, read_ticket_from_request, Paste};

fn some(s: &str) -> Option<String> {
    Some(s.to_string())
}

#[test]
fn a_pasted_header_gives_its_ticket() {
    assert_eq!(extract_ticket("Authorization: ubi_v1 t=abc.def"), some("abc.def"));
    assert_eq!(extract_ticket("  UBI_V1 T=abc; path=/ "), some("abc"));
    assert_eq!(extract_ticket("Grüße İ ubi_v1 t=abc'x"), some("abc"));
}

#[test]
fn an_address_gives_the_ticket_in_its_query() {
    assert_eq!(extract_ticket("https://x/?a=1&Ticket= abc &t=no"), some("abc"));
    assert_eq!(extract_ticket("http://x/?token=&t=yes"), some("yes"));
    assert_eq!(extract_ticket("https://x/?state=abc"), None);
}

#[test]
fn an_empty_marker_is_passed_over() {
    assert_eq!(extract_ticket("/?x=ubi_v1 t= &token=abc"), some("abc"));
}

#[test]
fn a_bare_token_is_long_and_in_one_piece() {
    let t = "x".repeat(31);
    assert_eq!(extract_ticket(&format!(" {t}\n")), Some(t.clone()));
    assert_eq!(extract_ticket(&t[1..]), None);
    assert_eq!(extract_ticket(&format!("{t} {t}")), None);
    assert_eq!(extract_ticket(&format!("http{t}")), None);
}

#[test]
fn lines_on_the_terminal() {
    assert!(matches!(read_paste(""), Paste::Ended));
    assert!(matches!(read_paste(" \n"), Paste::Blank));
    assert!(matches!(read_paste("nothing\n"), Paste::Unrecognized));
    match read_paste("ubi_v1 t=abc\n") {
        Paste::Ticket(t) => assert_eq!(t, "abc"),
        other => panic!("{other:?}"),
    }
}

#[test]
fn a_redirect_gives_the_ticket_of_its_request_line() {
    let r = read_ticket_from_request(b"GET /auth?token=XYZ HTTP/1.1\r\nHost: x\r\n\r\n");
    assert_eq!(r, Some(some("XYZ")));
    assert_eq!(read_ticket_from_request(b"GET / HTTP/1.1\r\n\r\n"), Some(None));
    assert_eq!(read_ticket_from_request(b""), None);
    assert_eq!(read_ticket_from_request(b"GET /?t=\xff HTTP/1.1\r\n"), Some(some("\u{fffd}")));
}
