use optima::webauth_capture::{
    answerable, body_complete, content_length, extract_ticket, find_subslice, form_field, handle,
    login_url, names_ticket, request_complete, short_ticket_text, sign_in_page, start_url,
    try_handle, Action, FORM_PAGE, SIGNED_IN_PAGE,
};

fn post(path: &str, body: &str) -> Vec<u8> {
    format!("POST {path} HTTP/1.1\r\nContent-Length: {}\r\n\r\n{body}", body.len()).into_bytes()
}

#[test]
fn bytes_are_searched_from_the_front() {
    assert_eq!(find_subslice(b"xx\r\n\r\nyy\r\n\r\n", b"\r\n\r\n"), Some(2));
    assert_eq!(find_subslice(b"abc", b"abcd"), None);
}

#[test]
fn the_length_of_a_body_is_read_from_its_header() {
    assert_eq!(content_length("POST / HTTP/1.1\r\ncontent-LENGTH:  12 \r\nHost: x"), 12);
    assert_eq!(content_length("POST / HTTP/1.1\r\nHost: x"), 0);
    assert_eq!(content_length("Content-Length: many"), 0);
    assert!(body_complete(12, "Content-Length: 12"));
    assert!(!body_complete(11, "Content-Length: 12"));
}

#[test]
fn a_request_is_whole_with_its_body() {
    let r = post("/ticket", "ticket=abc");
    assert!(request_complete(&r));
    assert!(!request_complete(&r[..r.len() - 1]));
    assert!(!request_complete(b"GET / HTTP/1.1\r\n"));
    assert!(request_complete(&vec![b'x'; 1_048_577]));
    assert!(!request_complete(&vec![b'x'; 1_048_576]));
}

#[test]
fn a_form_delivers_what_was_entered() {
    let r = post("/profile", "email=me%40x.y&password=p%26ss+w%C3%BCrd&other=1");
    let (reply, action) = handle(&r, "https://login/");
    let reply = reply.unwrap();
    assert_eq!(reply.status, "200 OK");
    assert_eq!(reply.body, "ok");
    match action {
        Action::Profile { email, password } => {
            assert_eq!(email, "me@x.y");
            assert_eq!(password, "p&ss würd");
        }
        other => panic!("{other:?}"),
    }
    assert_eq!(form_field("a=1&b=2&a=3", "a"), "3");
    assert_eq!(form_field("b=2", "a"), "");
}

#[test]
fn a_long_ticket_is_taken() {
    let t = "t".repeat(40);
    let (reply, action) = handle(&post("/ticket", &format!("ticket=%20{t}+")), "");
    assert_eq!(reply.unwrap().status, "200 OK");
    match action {
        Action::Ticket(x) => assert_eq!(x, t),
        other => panic!("{other:?}"),
    }
}

#[test]
fn a_short_ticket_is_refused() {
    let t = "t".repeat(39);
    let (reply, action) = handle(&post("/ticket", &format!("ticket={t}")), "");
    let reply = reply.unwrap();
    assert_eq!(reply.status, "400 Bad Request");
    assert_eq!(reply.body, "no ticket");
    assert!(matches!(action, Action::Served));
    let text = |body: &str| {
        short_ticket_text(std::str::from_utf8(&post("/ticket", body)).unwrap())
    };
    assert_eq!(
        text(&format!("ticket=+{t}")).unwrap(),
        "[login] /ticket POST but body had no usable ticket (len=39)"
    );
    assert_eq!(text(&format!("ticket={t}t")), None);
    assert_eq!(text("ticket=%aü"), None);
    assert_eq!(short_ticket_text("GET /ticket HTTP/1.1\r\n\r\n"), None);
}

#[test]
fn a_redirect_back_carries_the_ticket() {
    let t = "t".repeat(37);
    let request = format!("GET /back?x=1;TOKEN={t}%3D HTTP/1.1\r\n\r\n");
    let (reply, action) = handle(request.as_bytes(), "");
    assert_eq!(reply.unwrap().body, SIGNED_IN_PAGE);
    match action {
        Action::Ticket(x) => assert_eq!(x, format!("{t}=")),
        other => panic!("{other:?}"),
    }
    let (reply, action) = handle(b"GET /back HTTP/1.1\r\n\r\n", "");
    assert!(reply.unwrap().body.contains("location.hash"));
    assert!(matches!(action, Action::Served));
}

#[test]
fn names_that_a_redirect_uses_for_a_ticket() {
    for k in ["ticket", "token", "t", "code", "id_token", "access_token"] {
        assert!(names_ticket(k));
    }
    assert!(!names_ticket("session"));
    let t = "z".repeat(40);
    assert_eq!(extract_ticket(&format!("/back?t=short&code={t}")), Some(t.clone()));
    assert_eq!(extract_ticket(&format!("/back?ticket={}", &t[1..])), None);
    assert_eq!(extract_ticket(&format!("/back?other={t}")), None);
    assert_eq!(extract_ticket("/back"), None);
}

#[test]
fn anything_else_is_answered_with_the_page() {
    let (reply, action) = handle(b"GET /favicon.ico HTTP/1.1\r\n\r\n", "https://login/?a=<b>");
    let reply = reply.unwrap();
    assert!(matches!(action, Action::Served));
    assert_eq!(reply.content_type, "text/html; charset=utf-8");
    assert_eq!(reply.body, sign_in_page("https://login/?a=<b>"));
    assert!(reply.body.contains("\"https://login/?a=\\u003cb\\u003e\""));
    assert!(!reply.body.contains("__APP_ID__") && FORM_PAGE.contains("__APP_ID__"));
}

#[test]
fn an_empty_request_is_not_answered() {
    let (reply, action) = handle(b"", "");
    assert!(reply.is_none());
    assert!(matches!(action, Action::Served));
}

#[test]
fn a_request_that_parts_a_character_is_not_handled() {
    let r = post("/ticket", "ticket=%aü");
    assert!(!answerable(std::str::from_utf8(&r).unwrap()));
    assert!(try_handle(&r, "").is_none());
    assert!(try_handle(&post("/ticket", "ticket=%aa"), "").is_some());
}

#[test]
fn a_reply_on_the_wire() {
    let (reply, _) = handle(&post("/profile", ""), "");
    assert_eq!(
        reply.unwrap().wire_text(),
        "HTTP/1.1 200 OK\r\nContent-Type: text/plain\r\nContent-Length: 2\r\nConnection: close\r\n\r\nok"
    );
}

#[test]
fn the_addresses_of_the_sign_in() {
    assert_eq!(start_url(), "https://localhost.ubisoft.com:31034/");
    assert_eq!(
        login_url(),
        "https://connect.ubisoft.com/login?appId=f35adcb5-1911-440c-b1c9-48fdc1701c68\
         &genomeId=5b36b900-65d8-47f3-93c8-86bdaa48ab50&lang=en-US&nextUrl=https%3A%2F%2F\
         connect.ubisoft.com%2Flogged-in.html%3FappId%3Df35adcb5-1911-440c-b1c9-48fdc1701c68\
         %26lang%3Den-US%26genomeId%3D5b36b900-65d8-47f3-93c8-86bdaa48ab50"
    );
}
