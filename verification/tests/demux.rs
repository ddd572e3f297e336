use optima::demux::{
    asks_for_manifests, authenticate_request, authenticated, client_version, frame, frame_len,
    frame_payload, initialize_request, latest_manifest, latest_manifests, latest_manifests_request,
    no_answer_text, no_response_text, open_connection_request, opened, owned_games,
    ownership_token, ownership_token_request, read_response, read_service_answer, service_message,
    unframe, uplay_pc_ticket, uplay_pc_ticket_request, AuthenticateRsp, DataMessage, Downstream,
    InitializeRsp, OpenConnectionRsp, OwnershipReq, ProductManifest, RequestIds, Rsp,
    UplayPcTicketRsp, Upstream, RESPONSE_FRAMES, SERVICE_FRAMES,
};

fn rsp(request_id: u32) -> Rsp {
    Rsp { request_id, authenticate_rsp: None, open_connection_rsp: None }
}

fn answer(request_id: u32) -> Downstream {
    Downstream { response: Some(rsp(request_id)), data: None }
}

fn push(connection_id: u32, data: &[u8]) -> Downstream {
    Downstream { response: None, data: Some(DataMessage { connection_id, data: data.to_vec() }) }
}

fn manifest(product_id: u32, m: Option<&str>) -> ProductManifest {
    ProductManifest { product_id, manifest: m.map(String::from) }
}

#[test]
fn the_length_comes_first_and_its_highest_byte_first() {
    let body = vec![7u8; 0x010203];
    let f = frame(&body).unwrap();
    assert_eq!(&f[..4], &[0, 1, 2, 3]);
    assert_eq!(&f[4..], &body[..]);
    assert_eq!(frame_len([0, 1, 2, 3]), 0x010203);
    assert_eq!(frame_len([255, 255, 255, 255]), u32::MAX);
}

#[test]
fn a_frame_gives_its_message_back() {
    for body in [&b""[..], b"x", b"hello"] {
        assert_eq!(unframe(&frame_payload(body)), body);
    }
    assert_eq!(unframe(b"abc"), b"abc");
    assert_eq!(unframe(b"abcd"), b"");
}

#[test]
fn request_ids_count_up() {
    let mut ids = RequestIds::new();
    assert_eq!(ids.request_id(), 1);
    assert_eq!(ids.request_id(), 2);
    assert_eq!(ids.next_request_id, 3);
}

#[test]
fn messages_to_the_server() {
    assert!(matches!(client_version(), Upstream::ClientVersion { version: 13247 }));
    match authenticate_request(4, "tick") {
        Upstream::Authenticate { request_id, ubi_ticket, client_id, send_keep_alive } => {
            assert_eq!(request_id, 4);
            assert_eq!(ubi_ticket, "tick");
            assert_eq!(client_id, "uplay_pc");
            assert!(!send_keep_alive);
        }
        other => panic!("{other:?}"),
    }
    match open_connection_request(5, "ownership_service") {
        Upstream::OpenConnection { request_id, service_name } => {
            assert_eq!((request_id, service_name.as_str()), (5, "ownership_service"));
        }
        other => panic!("{other:?}"),
    }
    match service_message(9, b"ab") {
        Upstream::Data(m) => {
            assert_eq!(m.connection_id, 9);
            assert_eq!(m.data, vec![0, 0, 0, 2, b'a', b'b']);
        }
        other => panic!("{other:?}"),
    }
}

#[test]
fn other_answers_and_pushes_are_passed_over() {
    let mut left = RESPONSE_FRAMES;
    assert_eq!(left, 32);
    assert!(read_response(&mut left, 7, answer(6)).is_none());
    assert!(read_response(&mut left, 7, push(7, b"x")).is_none());
    assert_eq!(read_response(&mut left, 7, answer(7)).unwrap().request_id, 7);
    assert_eq!(left, 29);
    assert_eq!(no_response_text(7), "no response for request 7 after 32 frames");
}

#[test]
fn a_service_answers_on_its_connection() {
    let mut left = SERVICE_FRAMES;
    assert!(read_service_answer(&mut left, 3, answer(3)).is_none());
    assert!(read_service_answer(&mut left, 3, push(4, b"....no")).is_none());
    assert_eq!(read_service_answer(&mut left, 3, push(3, b"....yes")).unwrap(), b"yes");
    assert_eq!(read_service_answer(&mut left, 3, push(3, b"abc")).unwrap(), b"abc");
    assert_eq!(left, 12);
    assert_eq!(no_answer_text(3), "no data response on connection 3");
}

#[test]
fn the_first_push_on_a_connection_is_the_answer() {
    let await_answer = |frames: Vec<Downstream>| {
        let mut left = SERVICE_FRAMES;
        for f in frames {
            if left == 0 {
                return None;
            }
            if let Some(b) = read_service_answer(&mut left, 3, f) {
                return Some(b);
            }
        }
        None
    };
    let mut frames: Vec<Downstream> = (0..15).map(|i| push(4 + i, b"....no")).collect();
    frames.push(push(3, b"....first"));
    frames.push(push(3, b"....second"));
    assert_eq!(await_answer(frames).unwrap(), b"first");
    let mut frames: Vec<Downstream> = (0..16).map(answer).collect();
    frames.push(push(3, b"....late"));
    assert_eq!(await_answer(frames), None);
}

#[test]
fn a_client_is_let_in_or_not() {
    let with = |a| Rsp { request_id: 1, authenticate_rsp: a, open_connection_rsp: None };
    let a = AuthenticateRsp { success: true, expired: None, banned: None };
    assert!(authenticated(with(Some(a))).is_ok());
    let a = AuthenticateRsp { success: false, expired: Some(true), banned: None };
    assert_eq!(
        authenticated(with(Some(a))).unwrap_err(),
        "authentication failed (expired=Some(true), banned=None) — re-run `optima-cli login`"
    );
    assert_eq!(authenticated(with(None)).unwrap_err(), "no authenticate_rsp in response");
}

#[test]
fn a_connection_is_opened_or_not() {
    let with = |o| Rsp { request_id: 1, authenticate_rsp: None, open_connection_rsp: o };
    let ok = OpenConnectionRsp { success: true, connection_id: 12 };
    assert_eq!(opened(with(Some(ok)), "s"), Ok(12));
    let no = OpenConnectionRsp { success: false, connection_id: 12 };
    assert_eq!(opened(with(Some(no)), "s").unwrap_err(), "service s refused the connection");
    assert_eq!(opened(with(None), "s").unwrap_err(), "no open_connection_rsp for s");
}

#[test]
fn requests_to_the_ownership_service() {
    assert!(matches!(
        initialize_request(),
        OwnershipReq::Initialize { request_id: 1, get_associations: true }
    ));
    assert!(asks_for_manifests(&[1, 2]));
    assert!(!asks_for_manifests(&[]));
    match latest_manifests_request(vec![1, 2]) {
        OwnershipReq::LatestManifests { request_id: 2, product_ids } => {
            assert_eq!(product_ids, vec![1, 2]);
        }
        other => panic!("{other:?}"),
    }
    assert!(matches!(
        uplay_pc_ticket_request(8),
        OwnershipReq::UplayPcTicket { request_id: 2, uplay_id: 8 }
    ));
    assert!(matches!(
        ownership_token_request(9),
        OwnershipReq::OwnershipToken { request_id: 2, product_id: 9 }
    ));
}

#[test]
fn the_catalog_in_an_answer() {
    assert_eq!(owned_games(None).unwrap_err(), "no initialize_rsp from ownership_service");
    let no = InitializeRsp { success: false, owned_games: None };
    assert_eq!(owned_games(Some(no)).unwrap_err(), "ownership initialize returned success=false");
    let none = InitializeRsp { success: true, owned_games: None };
    assert_eq!(owned_games(Some(none)).unwrap().len(), 0);
}

#[test]
fn the_manifest_of_one_product() {
    let l = Some(vec![
        manifest(1, Some("a")),
        manifest(2, Some("")),
        manifest(3, None),
        manifest(2, Some("late")),
    ]);
    assert_eq!(latest_manifest(&l, 1), Some("a".to_string()));
    assert_eq!(latest_manifest(&l, 2), None);
    assert_eq!(latest_manifest(&l, 3), None);
    assert_eq!(latest_manifest(&l, 4), None);
    assert_eq!(latest_manifest(&None, 1), None);
}

#[test]
fn only_products_with_a_build_are_resolved() {
    let l = Some(vec![
        manifest(1, Some("a")),
        manifest(2, Some("")),
        manifest(3, None),
        manifest(1, Some("b")),
        manifest(1, None),
    ]);
    let m = latest_manifests(&l);
    assert_eq!(m.len(), 1);
    assert_eq!(m[&1], "b");
    assert!(latest_manifests(&None).is_empty());
}

#[test]
fn tickets_and_tokens_in_an_answer() {
    let t = |success| UplayPcTicketRsp { success, uplay_pc_ticket: Some("t".to_string()) };
    assert_eq!(uplay_pc_ticket(Some(t(true))), Some("t".to_string()));
    assert_eq!(uplay_pc_ticket(Some(t(false))), None);
    assert_eq!(uplay_pc_ticket(None), None);
    assert_eq!(ownership_token(Some("k".to_string()), 1), Ok("k".to_string()));
    assert_eq!(ownership_token(None, 720).unwrap_err(), "no ownership token for product 720");
}
