//! The Demux protocol: how messages are framed, which frame answers a request,
//! and what the ownership service's replies mean.
//!
//! Each message is preceded by its length as four bytes, the most significant
//! first. A service's own messages travel inside data messages, framed in the
//! same way once more. The server sends keep-alive, version and product pushes
//! between its answers.
use std::collections::HashMap;

use vstd::prelude::*;

use crate::text::{decimal, decimal_of, opt_text};

verus! {

/// The host of the service.
pub const DEMUX_HOST: &'static str = "dmx.upc.ubisoft.com";

/// Its port.
pub const DEMUX_PORT: u16 = 443;

/// The client id that the PC launcher authenticates as.
pub const CLIENT_ID: &'static str = "uplay_pc";

/// The launcher build that is reported as the first message of a connection. The
/// server drops a client whose build is too old.
pub const API_VERSION: u32 = 13247;

/// The service that knows what an account owns.
pub const OWNERSHIP_SERVICE: &'static str = "ownership_service";

/// The service that signs download addresses.
pub const DOWNLOAD_SERVICE: &'static str = "download_service";

/// How many frames a response is waited for.
pub const RESPONSE_FRAMES: u32 = 32;

/// How many frames a service's answer is waited for.
pub const SERVICE_FRAMES: u32 = 16;

// ---------------------------------------------------------------------------
// Framing
// ---------------------------------------------------------------------------

/// A number as four bytes, the most significant first.
pub open spec fn be_bytes(n: int) -> Seq<u8> {
    seq![
        (n / 0x100_0000 % 0x100) as u8,
        (n / 0x1_0000 % 0x100) as u8,
        (n / 0x100 % 0x100) as u8,
        (n % 0x100) as u8,
    ]
}

/// The number that four bytes stand for.
pub open spec fn be_value(b: Seq<u8>) -> int {
    b[0] * 0x100_0000 + b[1] * 0x1_0000 + b[2] * 0x100 + b[3]
}

/// A message behind its length.
pub open spec fn framed(body: Seq<u8>) -> Seq<u8> {
    be_bytes(body.len() as int) + body
}

/// A service's message without its length.
pub open spec fn unframed(data: Seq<u8>) -> Seq<u8> {
    if data.len() >= 4 {
        data.skip(4)
    } else {
        data
    }
}

/// The bytes of a length, modulo what four bytes hold.
fn push_len(out: &mut Vec<u8>, n: usize)
    ensures
        final(out)@ == old(out)@ + be_bytes(n as int),
{
    let n = n as u64;
    out.push((n / 0x100_0000 % 0x100) as u8);
    out.push((n / 0x1_0000 % 0x100) as u8);
    out.push((n / 0x100 % 0x100) as u8);
    out.push((n % 0x100) as u8);
}

/// Puts its length in front of a service's message.
pub fn frame_payload(payload: &[u8]) -> (r: Vec<u8>)
    ensures
        r@ == framed(payload@),
{
    let mut r: Vec<u8> = Vec::new();
    push_len(&mut r, payload.len());
    r.extend_from_slice(payload);
    r
}

/// Puts its length in front of a message, where four bytes hold it.
pub fn frame(body: &[u8]) -> (r: Option<Vec<u8>>)
    ensures
        match r {
            Some(f) => body@.len() <= u32::MAX && f@ == framed(body@),
            None => body@.len() > u32::MAX,
        },
{
    if body.len() as u64 > 0xffff_ffffu64 {
        None
    } else {
        Some(frame_payload(body))
    }
}

/// The length of the message behind these four bytes.
pub fn frame_len(b: [u8; 4]) -> (r: u32)
    ensures
        r == be_value(b@),
{
    b[0] as u32 * 0x100_0000 + b[1] as u32 * 0x1_0000 + b[2] as u32 * 0x100 + b[3] as u32
}

/// Takes the length off a service's message.
pub fn unframe(data: &[u8]) -> (r: Vec<u8>)
    ensures
        r@ == unframed(data@),
{
    let mut r: Vec<u8> = Vec::new();
    let from: usize = if data.len() >= 4 {
        4
    } else {
        0
    };
    let mut i: usize = from;
    while i < data.len()
        invariant
            from <= i <= data.len(),
            r@ == data@.subrange(from as int, i as int),
        decreases data.len() - i,
    {
        r.push(data[i]);
        i += 1;
    }
    assert(r@ == data@.skip(from as int));
    r
}

proof fn lemma_be_digits(n: int)
    requires
        0 <= n <= u32::MAX,
    ensures
        be_value(be_bytes(n)) == n,
{
    let q1 = n / 0x100;
    let q2 = q1 / 0x100;
    let q3 = q2 / 0x100;
    assert(n / 0x1_0000 == q2) by {
        vstd::arithmetic::div_mod::lemma_div_denominator(n, 0x100, 0x100);
    }
    assert(n / 0x100_0000 == q3) by {
        vstd::arithmetic::div_mod::lemma_div_denominator(n, 0x1_0000, 0x100);
    }
    assert(n == 0x100 * q1 + n % 0x100);
    assert(q1 == 0x100 * q2 + q1 % 0x100);
    assert(q2 == 0x100 * q3 + q2 % 0x100);
    assert(0 <= q3 < 0x100);
    assert(q3 % 0x100 == q3);
    let b = be_bytes(n);
    assert(b[0] == q3 && b[1] == q2 % 0x100 && b[2] == q1 % 0x100 && b[3] == n % 0x100);
}

/// A frame gives its message back: the length in front of it is the message's,
/// and what follows is the message.
pub proof fn law_frame_round_trip(body: Seq<u8>)
    requires
        body.len() <= u32::MAX,
    ensures
        be_value(framed(body).take(4)) == body.len(),
        framed(body).skip(4) == body,
        unframed(framed(body)) == body,
{
    let n = body.len() as int;
    lemma_be_digits(n);
    assert(framed(body).take(4) =~= be_bytes(n));
    assert(framed(body).skip(4) =~= body);
}

// ---------------------------------------------------------------------------
// Messages
// ---------------------------------------------------------------------------

/// The request ids of a connection, which count up from one.
#[derive(Debug)]
pub struct RequestIds {
    pub next_request_id: u32,
}

impl RequestIds {
    /// The ids of a fresh connection.
    pub fn new() -> (r: RequestIds)
        ensures
            r.next_request_id == 1,
    {
        RequestIds { next_request_id: 1 }
    }

    /// The next id.
    pub fn request_id(&mut self) -> (id: u32)
        requires
            old(self).next_request_id < u32::MAX,
        ensures
            id == old(self).next_request_id,
            final(self).next_request_id == old(self).next_request_id + 1,
    {
        let id = self.next_request_id;
        self.next_request_id = self.next_request_id + 1;
        id
    }
}

/// A message of a service on one of its connections.
#[derive(Debug)]
pub struct DataMessage {
    pub connection_id: u32,
    pub data: Vec<u8>,
}

/// A message to the server.
#[derive(Debug)]
pub enum Upstream {
    /// The launcher build, which comes first.
    ClientVersion { version: u32 },
    /// Who is connecting.
    Authenticate {
        request_id: u32,
        ubi_ticket: String,
        client_id: String,
        send_keep_alive: bool,
    },
    /// Asks for a connection to a service.
    OpenConnection { request_id: u32, service_name: String },
    /// A message to a service.
    Data(DataMessage),
}

/// The message that has to be the first on a connection.
pub fn client_version() -> (r: Upstream)
    ensures
        r == (Upstream::ClientVersion { version: API_VERSION }),
{
    Upstream::ClientVersion { version: API_VERSION }
}

/// Authenticates a connection with a session ticket.
pub fn authenticate_request(request_id: u32, ticket: &str) -> (r: Upstream)
    ensures
        r matches Upstream::Authenticate {
            request_id: id,
            ubi_ticket,
            client_id,
            send_keep_alive,
        } && id == request_id && ubi_ticket@ == ticket@ && client_id@ == CLIENT_ID@
            && !send_keep_alive,
{
    Upstream::Authenticate {
        request_id,
        ubi_ticket: ticket.to_owned(),
        client_id: CLIENT_ID.to_owned(),
        send_keep_alive: false,
    }
}

/// Asks for a connection to a service.
pub fn open_connection_request(request_id: u32, service_name: &str) -> (r: Upstream)
    ensures
        r matches Upstream::OpenConnection { request_id: id, service_name: name } && id
            == request_id && name@ == service_name@,
{
    Upstream::OpenConnection { request_id, service_name: service_name.to_owned() }
}

/// A message to the service behind a connection.
pub fn service_message(connection_id: u32, payload: &[u8]) -> (r: Upstream)
    ensures
        r matches Upstream::Data(m) && m.connection_id == connection_id && m.data@ == framed(
            payload@,
        ),
{
    Upstream::Data(DataMessage { connection_id, data: frame_payload(payload) })
}

/// The answer to an authentication.
#[derive(Clone, Copy, Debug, PartialEq, Eq, Structural)]
pub struct AuthenticateRsp {
    pub success: bool,
    pub expired: Option<bool>,
    pub banned: Option<bool>,
}

/// The answer to a request for a connection.
#[derive(Clone, Copy, Debug, PartialEq, Eq, Structural)]
pub struct OpenConnectionRsp {
    pub success: bool,
    pub connection_id: u32,
}

/// The answer to the request `request_id`.
#[derive(Debug)]
pub struct Rsp {
    pub request_id: u32,
    pub authenticate_rsp: Option<AuthenticateRsp>,
    pub open_connection_rsp: Option<OpenConnectionRsp>,
}

/// A message from the server: an answer, or a push, which may be a message of a
/// service.
#[derive(Debug)]
pub struct Downstream {
    pub response: Option<Rsp>,
    pub data: Option<DataMessage>,
}

// ---------------------------------------------------------------------------
// Waiting for an answer
// ---------------------------------------------------------------------------

/// The answer to the request `request_id` in a frame.
pub open spec fn response_in(down: Downstream, request_id: u32) -> Option<Rsp> {
    match down.response {
        Some(rsp) => if rsp.request_id == request_id {
            Some(rsp)
        } else {
            None
        },
        None => None,
    }
}

/// Takes one frame while waiting for the answer to `request_id`; `left` counts
/// the frames that are still waited for.
pub fn read_response(left: &mut u32, request_id: u32, down: Downstream) -> (r: Option<Rsp>)
    requires
        *old(left) > 0,
    ensures
        *final(left) == *old(left) - 1,
        r == response_in(down, request_id),
{
    *left = *left - 1;
    if let Some(rsp) = down.response {
        if rsp.request_id == request_id {
            return Some(rsp);
        }
    }
    None
}

/// The answer of a service in a frame.
pub open spec fn service_answer_in(down: Downstream, connection_id: u32) -> Option<Seq<u8>> {
    match down.data {
        Some(m) => if m.connection_id == connection_id {
            Some(unframed(m.data@))
        } else {
            None
        },
        None => None,
    }
}

/// Takes one frame while waiting for a service's answer on `connection_id`;
/// `left` counts the frames that are still waited for.
pub fn read_service_answer(left: &mut u32, connection_id: u32, down: Downstream) -> (r: Option<
    Vec<u8>,
>)
    requires
        *old(left) > 0,
    ensures
        *final(left) == *old(left) - 1,
        match r {
            Some(b) => service_answer_in(down, connection_id) == Some(b@),
            None => service_answer_in(down, connection_id) is None,
        },
{
    *left = *left - 1;
    if let Some(m) = down.data {
        if m.connection_id == connection_id {
            return Some(unframe(m.data.as_slice()));
        }
    }
    None
}

/// Where waiting with `left` frames to go ends: with the first answer among
/// `frames`, or without one.
pub open spec fn awaited(frames: Seq<Downstream>, request_id: u32, left: int) -> Option<Rsp>
    decreases left,
{
    if left <= 0 || frames.len() == 0 {
        None
    } else {
        match response_in(frames[0], request_id) {
            Some(rsp) => Some(rsp),
            None => awaited(frames.skip(1), request_id, left - 1),
        }
    }
}

/// Pushes and answers to other requests are passed over: the answer that comes
/// first is found, if there are fewer frames before it than are waited for.
pub proof fn law_interleaved_frames_are_skipped(
    frames: Seq<Downstream>,
    request_id: u32,
    left: int,
    at: int,
)
    requires
        0 <= at < frames.len(),
        at < left,
        response_in(frames[at], request_id) is Some,
        forall|i: int| 0 <= i < at ==> response_in(#[trigger] frames[i], request_id) is None,
    ensures
        awaited(frames, request_id, left) == response_in(frames[at], request_id),
        awaited(frames, request_id, left) matches Some(rsp) && rsp.request_id == request_id,
    decreases at,
{
    if at > 0 {
        assert(frames.skip(1)[at - 1] == frames[at]);
        assert forall|i: int| 0 <= i < at - 1 implies response_in(
            #[trigger] frames.skip(1)[i],
            request_id,
        ) is None by {
            assert(frames.skip(1)[i] == frames[i + 1]);
        }
        law_interleaved_frames_are_skipped(frames.skip(1), request_id, left - 1, at - 1);
    }
}

/// Without an answer among the frames that are waited for, none is found.
pub proof fn law_unanswered_request_is_given_up(
    frames: Seq<Downstream>,
    request_id: u32,
    left: int,
)
    requires
        forall|i: int|
            0 <= i < frames.len() && i < left ==> response_in(#[trigger] frames[i], request_id) is None,
    ensures
        awaited(frames, request_id, left) is None,
    decreases left,
{
    if left > 0 && frames.len() > 0 {
        assert(response_in(frames[0], request_id) is None);
        assert forall|i: int| 0 <= i < frames.skip(1).len() && i < left - 1 implies response_in(
            #[trigger] frames.skip(1)[i],
            request_id,
        ) is None by {
            assert(frames.skip(1)[i] == frames[i + 1]);
        }
        law_unanswered_request_is_given_up(frames.skip(1), request_id, left - 1);
    }
}

/// Where waiting for a service with `left` frames to go ends: with the first answer
/// on the connection among `frames`, or without one.
pub open spec fn service_awaited(
    frames: Seq<Downstream>,
    connection_id: u32,
    left: int,
) -> Option<Seq<u8>>
    decreases left,
{
    if left <= 0 || frames.len() == 0 {
        None
    } else {
        match service_answer_in(frames[0], connection_id) {
            Some(b) => Some(b),
            None => service_awaited(frames.skip(1), connection_id, left - 1),
        }
    }
}

proof fn lemma_service_answer(
    frames: Seq<Downstream>,
    connection_id: u32,
    left: int,
    at: int,
)
    requires
        0 <= at < frames.len(),
        at < left,
        service_answer_in(frames[at], connection_id) is Some,
        forall|i: int|
            0 <= i < at ==> service_answer_in(#[trigger] frames[i], connection_id) is None,
    ensures
        service_awaited(frames, connection_id, left) == service_answer_in(frames[at], connection_id),
    decreases at,
{
    if at > 0 {
        assert(frames.skip(1)[at - 1] == frames[at]);
        assert forall|i: int| 0 <= i < at - 1 implies service_answer_in(
            #[trigger] frames.skip(1)[i],
            connection_id,
        ) is None by {
            assert(frames.skip(1)[i] == frames[i + 1]);
        }
        lemma_service_answer(frames.skip(1), connection_id, left - 1, at - 1);
    }
}

proof fn lemma_no_service_answer(frames: Seq<Downstream>, connection_id: u32, left: int)
    requires
        forall|i: int|
            0 <= i < frames.len() && i < left ==> service_answer_in(
                #[trigger] frames[i],
                connection_id,
            ) is None,
    ensures
        service_awaited(frames, connection_id, left) is None,
    decreases left,
{
    if left > 0 && frames.len() > 0 {
        assert(service_answer_in(frames[0], connection_id) is None);
        assert forall|i: int| 0 <= i < frames.skip(1).len() && i < left - 1 implies service_answer_in(
            #[trigger] frames.skip(1)[i],
            connection_id,
        ) is None by {
            assert(frames.skip(1)[i] == frames[i + 1]);
        }
        lemma_no_service_answer(frames.skip(1), connection_id, left - 1);
    }
}

/// Responses and pushes on other connections are passed over: of the frames that a
/// service's answer is waited for, the first that is a push on the connection is found.
pub proof fn law_first_service_answer_is_found(
    frames: Seq<Downstream>,
    connection_id: u32,
    at: int,
)
    requires
        0 <= at < frames.len(),
        at < SERVICE_FRAMES,
        frames[at].data matches Some(m) && m.connection_id == connection_id,
        forall|i: int|
            0 <= i < at ==> ((#[trigger] frames[i]).data matches Some(m) ==> m.connection_id
                != connection_id),
    ensures
        service_awaited(frames, connection_id, SERVICE_FRAMES as int) matches Some(b) && (
        frames[at].data matches Some(m) && b == unframed(m.data@)),
{
    assert forall|i: int| 0 <= i < at implies service_answer_in(
        #[trigger] frames[i],
        connection_id,
    ) is None by {}
    lemma_service_answer(frames, connection_id, SERVICE_FRAMES as int, at);
}

/// Without a push on the connection among the frames that a service's answer is
/// waited for, none is found.
pub proof fn law_unanswered_service_is_given_up(frames: Seq<Downstream>, connection_id: u32)
    requires
        forall|i: int|
            0 <= i < frames.len() && i < SERVICE_FRAMES ==> ((#[trigger] frames[i]).data matches Some(
                m,
            ) ==> m.connection_id != connection_id),
    ensures
        service_awaited(frames, connection_id, SERVICE_FRAMES as int) is None,
{
    assert forall|i: int| 0 <= i < frames.len() && i < SERVICE_FRAMES implies service_answer_in(
        #[trigger] frames[i],
        connection_id,
    ) is None by {}
    lemma_no_service_answer(frames, connection_id, SERVICE_FRAMES as int);
}

/// What is said where no answer came.
pub fn no_response_text(request_id: u32) -> (r: String)
    ensures
        r@ == "no response for request "@ + decimal(request_id as nat) + " after 32 frames"@,
{
    let mut r = "no response for request ".to_owned();
    r.append(decimal_of(request_id as u64).as_str());
    r.append(" after 32 frames");
    r
}

/// What is said where no answer of a service came.
pub fn no_answer_text(connection_id: u32) -> (r: String)
    ensures
        r@ == "no data response on connection "@ + decimal(connection_id as nat),
{
    let mut r = "no data response on connection ".to_owned();
    r.append(decimal_of(connection_id as u64).as_str());
    r
}

// ---------------------------------------------------------------------------
// Opening
// ---------------------------------------------------------------------------

/// How an optional flag reads.
pub open spec fn flag_words(f: Option<bool>) -> Seq<char> {
    match f {
        None => "None"@,
        Some(b) => if b {
            "Some(true)"@
        } else {
            "Some(false)"@
        },
    }
}

fn flag_text(f: Option<bool>) -> (r: &'static str)
    ensures
        r@ == flag_words(f),
{
    match f {
        None => "None",
        Some(b) => {
            if b {
                "Some(true)"
            } else {
                "Some(false)"
            }
        },
    }
}

/// Whether an answer lets the client in, and else what is said.
pub fn authenticated(rsp: Rsp) -> (r: Result<(), String>)
    ensures
        match (rsp.authenticate_rsp, r) {
            (Some(a), Ok(_)) => a.success,
            (Some(a), Err(e)) => !a.success && e@ == "authentication failed (expired="@
                + flag_words(a.expired) + ", banned="@ + flag_words(a.banned)
                + ") — re-run `optima-cli login`"@,
            (None, Ok(_)) => false,
            (None, Err(e)) => e@ == "no authenticate_rsp in response"@,
        },
{
    match rsp.authenticate_rsp {
        None => Err("no authenticate_rsp in response".to_owned()),
        Some(a) => {
            if a.success {
                return Ok(());
            }
            let mut e = "authentication failed (expired=".to_owned();
            e.append(flag_text(a.expired));
            e.append(", banned=");
            e.append(flag_text(a.banned));
            e.append(") — re-run `optima-cli login`");
            Err(e)
        },
    }
}

/// The connection that an answer opens, and else what is said.
pub fn opened(rsp: Rsp, service_name: &str) -> (r: Result<u32, String>)
    ensures
        match (rsp.open_connection_rsp, r) {
            (Some(o), Ok(id)) => o.success && id == o.connection_id,
            (Some(o), Err(e)) => !o.success && e@ == "service "@ + service_name@
                + " refused the connection"@,
            (None, Ok(_)) => false,
            (None, Err(e)) => e@ == "no open_connection_rsp for "@ + service_name@,
        },
{
    match rsp.open_connection_rsp {
        None => {
            let mut e = "no open_connection_rsp for ".to_owned();
            e.append(service_name);
            Err(e)
        },
        Some(o) => {
            if o.success {
                return Ok(o.connection_id);
            }
            let mut e = "service ".to_owned();
            e.append(service_name);
            e.append(" refused the connection");
            Err(e)
        },
    }
}

// ---------------------------------------------------------------------------
// The ownership service
// ---------------------------------------------------------------------------

/// A request to the ownership service.
#[derive(Debug)]
pub enum OwnershipReq {
    Initialize { request_id: u32, get_associations: bool },
    LatestManifests { request_id: u32, product_ids: Vec<u32> },
    UplayPcTicket { request_id: u32, uplay_id: u32 },
    OwnershipToken { request_id: u32, product_id: u32 },
}

/// The request that each connection starts with.
pub fn initialize_request() -> (r: OwnershipReq)
    ensures
        r == (OwnershipReq::Initialize { request_id: 1, get_associations: true }),
{
    OwnershipReq::Initialize { request_id: 1, get_associations: true }
}

/// Manifests are asked for: of no product there is none to ask for.
pub fn asks_for_manifests(product_ids: &[u32]) -> (r: bool)
    ensures
        r == (product_ids@.len() > 0),
{
    product_ids.len() > 0
}

/// Asks for the newest manifests of some products.
pub fn latest_manifests_request(product_ids: Vec<u32>) -> (r: OwnershipReq)
    ensures
        r == (OwnershipReq::LatestManifests { request_id: 2, product_ids }),
{
    OwnershipReq::LatestManifests { request_id: 2, product_ids }
}

/// Asks for the ticket that a game is handed.
pub fn uplay_pc_ticket_request(uplay_id: u32) -> (r: OwnershipReq)
    ensures
        r == (OwnershipReq::UplayPcTicket { request_id: 2, uplay_id }),
{
    OwnershipReq::UplayPcTicket { request_id: 2, uplay_id }
}

/// Asks for a token that proves the ownership of a product.
pub fn ownership_token_request(product_id: u32) -> (r: OwnershipReq)
    ensures
        r == (OwnershipReq::OwnershipToken { request_id: 2, product_id }),
{
    OwnershipReq::OwnershipToken { request_id: 2, product_id }
}

/// A product of the account's catalog.
#[derive(Debug)]
pub struct OwnedGame {
    pub product_id: u32,
    pub owned: Option<bool>,
    pub product_type: Option<i32>,
    pub latest_manifest: Option<String>,
    pub configuration: Option<String>,
    pub uplay_id: Option<u32>,
}

/// The answer to `initialize_request`.
#[derive(Debug)]
pub struct InitializeRsp {
    pub success: bool,
    pub owned_games: Option<Vec<OwnedGame>>,
}

/// The newest manifest of a product, where it has one.
#[derive(Debug)]
pub struct ProductManifest {
    pub product_id: u32,
    pub manifest: Option<String>,
}

/// The answer to `uplay_pc_ticket_request`.
#[derive(Debug)]
pub struct UplayPcTicketRsp {
    pub success: bool,
    pub uplay_pc_ticket: Option<String>,
}

/// The products that an answer lists, and else what is said.
pub fn owned_games(rsp: Option<InitializeRsp>) -> (r: Result<Vec<OwnedGame>, String>)
    ensures
        match (rsp, r) {
            (Some(i), Ok(games)) => i.success && match i.owned_games {
                Some(g) => games == g,
                None => games@.len() == 0,
            },
            (Some(i), Err(e)) => !i.success && e@ == "ownership initialize returned success=false"@,
            (None, Ok(_)) => false,
            (None, Err(e)) => e@ == "no initialize_rsp from ownership_service"@,
        },
{
    match rsp {
        None => Err("no initialize_rsp from ownership_service".to_owned()),
        Some(i) => {
            if !i.success {
                return Err("ownership initialize returned success=false".to_owned());
            }
            match i.owned_games {
                Some(g) => Ok(g),
                None => Ok(Vec::new()),
            }
        },
    }
}

/// The manifest that an entry names, where it is not empty.
pub open spec fn manifest_in(m: ProductManifest) -> Option<Seq<char>> {
    match m.manifest {
        Some(s) => if s@.len() > 0 {
            Some(s@)
        } else {
            None
        },
        None => None,
    }
}

/// The manifest in the first entry from `i` on that is about the product.
pub open spec fn manifest_from(l: Seq<ProductManifest>, product_id: u32, i: int) -> Option<Seq<char>>
    decreases l.len() - i,
{
    if i < 0 || i >= l.len() {
        None
    } else if l[i].product_id == product_id {
        manifest_in(l[i])
    } else {
        manifest_from(l, product_id, i + 1)
    }
}

/// The newest manifest of a product in an answer: that of the first entry about
/// it, where that names one.
pub fn latest_manifest(rsp: &Option<Vec<ProductManifest>>, product_id: u32) -> (r: Option<String>)
    ensures
        opt_text(r) == (match rsp {
            Some(l) => manifest_from(l@, product_id, 0),
            None => None,
        }),
{
    match rsp {
        None => None,
        Some(l) => {
            let mut i: usize = 0;
            while i < l.len()
                invariant
                    i <= l.len(),
                    manifest_from(l@, product_id, 0) == manifest_from(l@, product_id, i as int),
                    rsp matches Some(w) && w == l,
                decreases l.len() - i,
            {
                if l[i].product_id == product_id {
                    return match &l[i].manifest {
                        Some(s) => {
                            if s.as_str().is_empty() {
                                None
                            } else {
                                Some(s.clone())
                            }
                        },
                        None => None,
                    };
                }
                i += 1;
            }
            None
        },
    }
}

/// What the first `n` entries say: the manifest of each product that has one, the
/// later entry where there are two.
pub open spec fn manifests_in(l: Seq<ProductManifest>, n: int) -> Map<u32, Seq<char>>
    decreases n,
{
    if n <= 0 || n > l.len() {
        Map::empty()
    } else {
        match manifest_in(l[n - 1]) {
            Some(m) => manifests_in(l, n - 1).insert(l[n - 1].product_id, m),
            None => manifests_in(l, n - 1),
        }
    }
}

/// The manifests in a table.
pub open spec fn manifest_texts(m: Map<u32, String>) -> Map<u32, Seq<char>> {
    m.map_values(|s: String| s@)
}

/// The newest manifests of the products in an answer. A product without a build
/// is not among them.
pub fn latest_manifests(rsp: &Option<Vec<ProductManifest>>) -> (r: HashMap<u32, String>)
    ensures
        manifest_texts(r@) == (match rsp {
            Some(l) => manifests_in(l@, l@.len() as int),
            None => Map::empty(),
        }),
{
    broadcast use vstd::std_specs::hash::group_hash_axioms;

    let mut out: HashMap<u32, String> = HashMap::new();
    assert(manifest_texts(out@) =~= Map::empty());
    if let Some(l) = rsp {
        let mut i: usize = 0;
        while i < l.len()
            invariant
                i <= l.len(),
                manifest_texts(out@) == manifests_in(l@, i as int),
            decreases l.len() - i,
        {
            let ghost before = out@;
            if let Some(s) = &l[i].manifest {
                if !s.as_str().is_empty() {
                    out.insert(l[i].product_id, s.clone());
                    assert(manifest_texts(out@) =~= manifest_texts(before).insert(
                        l@[i as int].product_id,
                        s@,
                    ));
                }
            }
            i += 1;
        }
    }
    out
}

/// Only products with a manifest that is not empty are resolved, and each of
/// those is.
pub proof fn law_resolved_products_have_builds(l: Seq<ProductManifest>, n: int)
    requires
        0 <= n <= l.len(),
    ensures
        forall|id: u32| #[trigger]
            manifests_in(l, n).contains_key(id) <==> exists|i: int|
                0 <= i < n && (#[trigger] l[i]).product_id == id && manifest_in(l[i]) is Some,
        forall|id: u32| #[trigger]
            manifests_in(l, n).contains_key(id) ==> manifests_in(l, n)[id].len() > 0,
    decreases n,
{
    if n > 0 {
        law_resolved_products_have_builds(l, n - 1);
        let before = manifests_in(l, n - 1);
        let after = manifests_in(l, n);
        assert forall|id: u32| #[trigger] after.contains_key(id) <==> exists|i: int|
            0 <= i < n && (#[trigger] l[i]).product_id == id && manifest_in(l[i]) is Some by {
            if l[n - 1].product_id != id || manifest_in(l[n - 1]) is None {
                assert(after.contains_key(id) == before.contains_key(id));
                if exists|i: int|
                    0 <= i < n && (#[trigger] l[i]).product_id == id && manifest_in(l[i]) is Some {
                    let i = choose|i: int|
                        0 <= i < n && (#[trigger] l[i]).product_id == id && manifest_in(
                            l[i],
                        ) is Some;
                    assert(i < n - 1);
                    assert(before.contains_key(id));
                }
            }
        }
        assert forall|id: u32| #[trigger] after.contains_key(id) implies after[id].len() > 0 by {
            if l[n - 1].product_id != id || manifest_in(l[n - 1]) is None {
                assert(before.contains_key(id));
                assert(after[id] == before[id]);
            }
        }
    }
}

/// The ticket that a game is handed, in an answer.
pub fn uplay_pc_ticket(rsp: Option<UplayPcTicketRsp>) -> (r: Option<String>)
    ensures
        r == (match rsp {
            Some(t) => if t.success {
                t.uplay_pc_ticket
            } else {
                None
            },
            None => None,
        }),
{
    match rsp {
        Some(t) => {
            if t.success {
                t.uplay_pc_ticket
            } else {
                None
            }
        },
        None => None,
    }
}

/// The token in an answer, and else what is said.
pub fn ownership_token(token: Option<String>, product_id: u32) -> (r: Result<String, String>)
    ensures
        match (token, r) {
            (Some(t), Ok(s)) => s == t,
            (None, Err(e)) => e@ == "no ownership token for product "@ + decimal(
                product_id as nat,
            ),
            _ => false,
        },
{
    match token {
        Some(t) => Ok(t),
        None => {
            let mut e = "no ownership token for product ".to_owned();
            e.append(decimal_of(product_id as u64).as_str());
            Err(e)
        },
    }
}

// ---------------------------------------------------------------------------
// What goes over the wire
// ---------------------------------------------------------------------------

/// A message goes behind its length, whose most significant byte comes first.
pub proof fn law_length_goes_first(body: Seq<u8>)
    requires
        body.len() <= u32::MAX,
    ensures
        framed(body).len() == body.len() + 4,
        framed(body)[0] * 16777216 + framed(body)[1] * 65536 + framed(body)[2] * 256
            + framed(body)[3] == body.len(),
        forall|i: int| 0 <= i < body.len() ==> framed(body)[i + 4] == #[trigger] body[i],
{
    law_frame_round_trip(body);
    let f = framed(body);
    assert(f.take(4)[0] == f[0] && f.take(4)[1] == f[1] && f.take(4)[2] == f[2] && f.take(4)[3]
        == f[3]);
}

/// A length is read from its four bytes, the most significant first.
pub proof fn law_length_is_read(a: u8, b: u8, c: u8, d: u8, body: Seq<u8>)
    ensures
        be_value(seq![a, b, c, d]) == ((a * 256 + b) * 256 + c) * 256 + d,
        unframed(seq![a, b, c, d] + body) == body,
        body.len() < 4 ==> unframed(body) == body,
{
    let l = seq![a, b, c, d];
    assert(l[0] == a && l[1] == b && l[2] == c && l[3] == d);
    assert((l + body).skip(4) =~= body);
}

/// A request is answered by the first of the next thirty-two frames that holds a response
/// to it, whatever else comes before; what comes later is not waited for.
pub proof fn law_first_response_is_taken(frames: Seq<Downstream>, request_id: u32, at: int)
    requires
        0 <= at <= frames.len(),
        forall|i: int|
            0 <= i < at ==> ((#[trigger] frames[i]).response matches Some(r) ==> r.request_id
                != request_id),
        at < frames.len() ==> (frames[at].response matches Some(r) && r.request_id == request_id),
    ensures
        at < frames.len() && at < 32 ==> awaited(frames, request_id, RESPONSE_FRAMES as int)
            == frames[at].response,
        at == frames.len() || at >= 32 ==> awaited(frames, request_id, RESPONSE_FRAMES as int)
            is None,
{
    assert forall|i: int| 0 <= i < at implies response_in(#[trigger] frames[i], request_id)
        is None by {}
    if at < frames.len() && at < 32 {
        law_interleaved_frames_are_skipped(frames, request_id, RESPONSE_FRAMES as int, at);
    } else {
        law_unanswered_request_is_given_up(frames, request_id, RESPONSE_FRAMES as int);
    }
}

/// A service is answered by the first of the next sixteen frames that holds data on its
/// connection; the answer is what stands behind the length.
pub proof fn law_first_data_is_taken(
    frames: Seq<Downstream>,
    connection_id: u32,
    at: int,
    body: Seq<u8>,
)
    requires
        0 <= at <= frames.len(),
        body.len() <= u32::MAX,
        forall|i: int|
            0 <= i < at ==> ((#[trigger] frames[i]).data matches Some(m) ==> m.connection_id
                != connection_id),
        at < frames.len() ==> (frames[at].data matches Some(m) && m.connection_id == connection_id
            && m.data@.len() == body.len() + 4 && m.data@.skip(4) == body),
    ensures
        at < frames.len() && at < 16 ==> service_awaited(
            frames,
            connection_id,
            SERVICE_FRAMES as int,
        ) == Some(body),
        at == frames.len() || at >= 16 ==> service_awaited(
            frames,
            connection_id,
            SERVICE_FRAMES as int,
        ) is None,
{
    if at < frames.len() && at < 16 {
        law_first_service_answer_is_found(frames, connection_id, at);
    } else {
        law_unanswered_service_is_given_up(frames, connection_id);
    }
}

proof fn lemma_manifest_later(l: Seq<ProductManifest>, id: u32, i: int, k: int)
    requires
        0 <= i <= k <= l.len(),
        forall|j: int| i <= j < k ==> (#[trigger] l[j]).product_id != id,
    ensures
        manifest_from(l, id, i) == manifest_from(l, id, k),
    decreases k - i,
{
    if i < k {
        assert(l[i].product_id != id);
        lemma_manifest_later(l, id, i + 1, k);
    }
}

/// The build of a product is what the first answer for it says, and none where that names
/// none.
pub proof fn law_first_manifest_is_taken(l: Seq<ProductManifest>, id: u32, k: int)
    requires
        0 <= k <= l.len(),
        forall|j: int| 0 <= j < k ==> (#[trigger] l[j]).product_id != id,
        k < l.len() ==> l[k].product_id == id,
    ensures
        k < l.len() && (l[k].manifest matches Some(s) && s@.len() > 0) ==> (l[k].manifest matches Some(
            s,
        ) && manifest_from(l, id, 0) == Some(s@)),
        k < l.len() && (l[k].manifest matches Some(s) ==> s@.len() == 0) ==> manifest_from(l, id, 0)
            is None,
        k == l.len() ==> manifest_from(l, id, 0) is None,
{
    lemma_manifest_later(l, id, 0, k);
}

proof fn lemma_manifests_before(l: Seq<ProductManifest>, id: u32, k: int, n: int)
    requires
        0 <= k <= n <= l.len(),
        forall|j: int|
            k <= j < n && (#[trigger] l[j]).product_id == id ==> (l[j].manifest matches Some(s)
                ==> s@.len() == 0),
    ensures
        manifests_in(l, n).contains_key(id) == manifests_in(l, k).contains_key(id),
        manifests_in(l, n).contains_key(id) ==> manifests_in(l, n)[id] == manifests_in(l, k)[id],
    decreases n - k,
{
    if k < n {
        lemma_manifests_before(l, id, k, n - 1);
        assert(l[n - 1].product_id == id ==> manifest_in(l[n - 1]) is None);
    }
}

/// Of several answers for a product the last that names a build counts among all builds;
/// a product whose answers name none has none.
pub proof fn law_last_manifest_counts(l: Seq<ProductManifest>, id: u32, k: int)
    requires
        -1 <= k < l.len(),
        k >= 0 ==> l[k].product_id == id && (l[k].manifest matches Some(s) && s@.len() > 0),
        forall|j: int|
            k < j < l.len() && (#[trigger] l[j]).product_id == id ==> (l[j].manifest matches Some(
                s,
            ) ==> s@.len() == 0),
    ensures
        k >= 0 ==> manifests_in(l, l.len() as int).contains_key(id) && (
        l[k].manifest matches Some(s) && manifests_in(l, l.len() as int)[id] == s@),
        k < 0 ==> !manifests_in(l, l.len() as int).contains_key(id),
{
    lemma_manifests_before(l, id, k + 1, l.len() as int);
}

/// What one side frames the other reads back: the length from the first four bytes, and
/// the message from the rest.
pub proof fn law_framed_message_is_read_back(
    body: &[u8],
    f: Option<Vec<u8>>,
    head: [u8; 4],
    n: u32,
    data: &[u8],
    r: Vec<u8>,
)
    requires
        call_ensures(frame, (body,), f),
        body@.len() <= u32::MAX,
        f matches Some(v) && head@ == v@.take(4) && data@ == v@,
        call_ensures(frame_len, (head,), n),
        call_ensures(unframe, (data,), r),
    ensures
        n == body@.len(),
        r@ == body@,
{
    law_frame_round_trip(body@);
}

/// The services' answers are taken at their word: what succeeded goes on with what was
/// given, and what did not, or was not answered, fails.
pub proof fn law_answers_are_taken_at_their_word(
    rsp: Rsp,
    service: &str,
    a: Result<(), String>,
    o: Result<u32, String>,
)
    requires
        call_ensures(authenticated, (rsp,), a),
        call_ensures(opened, (rsp, service), o),
    ensures
        a is Ok <==> (rsp.authenticate_rsp matches Some(x) && x.success),
        o is Ok <==> (rsp.open_connection_rsp matches Some(x) && x.success),
        o matches Ok(id) ==> (rsp.open_connection_rsp matches Some(x) && x.connection_id == id),
{
}

/// All products of an answer are taken, as they are; a refusal and silence are faults. A
/// ticket counts only where the answer says so.
pub proof fn law_products_and_tickets_are_taken(
    i: InitializeRsp,
    games: Result<Vec<OwnedGame>, String>,
    none: Result<Vec<OwnedGame>, String>,
    t: UplayPcTicketRsp,
    ticket: Option<String>,
)
    requires
        call_ensures(owned_games, (Some(i),), games),
        call_ensures(owned_games, (None,), none),
        call_ensures(uplay_pc_ticket, (Some(t),), ticket),
    ensures
        games is Ok <==> i.success,
        i.success ==> (i.owned_games matches Some(l) ==> (games matches Ok(g) && g@ == l@)),
        i.success && i.owned_games is None ==> (games matches Ok(g) && g@.len() == 0),
        none is Err,
        t.success ==> ticket == t.uplay_pc_ticket,
        !t.success ==> ticket is None,
{
}

} // verus!
