//! The relay's handling of one public request, as the decisions between the
//! steps that wait.
//!
//! The caller reads the request, looks the tunnel up and locks it, and then
//! goes step by step: `screen`, `dispatch`, the enqueueing of the frame,
//! `enqueue_failed` if that fails, the wait for the response, `settle`. Each
//! failure has one status: 413 for a body that is too large, 404 for an
//! unknown subdomain, 403 for a filtered address, 503 while the breaker is
//! open, 502 where the frame or the link fails, 504 on a timeout.

use vstd::prelude::*;
use vstd::slice::slice_to_vec;
use vstd::string::StringSliceAdditionalSpecFns;
use vstd::utf8::{encode_utf8, is_ascii_chars, is_ascii_chars_encode_utf8};
use crate::circuit_breaker::{Dispatch, Verdict};
use crate::frame::{
    body_view, encode_request, header_views, json_text_of_request, RequestView, TunnelRequest,
    TunnelResponse,
};
use crate::ids::{gen_request_id, request_id};
use crate::ip_filter::{client_ip, extract_client_ip, IpAddress, IpFilter};
use crate::text::{chars_of, split_chars, split_on, string_of, views};
use crate::tunnel::{client_of_turn, next_turn, Tunnel, TunnelState};

verus! {

/// The largest body of a public request that is read, in bytes: 10 MiB.
pub const MAX_BODY_BYTES: usize = 10485760;

/// How long a request waits for its response, in milliseconds.
pub const RESPONSE_TIMEOUT_MS: u64 = 30000;

/// The answer to the public caller.
#[derive(Debug)]
pub struct Reply {
    pub status: u16,
    pub headers: Vec<(String, String)>,
    pub body: Vec<u8>,
    /// Whether the request counts in the metrics.
    pub metered: bool,
}

/// The subdomain that a host names: its leftmost label.
pub open spec fn host_label(host: Seq<char>) -> Seq<char> {
    split_on(host, '.')[0]
}

/// The subdomain of a `Host` header: what stands before the first dot.
pub fn subdomain_of_host(host: &str) -> (s: String)
    ensures
        s@ == host_label(host@),
{
    let chars = chars_of(host);
    let labels = split_chars(chars.as_slice(), '.');
    assert(views(labels@)[0] == labels@[0]@);
    string_of(labels[0].as_slice())
}

/// The body of a request as it is forwarded: none where nothing was sent.
pub fn request_body(bytes: Vec<u8>) -> (b: Option<Vec<u8>>)
    ensures
        bytes@.len() == 0 ==> b is None,
        bytes@.len() > 0 ==> b == Some(bytes),
{
    if bytes.len() == 0 {
        None
    } else {
        Some(bytes)
    }
}

/// The answer is the status, no header, and the line of text as its body.
pub open spec fn says(r: Reply, status: u16, text: &str, metered: bool) -> bool {
    &&& r.status == status
    &&& r.headers@.len() == 0
    &&& r.body@ == text.spec_bytes()
    &&& r.metered == metered
}

/// An answer that is a status and a line of text.
pub fn text_reply(status: u16, text: &str, metered: bool) -> (r: Reply)
    ensures
        says(r, status, text, metered),
{
    Reply { status, headers: Vec::new(), body: slice_to_vec(text.as_bytes()), metered }
}

/// Whether a body of `len` bytes is forwarded. A larger one is answered with
/// 413 before a tunnel is looked up, an id made or a frame built.
pub fn body_fits(len: usize) -> (r: bool)
    ensures
        r == (len <= MAX_BODY_BYTES),
{
    len <= MAX_BODY_BYTES
}

/// The answer to a request whose body is too large.
pub fn too_large() -> (r: Reply)
    ensures
        says(r, 413, "Payload too large", false),
{
    text_reply(413, "Payload too large", false)
}

/// The answer to a request for a subdomain that no tunnel has.
pub fn not_found() -> (r: Reply)
    ensures
        says(r, 404, "Tunnel not found", false),
{
    text_reply(404, "Tunnel not found", false)
}

/// Whether the filter turns a request away: it has a rule, the request has
/// a client address, and the filter does not allow that address. The client
/// address is the one that the headers name, or else the address of the
/// peer.
pub open spec fn filter_rejects(
    filter: IpFilter,
    headers: Seq<(String, String)>,
    peer: Option<IpAddress>,
) -> bool {
    &&& !(filter.allow@.len() == 0 && filter.deny@.len() == 0)
    &&& client_ip(headers, peer) matches Some(ip)
    &&& !filter.allows(ip)
}

/// Applies the filter of the tunnel to a request that came from `peer`. A
/// request that is turned away is answered with 403.
pub fn screen(
    tunnel: &Tunnel,
    headers: &[(String, String)],
    peer: Option<IpAddress>,
) -> (r: Option<Reply>)
    ensures
        r is Some <==> filter_rejects(tunnel@.filter, headers@, peer),
        r matches Some(reply) ==> says(reply, 403, "Access denied", true),
{
    let filter = tunnel.ip_filter();
    if !filter.is_empty() {
        match extract_client_ip(headers, peer) {
            Some(ip) => {
                if !filter.is_allowed(ip) {
                    return Some(text_reply(403, "Access denied", true));
                }
            },
            None => {},
        }
    }
    None
}

/// What `dispatch` made of a request.
pub enum Dispatched {
    /// The breaker lets the frame pass: the caller sends `payload` to the
    /// chosen client (`None`: the primary one) and then waits for the
    /// response under `id`.
    Forward { id: String, payload: Vec<u8>, client: Option<usize> },
    /// The breaker is open: the request is answered with 503. The frame is
    /// in the breaker's queue if `queued`, else it was dropped. No request
    /// waits.
    Unavailable { reply: Reply, queued: bool },
    /// A request already waits under the id that was made. Nothing has
    /// changed; the receptacle is handed back and the request is answered
    /// with 500.
    Collision { reply: Reply, receptacle: tokio::sync::oneshot::Sender<TunnelResponse> },
    /// The body is larger than a body may be. Nothing has changed: no id
    /// was made and no frame built. The receptacle is handed back and the
    /// request is answered with 413.
    TooLarge { reply: Reply, receptacle: tokio::sync::oneshot::Sender<TunnelResponse> },
}

/// Whether a body is larger than a body may be.
pub open spec fn oversized(body: Option<Vec<u8>>) -> bool {
    body matches Some(b) && b@.len() > MAX_BODY_BYTES
}

/// The request record that `dispatch` builds.
pub open spec fn forwarded_request(
    id: Seq<char>,
    method: Seq<char>,
    path: Seq<char>,
    headers: Seq<(String, String)>,
    body: Option<Vec<u8>>,
) -> RequestView {
    RequestView { id, method, path, headers: header_views(headers), body: body_view(body) }
}

/// The tunnel after a request was dispatched at `now` under the id `id`
/// with the frame `payload`, where no request waited under that id.
pub open spec fn after_dispatch(t: TunnelState, id: Seq<char>, payload: Seq<u8>, now: u64) -> TunnelState {
    let sequence = if t.sequence == u64::MAX {
        0
    } else {
        (t.sequence + 1) as u64
    };
    match t.breaker.verdict(now) {
        Verdict::Pass => TunnelState {
            pending: t.pending.insert(id),
            dispatched: t.dispatched + 1,
            breaker: t.breaker.after_send(payload, now),
            turn: if t.clients.len() > 1 {
                next_turn(t.turn)
            } else {
                t.turn
            },
            sequence,
            ..t
        },
        _ => TunnelState {
            pending: t.pending.insert(id).remove(id),
            dispatched: t.dispatched + 1,
            abandoned: t.abandoned + 1,
            breaker: t.breaker.after_send(payload, now),
            sequence,
            ..t
        },
    }
}

/// Dispatches a request into the tunnel at `now`.
///
/// A body that is too large is turned away first. Then: makes the id of the request from the clock and the tunnel's count of
/// requests, enters the receptacle into the table of pending requests under
/// that id, builds the frame, and asks the breaker. Where the breaker does
/// not let the frame pass, the request is taken out of the table again.
pub fn dispatch(
    tunnel: &mut Tunnel,
    method: String,
    path: String,
    headers: Vec<(String, String)>,
    body: Option<Vec<u8>>,
    receptacle: tokio::sync::oneshot::Sender<TunnelResponse>,
    now: u64,
    nanos: u128,
) -> (r: Dispatched)
    ensures
        ({
            let before = old(tunnel)@;
            let id = request_id(nanos, before.sequence);
            let payload = json_text_of_request(
                forwarded_request(id, method@, path@, headers@, body),
            );
            if oversized(body) {
                &&& r matches Dispatched::TooLarge { reply, .. }
                &&& says(reply, 413, "Payload too large", false)
                &&& final(tunnel)@ == before
            } else if before.pending.contains(id) {
                &&& r matches Dispatched::Collision { reply, .. }
                &&& says(reply, 500, "Request id in use", false)
                &&& final(tunnel)@ == before
            } else {
                &&& final(tunnel)@ == after_dispatch(before, id, payload, now)
                &&& match before.breaker.verdict(now) {
                    Verdict::Pass => {
                        &&& r matches Dispatched::Forward { id: i, payload: p, client: c }
                        &&& i@ == id
                        &&& p@ == payload
                        &&& match c {
                            Some(k) => client_of_turn(before.clients.len(), before.turn) == Some(
                                k as int,
                            ),
                            None => client_of_turn(before.clients.len(), before.turn) is None,
                        }
                    },
                    Verdict::Queued => {
                        &&& r matches Dispatched::Unavailable { reply, queued }
                        &&& says(reply, 503, "Service temporarily unavailable (queued)", true)
                        &&& queued
                    },
                    Verdict::Dropped => {
                        &&& r matches Dispatched::Unavailable { reply, queued }
                        &&& says(reply, 503, "Service temporarily unavailable (queued)", true)
                        &&& !queued
                    },
                }
            }
        }),
        old(tunnel)@.accounted() ==> final(tunnel)@.accounted(),
{
    let ghost before = tunnel@;
    let too_much = match &body {
        Some(b) => b.len() > MAX_BODY_BYTES,
        None => false,
    };
    if too_much {
        return Dispatched::TooLarge { reply: too_large(), receptacle };
    }
    let id = gen_request_id(nanos, tunnel.sequence());
    if tunnel.is_pending(id.as_str()) {
        return Dispatched::Collision {
            reply: text_reply(500, "Request id in use", false),
            receptacle,
        };
    }
    let _ = tunnel.next_sequence();
    let request = TunnelRequest { id, method, path, headers, body };
    let payload = encode_request(&request);
    let opened = tunnel.open_request(request.id.clone(), receptacle);
    assert(opened is Ok);
    let ghost mid = tunnel@;
    let verdict = tunnel.circuit_breaker_mut().try_send(payload, now);
    match verdict {
        Dispatch::Pass(payload) => {
            let client = tunnel.next_client();
            Dispatched::Forward { id: request.id, payload, client }
        },
        Dispatch::Queued => {
            let _ = tunnel.abandon(request.id.as_str());
            Dispatched::Unavailable {
                reply: text_reply(503, "Service temporarily unavailable (queued)", true),
                queued: true,
            }
        },
        Dispatch::Dropped => {
            let _ = tunnel.abandon(request.id.as_str());
            Dispatched::Unavailable {
                reply: text_reply(503, "Service temporarily unavailable (queued)", true),
                queued: false,
            }
        },
    }
}


/// The tunnel after a request that waited under `id` was given up at `now`:
/// it is out of the table, and the breaker has one more failure.
pub open spec fn after_give_up(t: TunnelState, id: Seq<char>, now: u64) -> TunnelState {
    TunnelState {
        pending: t.pending.remove(id),
        abandoned: if t.pending.contains(id) {
            t.abandoned + 1
        } else {
            t.abandoned
        },
        breaker: t.breaker.after_failure(now),
        ..t
    }
}

fn give_up(tunnel: &mut Tunnel, id: &str, now: u64)
    ensures
        final(tunnel)@ == after_give_up(old(tunnel)@, id@, now),
        old(tunnel)@.accounted() ==> final(tunnel)@.accounted(),
{
    let was = tunnel.abandon(id);
    proof {
        if !was {
            assert(tunnel@.pending =~= old(tunnel)@.pending.remove(id@));
        }
    }
    tunnel.circuit_breaker_mut().record_failure(now);
}

/// The frame of a request could not be put on the control channel: the
/// request is taken out of the table, a failure is recorded, and the
/// request is answered with 502.
pub fn enqueue_failed(tunnel: &mut Tunnel, id: &str, now: u64) -> (r: Reply)
    ensures
        says(r, 502, "Upstream send failed", true),
        final(tunnel)@ == after_give_up(old(tunnel)@, id@, now),
        old(tunnel)@.accounted() ==> final(tunnel)@.accounted(),
{
    give_up(tunnel, id, now);
    text_reply(502, "Upstream send failed", true)
}

/// How the wait for a response ended.
pub enum WaitOutcome {
    /// The response arrived.
    Response(TunnelResponse),
    /// The receptacle was closed without a response: the channel died.
    Closed,
    /// No response arrived in time.
    TimedOut,
}

/// A byte that may stand in the name of a header: a letter, a digit, or one
/// of the signs ``!#$%&'*+-.^_`|~``.
pub open spec fn is_name_byte(b: u8) -> bool {
    ||| (48 <= b && b <= 57)
    ||| (65 <= b && b <= 90)
    ||| (97 <= b && b <= 122)
    ||| b == 33
    ||| (35 <= b && b <= 39)
    ||| b == 42
    ||| b == 43
    ||| b == 45
    ||| b == 46
    ||| (94 <= b && b <= 96)
    ||| b == 124
    ||| b == 126
}

/// A byte that may stand in the value of a header: a tab, or any byte from
/// the space on but for the delete character.
pub open spec fn is_value_byte(b: u8) -> bool {
    b == 9 || (b >= 32 && b != 127)
}

/// The name is a valid name of a header: its bytes are from one to 65535,
/// and each may stand in a name.
pub open spec fn header_name_ok(name: Seq<char>) -> bool {
    &&& 1 <= encode_utf8(name).len() <= 65535
    &&& forall|i: int|
        0 <= i < encode_utf8(name).len() ==> is_name_byte(#[trigger] encode_utf8(name)[i])
}

/// The value is a valid value of a header: each of its bytes may stand in a
/// value.
pub open spec fn header_value_ok(value: Seq<char>) -> bool {
    forall|i: int|
        0 <= i < encode_utf8(value).len() ==> is_value_byte(#[trigger] encode_utf8(value)[i])
}

/// Of a text of ASCII characters, name and value are valid by their
/// characters: the bytes of such a text are its characters.
pub proof fn lemma_ascii_header_ok(text: Seq<char>)
    requires
        is_ascii_chars(text),
    ensures
        header_name_ok(text) <==> (1 <= text.len() <= 65535 && forall|i: int|
            0 <= i < text.len() ==> is_name_byte(#[trigger] text[i] as u8)),
        header_value_ok(text) <==> (forall|i: int|
            0 <= i < text.len() ==> is_value_byte(#[trigger] text[i] as u8)),
{
    is_ascii_chars_encode_utf8(text);
    let bytes = encode_utf8(text);
    assert forall|i: int| 0 <= i < text.len() implies bytes[i] == #[trigger] text[i] as u8 by {}
    if header_name_ok(text) {
        assert forall|i: int| 0 <= i < text.len() implies is_name_byte(
            #[trigger] text[i] as u8,
        ) by {
            assert(is_name_byte(bytes[i]));
        }
    }
    if header_value_ok(text) {
        assert forall|i: int| 0 <= i < text.len() implies is_value_byte(
            #[trigger] text[i] as u8,
        ) by {
            assert(is_value_byte(bytes[i]));
        }
    }
    if forall|i: int| 0 <= i < text.len() ==> is_name_byte(#[trigger] text[i] as u8) {
        assert forall|i: int| 0 <= i < bytes.len() implies is_name_byte(#[trigger] bytes[i]) by {
            assert(is_name_byte(text[i] as u8));
        }
    }
    if forall|i: int| 0 <= i < text.len() ==> is_value_byte(#[trigger] text[i] as u8) {
        assert forall|i: int| 0 <= i < bytes.len() implies is_value_byte(#[trigger] bytes[i]) by {
            assert(is_value_byte(text[i] as u8));
        }
    }
}

/// `HeaderName::from_bytes` of `hyper`, on the bytes of the name: whether
/// it takes the name. It takes a name of one to 65535 bytes of which each
/// is a letter, a digit or one of the signs of a token.
#[verifier::external_body]
fn name_is_valid(name: &str) -> (r: bool)
    ensures
        r == header_name_ok(name@),
{
    hyper::header::HeaderName::from_bytes(name.as_bytes()).is_ok()
}

/// `HeaderValue::from_str` of `hyper`: whether it takes the value. It takes
/// a value of which each byte is a tab, or is from the space on and not the
/// delete character.
#[verifier::external_body]
fn value_is_valid(value: &str) -> (r: bool)
    ensures
        r == header_value_ok(value@),
{
    hyper::header::HeaderValue::from_str(value).is_ok()
}

/// The status that goes to the public caller: the one of the response if
/// it lies from 100 to 999, else 200.
pub open spec fn public_status(status: u16) -> u16 {
    if 100 <= status <= 999 {
        status
    } else {
        200
    }
}

/// The headers that go to the public caller: those whose name and value are
/// valid, in their order.
pub open spec fn public_headers(h: Seq<(Seq<char>, Seq<char>)>) -> Seq<(Seq<char>, Seq<char>)>
    decreases h.len(),
{
    if h.len() == 0 {
        Seq::empty()
    } else {
        let rest = public_headers(h.drop_last());
        if header_name_ok(h.last().0) && header_value_ok(h.last().1) {
            rest.push(h.last())
        } else {
            rest
        }
    }
}

/// The body that goes to the public caller: the one of the response, or an
/// empty one where the response has none.
pub open spec fn public_body(b: Option<Vec<u8>>) -> Seq<u8> {
    match b {
        Some(bytes) => bytes@,
        None => Seq::empty(),
    }
}

/// The answer is the one that a response of the agent is turned into.
pub open spec fn answers(r: Reply, response: TunnelResponse) -> bool {
    &&& r.status == public_status(response.status)
    &&& header_views(r.headers@) == public_headers(header_views(response.headers@))
    &&& r.body@ == public_body(response.body)
    &&& r.metered
}

/// Turns the response of the agent into the answer to the public caller:
/// the status as it is where it is a status, the valid headers in their
/// order, the body byte for byte.
pub fn translate_response(response: TunnelResponse) -> (r: Reply)
    ensures
        answers(r, response),
{
    let status: u16 = if 100 <= response.status && response.status <= 999 {
        response.status
    } else {
        200
    };
    let mut headers: Vec<(String, String)> = Vec::new();
    let ghost all = header_views(response.headers@);
    let mut i: usize = 0;
    assert(all.take(0) == Seq::<(Seq<char>, Seq<char>)>::empty());
    assert(header_views(headers@) =~= Seq::<(Seq<char>, Seq<char>)>::empty());
    while i < response.headers.len()
        invariant
            i <= response.headers@.len(),
            all == header_views(response.headers@),
            header_views(headers@) == public_headers(all.take(i as int)),
        decreases response.headers@.len() - i,
    {
        let name = &response.headers[i].0;
        let value = &response.headers[i].1;
        proof {
            let t = all.take(i + 1);
            assert(t.drop_last() == all.take(i as int));
            assert(t.last() == (name@, value@));
        }
        if name_is_valid(name.as_str()) && value_is_valid(value.as_str()) {
            let ghost before = headers@;
            headers.push((name.clone(), value.clone()));
            assert(header_views(headers@) =~= header_views(before).push((name@, value@)));
        }
        i += 1;
    }
    assert(all.take(all.len() as int) == all);
    let body = match response.body {
        Some(bytes) => bytes,
        None => Vec::new(),
    };
    Reply { status, headers, body, metered: true }
}

/// Ends the handling of a request whose frame was sent, at `now`.
///
/// A response that arrived is turned into the answer. Where the receptacle
/// was closed without one, the request is taken out of the table, a failure
/// is recorded and the answer is 502. On a timeout the same is done and the
/// answer is 504: a response that arrives later finds no request waiting.
pub fn settle(tunnel: &mut Tunnel, id: &str, outcome: WaitOutcome, now: u64) -> (r: Reply)
    ensures
        match outcome {
            WaitOutcome::Response(response) => {
                &&& answers(r, response)
                &&& final(tunnel)@ == old(tunnel)@
            },
            WaitOutcome::Closed => {
                &&& says(r, 502, "Upstream closed", true)
                &&& final(tunnel)@ == after_give_up(old(tunnel)@, id@, now)
            },
            WaitOutcome::TimedOut => {
                &&& says(r, 504, "Timeout", true)
                &&& final(tunnel)@ == after_give_up(old(tunnel)@, id@, now)
            },
        },
        old(tunnel)@.accounted() ==> final(tunnel)@.accounted(),
{
    match outcome {
        WaitOutcome::Response(response) => translate_response(response),
        WaitOutcome::Closed => {
            give_up(tunnel, id, now);
            text_reply(502, "Upstream closed", true)
        },
        WaitOutcome::TimedOut => {
            give_up(tunnel, id, now);
            text_reply(504, "Timeout", true)
        },
    }
}

proof fn lemma_valid_headers_stay(h: Seq<(Seq<char>, Seq<char>)>)
    requires
        forall|i: int|
            0 <= i < h.len() ==> header_name_ok((#[trigger] h[i]).0) && header_value_ok(h[i].1),
    ensures
        public_headers(h) == h,
    decreases h.len(),
{
    if h.len() > 0 {
        let before = h.drop_last();
        assert forall|i: int| 0 <= i < before.len() implies header_name_ok(
            (#[trigger] before[i]).0,
        ) && header_value_ok(before[i].1) by {
            assert(before[i] == h[i]);
        }
        lemma_valid_headers_stay(before);
        assert(before.push(h.last()) == h);
    }
}

/// Law of the response. A response whose status is a status and whose
/// headers are valid reaches the public caller as the agent made it: the
/// frame that carries it stands for it again, and the answer to the caller
/// has its status, its headers in their order, and its body byte for byte.
pub proof fn lemma_response_preserved(r: TunnelResponse)
    requires
        100 <= r.status <= 999,
        forall|i: int|
            0 <= i < r.headers@.len() ==> header_name_ok(
                (#[trigger] header_views(r.headers@)[i]).0,
            ) && header_value_ok(header_views(r.headers@)[i].1),
    ensures
        crate::frame::doc_response(crate::frame::response_doc(r@)) == Some(r@),
        public_status(r.status) == r.status,
        public_headers(header_views(r.headers@)) == header_views(r.headers@),
        r.body matches Some(b) ==> public_body(r.body) == b@,
{
    crate::frame::lemma_response_round_trip(r@);
    lemma_valid_headers_stay(header_views(r.headers@));
}

/// Law of the open breaker. While the breaker of a tunnel is open and its
/// open time is not over, a request that is dispatched under an id that no
/// request waits under is not forwarded: its frame goes to the end of the
/// breaker's queue if there is room and is dropped if there is none, no
/// request waits for it afterwards, and the table of pending requests, the
/// state of the breaker and its count of failures are as they were.
pub proof fn lemma_open_breaker_queues(t: TunnelState, id: Seq<char>, payload: Seq<u8>, now: u64)
    requires
        t.breaker.state == crate::circuit_breaker::CircuitState::Open,
        !t.breaker.probe_due(now),
        !t.pending.contains(id),
    ensures
        ({
            let after = after_dispatch(t, id, payload, now);
            let room = t.breaker.queue.len() < t.breaker.config.max_queue_size;
            &&& room ==> t.breaker.verdict(now) is Queued
            &&& !room ==> t.breaker.verdict(now) is Dropped
            &&& room ==> after.breaker.queue == t.breaker.queue.push(
                crate::circuit_breaker::QueuedFrame { data: payload, queued_at: now },
            )
            &&& !room ==> after.breaker.queue == t.breaker.queue
            &&& after.breaker.state == crate::circuit_breaker::CircuitState::Open
            &&& after.breaker.failures == t.breaker.failures
            &&& after.pending == t.pending
            &&& !after.pending.contains(id)
        }),
{
    assert(t.pending.insert(id).remove(id) =~= t.pending);
}

/// Law of the table of pending requests. A tunnel is made with an empty
/// table, and through every step of the handling of a request the table
/// holds no more requests than were entered and neither completed nor
/// given up.
pub proof fn lemma_pending_accounted(t: TunnelState, id: Seq<char>, payload: Seq<u8>, now: u64)
    requires
        t.accounted(),
        !t.pending.contains(id),
    ensures
        after_dispatch(t, id, payload, now).accounted(),
        after_give_up(after_dispatch(t, id, payload, now), id, now).accounted(),
        after_give_up(t, id, now).accounted(),
{
    assert(t.pending.insert(id).remove(id) =~= t.pending);
}

} // verus!
