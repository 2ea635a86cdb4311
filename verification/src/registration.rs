//! The registration of an agent on the relay: its advertisement, the
//! acknowledgement, and what the relay does with each message of the
//! control channel once the tunnel is up.

use vstd::prelude::*;
use vstd::string::StringSliceAdditionalSpecFns;
use crate::frame::{decode_response, doc_response, DecodeError};
use crate::ip_filter::{parse_all, range_views, IpFilter};
use crate::json::{
    docs_of, json_doc, json_text, lemma_docs_of, lemma_members_of, members_of, parse_json,
    render_json, Json, JsonView,
};
use crate::registry::Allocation;
use crate::text::{push_char, push_str, string_views};
use crate::tunnel::{Delivery, Tunnel, TunnelState};

verus! {

/// How many frames the outbound queue of a control channel holds.
pub const OUTBOUND_QUEUE_FRAMES: usize = 100;

/// How long the relay waits for the advertisement of an agent, in
/// milliseconds.
pub const ADVERTISEMENT_TIMEOUT_MS: u64 = 30000;

/// The time between two keepalive pings, in milliseconds.
pub const KEEPALIVE_INTERVAL_MS: u64 = 30000;

/// What an agent advertises when it opens the control channel.
#[derive(Debug)]
pub struct Advertisement {
    /// The subdomain it asks for, if it asks for one.
    pub subdomain: Option<String>,
    /// The CIDR texts of its allow list.
    pub allow: Vec<String>,
    /// The CIDR texts of its deny list.
    pub deny: Vec<String>,
}

/// What an advertisement holds.
pub struct AdvertisementView {
    pub subdomain: Option<Seq<char>>,
    pub allow: Seq<Seq<char>>,
    pub deny: Seq<Seq<char>>,
}

impl View for Advertisement {
    type V = AdvertisementView;

    open spec fn view(&self) -> AdvertisementView {
        AdvertisementView {
            subdomain: match self.subdomain {
                Some(s) => Some(s@),
                None => None,
            },
            allow: string_views(self.allow@),
            deny: string_views(self.deny@),
        }
    }
}

/// The texts that a document stands for: a list of texts.
pub open spec fn doc_texts(j: JsonView) -> Option<Seq<Seq<char>>> {
    match j {
        JsonView::List(items) => if forall|i: int|
            0 <= i < items.len() ==> (#[trigger] items[i]) is Text {
            Some(Seq::new(items.len(), |i: int| items[i]->Text_0))
        } else {
            None
        },
        _ => None,
    }
}

/// One list of the advertised filter: the member `which` of the member
/// `ip_filter`, where that is a list of texts; else nothing.
pub open spec fn advertised_list(doc: JsonView, which: Seq<char>) -> Seq<Seq<char>> {
    match doc.field("ip_filter"@) {
        Some(filter) => match filter.field(which) {
            Some(list) => match doc_texts(list) {
                Some(texts) => texts,
                None => Seq::empty(),
            },
            None => Seq::empty(),
        },
        None => Seq::empty(),
    }
}

/// What the first message of an agent advertises. A message that is no JSON
/// document, or no message at all, advertises nothing: the agent is
/// anonymous and unfiltered.
pub open spec fn advertisement_of(doc: Option<JsonView>) -> AdvertisementView {
    match doc {
        Some(d) => AdvertisementView {
            subdomain: d.text_field("subdomain"@),
            allow: advertised_list(d, "allow"@),
            deny: advertised_list(d, "deny"@),
        },
        None => AdvertisementView {
            subdomain: None,
            allow: Seq::empty(),
            deny: Seq::empty(),
        },
    }
}

fn text_list(j: &Json) -> (r: Option<Vec<String>>)
    ensures
        match r {
            Some(t) => doc_texts(j@) == Some(string_views(t@)),
            None => doc_texts(j@) is None,
        },
{
    match j {
        Json::List(items) => {
            let ghost docs = docs_of(items@);
            proof {
                lemma_docs_of(items@);
            }
            let mut out: Vec<String> = Vec::new();
            let mut i: usize = 0;
            while i < items.len()
                invariant
                    i <= items.len(),
                    j@ == JsonView::List(docs),
                    docs.len() == items@.len(),
                    forall|k: int| 0 <= k < docs.len() ==> #[trigger] docs[k] == items@[k]@,
                    out@.len() == i,
                    forall|k: int|
                        0 <= k < i ==> (#[trigger] docs[k]) == JsonView::Text(out@[k]@),
                decreases items.len() - i,
            {
                match &items[i] {
                    Json::Text(s) => {
                        out.push(s.clone());
                    },
                    _ => {
                        assert(!(docs[i as int] is Text));
                        return None;
                    },
                }
                i += 1;
            }
            proof {
                assert(string_views(out@) =~= Seq::new(docs.len(), |i: int| docs[i]->Text_0));
            }
            Some(out)
        },
        _ => None,
    }
}

fn filter_list(doc: &Json, which: &str) -> (r: Vec<String>)
    ensures
        string_views(r@) == advertised_list(doc@, which@),
{
    let found = match doc.get("ip_filter") {
        Some(filter) => match filter.get(which) {
            Some(list) => text_list(list),
            None => None,
        },
        None => None,
    };
    match found {
        Some(texts) => texts,
        None => {
            let empty: Vec<String> = Vec::new();
            assert(string_views(empty@) =~= Seq::<Seq<char>>::empty());
            empty
        },
    }
}

/// What a parsed first message advertises.
pub fn advertisement_from_json(doc: Option<&Json>) -> (a: Advertisement)
    ensures
        a@ == advertisement_of(
            match doc {
                Some(d) => Some(d@),
                None => None,
            },
        ),
{
    match doc {
        Some(d) => {
            let subdomain = match d.get_str("subdomain") {
                Some(s) => Some(s.clone()),
                None => None,
            };
            Advertisement {
                subdomain,
                allow: filter_list(d, "allow"),
                deny: filter_list(d, "deny"),
            }
        },
        None => {
            let a = Advertisement { subdomain: None, allow: Vec::new(), deny: Vec::new() };
            assert(string_views(a.allow@) =~= Seq::<Seq<char>>::empty());
            assert(string_views(a.deny@) =~= Seq::<Seq<char>>::empty());
            a
        },
    }
}

/// Reads the advertisement from the first message of an agent: the text of
/// a text message, `None` where the first message is no text message or
/// none comes.
pub fn read_advertisement(text: Option<&str>) -> (a: Advertisement)
    ensures
        a@ == advertisement_of(
            match text {
                Some(t) => json_doc(t.spec_bytes()),
                None => None,
            },
        ),
{
    match text {
        Some(t) => {
            let doc = parse_json(t.as_bytes());
            match doc {
                Some(d) => advertisement_from_json(Some(&d)),
                None => advertisement_from_json(None),
            }
        },
        None => advertisement_from_json(None),
    }
}

impl Advertisement {
    /// The filter that the advertisement asks for: the ranges whose text
    /// parses.
    pub fn ip_filter(&self) -> (f: IpFilter)
        ensures
            range_views(f.allow@) == parse_all(self@.allow),
            range_views(f.deny@) == parse_all(self@.deny),
    {
        IpFilter::from_strings(self.allow.as_slice(), self.deny.as_slice())
    }
}


// ---------------------------------------------------------------------------
// The acknowledgement

/// What the relay answers to an advertisement.
#[derive(Debug)]
pub struct Acknowledgement {
    pub success: bool,
    pub subdomain: String,
    pub url: String,
    pub reassigned: bool,
    pub error: Option<String>,
}

/// What an acknowledgement holds.
pub struct AcknowledgementView {
    pub success: bool,
    pub subdomain: Seq<char>,
    pub url: Seq<char>,
    pub reassigned: bool,
    pub error: Option<Seq<char>>,
}

impl View for Acknowledgement {
    type V = AcknowledgementView;

    open spec fn view(&self) -> AcknowledgementView {
        AcknowledgementView {
            success: self.success,
            subdomain: self.subdomain@,
            url: self.url@,
            reassigned: self.reassigned,
            error: match self.error {
                Some(e) => Some(e@),
                None => None,
            },
        }
    }
}

/// The public URL of a tunnel: `https://`, the subdomain, a dot and the
/// root zone of the relay.
pub open spec fn tunnel_url(subdomain: Seq<char>, domain: Seq<char>) -> Seq<char> {
    "https://"@ + subdomain + seq!['.'] + domain
}

/// The acknowledgement of an allocation: the subdomain that was given out
/// and its URL, or the failure where none was.
pub open spec fn acknowledgement_of(
    allocation: Option<Allocation>,
    domain: Seq<char>,
) -> AcknowledgementView {
    match allocation {
        Some(a) => AcknowledgementView {
            success: true,
            subdomain: a.subdomain@,
            url: tunnel_url(a.subdomain@, domain),
            reassigned: a.reassigned,
            error: None,
        },
        None => AcknowledgementView {
            success: false,
            subdomain: Seq::empty(),
            url: Seq::empty(),
            reassigned: false,
            error: Some("No subdomain available"@),
        },
    }
}

/// Makes the acknowledgement of an allocation.
pub fn acknowledge(allocation: Option<&Allocation>, domain: &str) -> (a: Acknowledgement)
    ensures
        a@ == acknowledgement_of(
            match allocation {
                Some(x) => Some(*x),
                None => None,
            },
            domain@,
        ),
{
    match allocation {
        Some(x) => {
            let mut url = String::new();
            push_str(&mut url, "https://");
            push_str(&mut url, x.subdomain.as_str());
            push_char(&mut url, '.');
            push_str(&mut url, domain);
            assert(url@ == tunnel_url(x.subdomain@, domain@));
            Acknowledgement {
                success: true,
                subdomain: x.subdomain.clone(),
                url,
                reassigned: x.reassigned,
                error: None,
            }
        },
        None => Acknowledgement {
            success: false,
            subdomain: String::new(),
            url: String::new(),
            reassigned: false,
            error: Some("No subdomain available".to_owned()),
        },
    }
}

/// An acknowledgement as a document: an object with the members
/// `reassigned`, `subdomain`, `success` and `url`, and before them `error`
/// where there is one.
pub open spec fn acknowledgement_doc(a: AcknowledgementView) -> JsonView {
    let members = seq![
        ("reassigned"@, JsonView::Bool(a.reassigned)),
        ("subdomain"@, JsonView::Text(a.subdomain)),
        ("success"@, JsonView::Bool(a.success)),
        ("url"@, JsonView::Text(a.url)),
    ];
    match a.error {
        Some(e) => JsonView::Object(seq![("error"@, JsonView::Text(e))] + members),
        None => JsonView::Object(members),
    }
}

/// Law of the acknowledgement. The document of an acknowledgement holds
/// what the acknowledgement holds, under the names `success`, `reassigned`,
/// `subdomain`, `url` and, where there is one, `error`: an agent that reads
/// it reads the fate of its advertisement, the subdomain it was given and
/// the public URL.
pub proof fn lemma_acknowledgement_members(a: AcknowledgementView)
    ensures
        acknowledgement_doc(a).bool_field("success"@) == Some(a.success),
        acknowledgement_doc(a).bool_field("reassigned"@) == Some(a.reassigned),
        acknowledgement_doc(a).text_field("subdomain"@) == Some(a.subdomain),
        acknowledgement_doc(a).text_field("url"@) == Some(a.url),
        acknowledgement_doc(a).text_field("error"@) == a.error,
        ack_success(acknowledgement_doc(a)) == a.success,
{
    reveal_strlit("success");
    reveal_strlit("reassigned");
    reveal_strlit("subdomain");
    reveal_strlit("url");
    reveal_strlit("error");
    assert("success"@.len() == 7);
    assert("reassigned"@.len() == 10);
    assert("subdomain"@.len() == 9);
    assert("url"@.len() == 3);
    assert("error"@.len() == 5);
    let members = acknowledgement_doc(a)->Object_0;
    match a.error {
        Some(e) => {
            crate::json::lemma_member_at(members, 0, "error"@);
            crate::json::lemma_member_at(members, 1, "reassigned"@);
            crate::json::lemma_member_at(members, 2, "subdomain"@);
            crate::json::lemma_member_at(members, 3, "success"@);
            crate::json::lemma_member_at(members, 4, "url"@);
        },
        None => {
            crate::json::lemma_member_at(members, 0, "reassigned"@);
            crate::json::lemma_member_at(members, 1, "subdomain"@);
            crate::json::lemma_member_at(members, 2, "success"@);
            crate::json::lemma_member_at(members, 3, "url"@);
            crate::json::lemma_no_member(members, "error"@);
        },
    }
}

/// The document of an acknowledgement.
pub fn json_of_acknowledgement(a: &Acknowledgement) -> (doc: Json)
    ensures
        doc@ == acknowledgement_doc(a@),
{
    let mut members: Vec<(String, Json)> = Vec::new();
    match &a.error {
        Some(e) => {
            members.push(("error".to_owned(), Json::Text(e.clone())));
        },
        None => {},
    }
    members.push(("reassigned".to_owned(), Json::Bool(a.reassigned)));
    members.push(("subdomain".to_owned(), Json::Text(a.subdomain.clone())));
    members.push(("success".to_owned(), Json::Bool(a.success)));
    members.push(("url".to_owned(), Json::Text(a.url.clone())));
    proof {
        lemma_members_of(members@);
        assert(members_of(members@) =~= acknowledgement_doc(a@)->Object_0);
    }
    Json::Object(members)
}

/// Writes an acknowledgement as the text of a control message.
pub fn encode_acknowledgement(a: &Acknowledgement) -> (text: Vec<u8>)
    ensures
        text@ == json_text(acknowledgement_doc(a@)),
{
    let doc = json_of_acknowledgement(a);
    render_json(&doc)
}

/// What an agent reads in an acknowledgement.
#[derive(Debug)]
pub struct AckReading {
    /// Whether the relay says that the tunnel is up.
    pub success: bool,
    pub url: Option<String>,
    pub error: Option<String>,
}

/// What an acknowledgement document says to the agent: `success` where the
/// member of that name is `true`, and the members `url` and `error` where
/// they are texts.
pub open spec fn ack_success(doc: JsonView) -> bool {
    doc.bool_field("success"@) == Some(true)
}

/// The reading is what the acknowledgement document says.
pub open spec fn reads(r: AckReading, doc: JsonView) -> bool {
    &&& r.success == ack_success(doc)
    &&& match r.url {
        Some(u) => doc.text_field("url"@) == Some(u@),
        None => doc.text_field("url"@) is None,
    }
    &&& match r.error {
        Some(e) => doc.text_field("error"@) == Some(e@),
        None => doc.text_field("error"@) is None,
    }
}

/// What a parsed acknowledgement says to the agent.
pub fn reading_from_json(doc: &Json) -> (r: AckReading)
    ensures
        reads(r, doc@),
{
    let success = match doc.get_bool("success") {
        Some(b) => b,
        None => false,
    };
    let url = match doc.get_str("url") {
        Some(s) => Some(s.clone()),
        None => None,
    };
    let error = match doc.get_str("error") {
        Some(s) => Some(s.clone()),
        None => None,
    };
    AckReading { success, url, error }
}

/// Reads the acknowledgement of the relay. A text that is no JSON document
/// is no acknowledgement.
pub fn read_acknowledgement(text: &str) -> (r: Option<AckReading>)
    ensures
        r is Some <==> json_doc(text.spec_bytes()) is Some,
        r matches Some(a) ==> reads(a, json_doc(text.spec_bytes())->0),
{
    match parse_json(text.as_bytes()) {
        Some(doc) => Some(reading_from_json(&doc)),
        None => None,
    }
}

// ---------------------------------------------------------------------------
// The control channel of a tunnel that is up

/// A message of the control channel, as the transport hands it over.
#[derive(Debug)]
pub enum ControlMessage {
    Text(String),
    Binary(Vec<u8>),
    Ping(Vec<u8>),
    Pong(Vec<u8>),
    /// The peer closes the channel.
    Close,
    /// The channel has ended.
    End,
    /// The transport reports an error.
    Failed,
}

/// What the relay does after a message of the agent.
#[derive(Debug)]
pub enum RelayAction {
    /// Nothing: go on with the loop.
    Continue,
    /// Answer the ping with a pong that carries the same bytes.
    Pong(Vec<u8>),
    /// Leave the loop: the tunnel is over.
    Stop,
}

/// The tunnel after a frame `data` of the agent has come in at `now`.
///
/// A frame that decodes to a response counts as a success of the breaker
/// and completes the request that waits under its id, if one does. Any
/// other frame changes nothing.
pub open spec fn after_frame(t: TunnelState, data: Seq<u8>, now: u64) -> TunnelState {
    match json_doc(data) {
        Some(doc) => match doc_response(doc) {
            Some(response) => {
                let breaker = t.breaker.after_success(now);
                if t.pending.contains(response.id) {
                    TunnelState {
                        breaker,
                        pending: t.pending.remove(response.id),
                        completed: t.completed + 1,
                        ..t
                    }
                } else {
                    TunnelState { breaker, ..t }
                }
            },
            None => t,
        },
        None => t,
    }
}

/// Handles a binary frame of the agent at `now`: decodes the response,
/// records the success, and hands the response to the request that waits
/// for it. Says what became of the response; a frame that is no response is
/// an error and changes nothing.
pub fn on_agent_frame(tunnel: &mut Tunnel, data: &[u8], now: u64) -> (r: Result<
    Delivery,
    DecodeError,
>)
    ensures
        final(tunnel)@ == after_frame(old(tunnel)@, data@, now),
        match json_doc(data@) {
            None => r == Err::<Delivery, DecodeError>(DecodeError::NotJson),
            Some(doc) => match doc_response(doc) {
                None => r == Err::<Delivery, DecodeError>(DecodeError::WrongShape),
                Some(response) => {
                    &&& r matches Ok(d)
                    &&& d is NoWaiter <==> !old(tunnel)@.pending.contains(response.id)
                    &&& d matches Delivery::WaiterGone(back) ==> back@ == response
                },
            },
        },
        old(tunnel)@.accounted() ==> final(tunnel)@.accounted(),
{
    match decode_response(data) {
        Ok(response) => {
            tunnel.circuit_breaker_mut().record_success(now);
            Ok(tunnel.complete(response))
        },
        Err(e) => Err(e),
    }
}

/// What the relay does with a message of the agent at `now`.
///
/// A binary message is handled as a frame. A ping is answered. A close, or
/// the end of the channel, ends the tunnel. Everything else is passed over.
pub fn on_agent_message(tunnel: &mut Tunnel, message: ControlMessage, now: u64) -> (r: RelayAction)
    ensures
        match message {
            ControlMessage::Binary(data) => r is Continue && final(tunnel)@ == after_frame(
                old(tunnel)@,
                data@,
                now,
            ),
            ControlMessage::Ping(data) => r == RelayAction::Pong(data) && final(tunnel)@ == old(
                tunnel,
            )@,
            ControlMessage::Close => r is Stop && final(tunnel)@ == old(tunnel)@,
            ControlMessage::End => r is Stop && final(tunnel)@ == old(tunnel)@,
            _ => r is Continue && final(tunnel)@ == old(tunnel)@,
        },
        old(tunnel)@.accounted() ==> final(tunnel)@.accounted(),
{
    match message {
        ControlMessage::Binary(data) => {
            let _ = on_agent_frame(tunnel, data.as_slice(), now);
            RelayAction::Continue
        },
        ControlMessage::Ping(data) => RelayAction::Pong(data),
        ControlMessage::Close => RelayAction::Stop,
        ControlMessage::End => RelayAction::Stop,
        _ => RelayAction::Continue,
    }
}

/// A frame of the outbound queue could not be written to the channel at
/// `now`: a failure is recorded and the tunnel is over.
pub fn on_write_failed(tunnel: &mut Tunnel, now: u64) -> (r: RelayAction)
    ensures
        r is Stop,
        final(tunnel)@ == (TunnelState {
            breaker: old(tunnel)@.breaker.after_failure(now),
            ..old(tunnel)@
        }),
{
    tunnel.circuit_breaker_mut().record_failure(now);
    RelayAction::Stop
}

/// The tunnel is up at `now`: hands out the frames that wait in the breaker
/// to be written to the new channel, oldest first, and closes the breaker.
pub fn on_tunnel_up(tunnel: &mut Tunnel, now: u64) -> (frames: Vec<Vec<u8>>)
    ensures
        crate::circuit_breaker::frame_views(frames@) == old(tunnel)@.breaker.drained(now),
        final(tunnel)@ == (TunnelState {
            breaker: old(tunnel)@.breaker.after_drain(now),
            ..old(tunnel)@
        }),
{
    tunnel.circuit_breaker_mut().drain_queue(now)
}

} // verus!
