//! The agent's side of the control channel: what it advertises, and what it
//! does with each message of the relay.

use vstd::prelude::*;
use crate::forwarder::{http_request, response_of, write_request, ResponseReader};
use crate::frame::{
    decode_request, doc_request, encode_response, json_text_of_response, DecodeError,
    TunnelRequest, TunnelResponse,
};
use crate::json::{
    docs_of, json_doc, json_text, lemma_docs_of, lemma_members_of, members_of, render_json, Json,
    JsonView,
};
use crate::registration::ControlMessage;
use crate::text::{str_is, string_views};

verus! {

/// How long an agent waits before it connects again, in milliseconds.
pub const RECONNECT_DELAY_MS: u64 = 5000;

/// What an agent does after a tunnel has ended.
#[derive(Debug, Clone, Copy, PartialEq, Eq, Structural)]
pub enum AfterTunnel {
    /// The tunnel ended in order: it is not opened again.
    Stop,
    /// The tunnel failed: it is opened again after the delay, with a new
    /// advertisement.
    Retry { delay_ms: u64 },
}

/// What comes after a tunnel has ended: nothing more where it ended in
/// order, and a new attempt after the delay where it failed.
pub fn after_tunnel(ended_cleanly: bool) -> (r: AfterTunnel)
    ensures
        r == (if ended_cleanly {
            AfterTunnel::Stop
        } else {
            AfterTunnel::Retry { delay_ms: RECONNECT_DELAY_MS }
        }),
{
    if ended_cleanly {
        AfterTunnel::Stop
    } else {
        AfterTunnel::Retry { delay_ms: RECONNECT_DELAY_MS }
    }
}

/// How many bytes a raw TCP tunnel reads of one answer.
pub const TCP_READ_BYTES: usize = 65536;

/// What an agent advertises.
#[derive(Debug)]
pub struct Registration {
    pub subdomain: Option<String>,
    /// `http` or `tcp`.
    pub proto: String,
    pub local_port: u16,
    /// The name of the tunnel, where it has one.
    pub name: Option<String>,
    /// The allow and deny lists of its filter, where it has one.
    pub ip_filter: Option<(Vec<String>, Vec<String>)>,
}

/// A list of texts as a document.
pub open spec fn texts_doc(t: Seq<Seq<char>>) -> JsonView {
    JsonView::List(Seq::new(t.len(), |i: int| JsonView::Text(t[i])))
}

/// A text that may be missing as a document: `null` where it is missing.
pub open spec fn optional_text_doc(t: Option<String>) -> JsonView {
    match t {
        Some(s) => JsonView::Text(s@),
        None => JsonView::Null,
    }
}

/// An advertisement as a document: an object with the members `ip_filter`
/// (where there is a filter), `local_port`, `name` (where there is a name),
/// `subdomain` and `type`.
pub open spec fn registration_doc(r: Registration) -> JsonView {
    let filter: Seq<(Seq<char>, JsonView)> = match r.ip_filter {
        Some(f) => seq![
            (
                "ip_filter"@,
                JsonView::Object(
                    seq![
                        ("allow"@, texts_doc(string_views(f.0@))),
                        ("deny"@, texts_doc(string_views(f.1@))),
                    ],
                ),
            ),
        ],
        None => Seq::empty(),
    };
    let port = seq![("local_port"@, JsonView::Number(r.local_port as u64))];
    let name: Seq<(Seq<char>, JsonView)> = match r.name {
        Some(n) => seq![("name"@, JsonView::Text(n@))],
        None => Seq::empty(),
    };
    let rest = seq![
        ("subdomain"@, optional_text_doc(r.subdomain)),
        ("type"@, JsonView::Text(r.proto@)),
    ];
    JsonView::Object(filter + port + name + rest)
}

fn texts_node(t: &Vec<String>) -> (j: Json)
    ensures
        j@ == texts_doc(string_views(t@)),
{
    let mut items: Vec<Json> = Vec::new();
    let mut i: usize = 0;
    while i < t.len()
        invariant
            i <= t.len(),
            items@.len() == i,
            forall|k: int| 0 <= k < i ==> (#[trigger] items@[k])@ == JsonView::Text(t@[k]@),
        decreases t.len() - i,
    {
        items.push(Json::Text(t[i].clone()));
        i += 1;
    }
    proof {
        lemma_docs_of(items@);
        let tv = string_views(t@);
        assert(docs_of(items@) =~= Seq::new(tv.len(), |i: int| JsonView::Text(tv[i])));
    }
    Json::List(items)
}

/// The document of an advertisement.
pub fn json_of_registration(r: &Registration) -> (doc: Json)
    ensures
        doc@ == registration_doc(*r),
{
    let mut members: Vec<(String, Json)> = Vec::new();
    match &r.ip_filter {
        Some(f) => {
            let mut lists: Vec<(String, Json)> = Vec::new();
            lists.push(("allow".to_owned(), texts_node(&f.0)));
            lists.push(("deny".to_owned(), texts_node(&f.1)));
            proof {
                lemma_members_of(lists@);
                assert(members_of(lists@) =~= seq![
                    ("allow"@, texts_doc(string_views(f.0@))),
                    ("deny"@, texts_doc(string_views(f.1@))),
                ]);
            }
            members.push(("ip_filter".to_owned(), Json::Object(lists)));
        },
        None => {},
    }
    members.push(("local_port".to_owned(), Json::Number(r.local_port as u64)));
    match &r.name {
        Some(n) => {
            members.push(("name".to_owned(), Json::Text(n.clone())));
        },
        None => {},
    }
    let subdomain = match &r.subdomain {
        Some(s) => Json::Text(s.clone()),
        None => Json::Null,
    };
    members.push(("subdomain".to_owned(), subdomain));
    members.push(("type".to_owned(), Json::Text(r.proto.clone())));
    proof {
        lemma_members_of(members@);
        assert(members_of(members@) =~= registration_doc(*r)->Object_0);
    }
    Json::Object(members)
}

/// Writes an advertisement as the text of the first control message.
pub fn encode_registration(r: &Registration) -> (text: Vec<u8>)
    ensures
        text@ == json_text(registration_doc(*r)),
{
    let doc = json_of_registration(r);
    render_json(&doc)
}

/// What the agent does after a message of the relay.
#[derive(Debug)]
pub enum AgentAction {
    /// Nothing: go on with the loop.
    Continue,
    /// Serve the frame: forward it to the local service.
    Serve(Vec<u8>),
    /// Answer the ping with a pong that carries the same bytes.
    Pong(Vec<u8>),
    /// Leave the loop: the channel is closed, has ended or has failed.
    Stop,
}

/// What the agent does with a message of the relay: a binary message is
/// served, a ping answered; a close, the end of the channel or an error of
/// the transport ends the loop; everything else is passed over.
pub fn on_relay_message(message: ControlMessage) -> (r: AgentAction)
    ensures
        match message {
            ControlMessage::Binary(data) => r == AgentAction::Serve(data),
            ControlMessage::Ping(data) => r == AgentAction::Pong(data),
            ControlMessage::Close => r is Stop,
            ControlMessage::End => r is Stop,
            ControlMessage::Failed => r is Stop,
            _ => r is Continue,
        },
{
    match message {
        ControlMessage::Binary(data) => AgentAction::Serve(data),
        ControlMessage::Ping(data) => AgentAction::Pong(data),
        ControlMessage::Close => AgentAction::Stop,
        ControlMessage::End => AgentAction::Stop,
        ControlMessage::Failed => AgentAction::Stop,
        _ => AgentAction::Continue,
    }
}

/// How a tunnel serves a frame.
#[derive(Debug, Clone, Copy, PartialEq, Eq, Structural)]
pub enum ServeAs {
    /// As a request for the local HTTP service.
    Http,
    /// As bytes for the local TCP service.
    Tcp,
    /// Not at all.
    Nothing,
}

/// How a tunnel of the protocol `proto` serves a frame: `http` and `tcp`
/// are served, anything else is not.
pub fn serve_as(proto: &str) -> (r: ServeAs)
    ensures
        r == (if proto@ == "http"@ {
            ServeAs::Http
        } else if proto@ == "tcp"@ {
            ServeAs::Tcp
        } else {
            ServeAs::Nothing
        }),
{
    if str_is(proto, "http") {
        ServeAs::Http
    } else if str_is(proto, "tcp") {
        ServeAs::Tcp
    } else {
        ServeAs::Nothing
    }
}

/// A forwarded request, ready to be written to the local service.
#[derive(Debug)]
pub struct Forward {
    pub request: TunnelRequest,
    /// The bytes to write.
    pub bytes: Vec<u8>,
}

/// Begins to serve a frame: decodes the request and writes the HTTP request
/// for the local service at `host` and `port`. A frame that is no request is
/// not served.
pub fn begin_forward(data: &[u8], host: &str, port: u16) -> (r: Result<Forward, DecodeError>)
    ensures
        match json_doc(data@) {
            None => r == Err::<Forward, DecodeError>(DecodeError::NotJson),
            Some(doc) => match doc_request(doc) {
                None => r == Err::<Forward, DecodeError>(DecodeError::WrongShape),
                Some(q) => {
                    &&& r matches Ok(f)
                    &&& f.request@ == q
                    &&& f.bytes@ == http_request(q, host@, port)
                },
            },
        },
{
    match decode_request(data) {
        Ok(request) => {
            let bytes = write_request(&request, host, port);
            Ok(Forward { request, bytes })
        },
        Err(e) => Err(e),
    }
}

/// A response, and the payload of the frame that carries it back.
#[derive(Debug)]
pub struct Answer {
    pub response: TunnelResponse,
    pub payload: Vec<u8>,
}

/// Ends the serving of a request: makes the response of what was read from
/// the local service, under the id of the request, and serializes it as the
/// payload of the frame that goes back.
pub fn finish_forward(request: &TunnelRequest, reader: ResponseReader) -> (answer: Answer)
    ensures
        answer.response@ == response_of(request@.id, reader.bytes()),
        answer.payload@ == json_text_of_response(answer.response@),
{
    let response = reader.finish(request.id.clone());
    let payload = encode_response(&response);
    Answer { response, payload }
}

} // verus!
