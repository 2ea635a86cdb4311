//! The records that a binary control frame carries, and their codec.
//!
//! A frame holds one request (relay to agent) or one response (agent to
//! relay) as a JSON object. Headers keep their order; a body that is missing
//! is not the same as a body that is empty.

use vstd::prelude::*;
use crate::json::{
    docs_of, json_doc, json_text, lemma_docs_of, lemma_member_at, lemma_members_of, members_of,
    parse_json, render_json, Json, JsonView,
};

verus! {

/// A request forwarded through the tunnel.
#[derive(Debug, Clone)]
pub struct TunnelRequest {
    pub id: String,
    pub method: String,
    pub path: String,
    pub headers: Vec<(String, String)>,
    pub body: Option<Vec<u8>>,
}

/// The response of the local service to one request.
#[derive(Debug, Clone)]
pub struct TunnelResponse {
    pub id: String,
    pub status: u16,
    pub headers: Vec<(String, String)>,
    pub body: Option<Vec<u8>>,
}

/// What a request holds.
pub struct RequestView {
    pub id: Seq<char>,
    pub method: Seq<char>,
    pub path: Seq<char>,
    pub headers: Seq<(Seq<char>, Seq<char>)>,
    pub body: Option<Seq<u8>>,
}

/// What a response holds.
pub struct ResponseView {
    pub id: Seq<char>,
    pub status: u16,
    pub headers: Seq<(Seq<char>, Seq<char>)>,
    pub body: Option<Seq<u8>>,
}

/// The names and values of a list of headers, in order.
pub open spec fn header_views(h: Seq<(String, String)>) -> Seq<(Seq<char>, Seq<char>)> {
    Seq::new(h.len(), |i: int| (h[i].0@, h[i].1@))
}

/// The bytes of a body, if there is one.
pub open spec fn body_view(b: Option<Vec<u8>>) -> Option<Seq<u8>> {
    match b {
        Some(v) => Some(v@),
        None => None,
    }
}

impl View for TunnelRequest {
    type V = RequestView;

    open spec fn view(&self) -> RequestView {
        RequestView {
            id: self.id@,
            method: self.method@,
            path: self.path@,
            headers: header_views(self.headers@),
            body: body_view(self.body),
        }
    }
}

impl View for TunnelResponse {
    type V = ResponseView;

    open spec fn view(&self) -> ResponseView {
        ResponseView {
            id: self.id@,
            status: self.status,
            headers: header_views(self.headers@),
            body: body_view(self.body),
        }
    }
}

/// Why a frame was not decoded.
#[derive(Debug, Clone, Copy, PartialEq, Eq, Structural)]
pub enum DecodeError {
    /// The payload is not one JSON document: it is cut short, or malformed.
    NotJson,
    /// The document is not an object with the members of the record.
    WrongShape,
}

// ---------------------------------------------------------------------------
// Records as documents

/// A body as a document: a list of numbers, one for each byte.
pub open spec fn bytes_doc(b: Seq<u8>) -> JsonView {
    JsonView::List(Seq::new(b.len(), |i: int| JsonView::Number(b[i] as u64)))
}

/// A body that may be missing: `null` where there is none.
pub open spec fn body_doc(b: Option<Seq<u8>>) -> JsonView {
    match b {
        Some(bytes) => bytes_doc(bytes),
        None => JsonView::Null,
    }
}

/// A header as a document: the list of its name and its value.
pub open spec fn header_doc(h: (Seq<char>, Seq<char>)) -> JsonView {
    JsonView::List(seq![JsonView::Text(h.0), JsonView::Text(h.1)])
}

/// Headers as a document: the list of the headers, in order.
pub open spec fn headers_doc(h: Seq<(Seq<char>, Seq<char>)>) -> JsonView {
    JsonView::List(Seq::new(h.len(), |i: int| header_doc(h[i])))
}

/// A request as a document.
pub open spec fn request_doc(r: RequestView) -> JsonView {
    JsonView::Object(
        seq![
            ("body"@, body_doc(r.body)),
            ("headers"@, headers_doc(r.headers)),
            ("id"@, JsonView::Text(r.id)),
            ("method"@, JsonView::Text(r.method)),
            ("path"@, JsonView::Text(r.path)),
        ],
    )
}

/// The payload that carries a request: the JSON text of its document.
pub open spec fn json_text_of_request(r: RequestView) -> Seq<u8> {
    json_text(request_doc(r))
}

/// The payload that carries a response: the JSON text of its document.
pub open spec fn json_text_of_response(r: ResponseView) -> Seq<u8> {
    json_text(response_doc(r))
}

/// A response as a document.
pub open spec fn response_doc(r: ResponseView) -> JsonView {
    JsonView::Object(
        seq![
            ("body"@, body_doc(r.body)),
            ("headers"@, headers_doc(r.headers)),
            ("id"@, JsonView::Text(r.id)),
            ("status"@, JsonView::Number(r.status as u64)),
        ],
    )
}

// ---------------------------------------------------------------------------
// Documents as records

/// The byte that a document stands for: a whole number up to 255.
pub open spec fn doc_byte(j: JsonView) -> Option<u8> {
    match j {
        JsonView::Number(n) => if n <= 255 {
            Some(n as u8)
        } else {
            None
        },
        _ => None,
    }
}

/// The bytes that a document stands for: a list of bytes.
pub open spec fn doc_bytes(j: JsonView) -> Option<Seq<u8>> {
    match j {
        JsonView::List(items) => if forall|i: int|
            0 <= i < items.len() ==> doc_byte(#[trigger] items[i]) is Some {
            Some(Seq::new(items.len(), |i: int| doc_byte(items[i])->0))
        } else {
            None
        },
        _ => None,
    }
}

/// The body that a member stands for: none where the member is missing or
/// `null`, else the bytes of the list.
pub open spec fn doc_body(j: Option<JsonView>) -> Option<Option<Seq<u8>>> {
    match j {
        None => Some(None),
        Some(JsonView::Null) => Some(None),
        Some(v) => match doc_bytes(v) {
            Some(b) => Some(Some(b)),
            None => None,
        },
    }
}

/// The header that a document stands for: a list of two texts.
pub open spec fn doc_header(j: JsonView) -> Option<(Seq<char>, Seq<char>)> {
    match j {
        JsonView::List(p) => if p.len() == 2 && p[0] is Text && p[1] is Text {
            Some((p[0]->Text_0, p[1]->Text_0))
        } else {
            None
        },
        _ => None,
    }
}

/// The headers that a document stands for: a list of headers.
pub open spec fn doc_headers(j: JsonView) -> Option<Seq<(Seq<char>, Seq<char>)>> {
    match j {
        JsonView::List(items) => if forall|i: int|
            0 <= i < items.len() ==> doc_header(#[trigger] items[i]) is Some {
            Some(Seq::new(items.len(), |i: int| doc_header(items[i])->0))
        } else {
            None
        },
        _ => None,
    }
}

/// The headers that a member stands for; a missing member stands for none.
pub open spec fn doc_headers_member(j: Option<JsonView>) -> Option<Seq<(Seq<char>, Seq<char>)>> {
    match j {
        Some(v) => doc_headers(v),
        None => None,
    }
}

/// The status that a member stands for: a whole number up to 65535.
pub open spec fn doc_status(j: Option<JsonView>) -> Option<u16> {
    match j {
        Some(JsonView::Number(n)) => if n <= 65535 {
            Some(n as u16)
        } else {
            None
        },
        _ => None,
    }
}

/// The request that a document stands for: an object whose members `id`,
/// `method` and `path` are texts, whose member `headers` is a list of
/// headers, and whose member `body`, if it has one, is `null` or a list of
/// bytes. Other members are not looked at.
pub open spec fn doc_request(j: JsonView) -> Option<RequestView> {
    match (
        j.text_field("id"@),
        j.text_field("method"@),
        j.text_field("path"@),
        doc_headers_member(j.field("headers"@)),
        doc_body(j.field("body"@)),
    ) {
        (Some(id), Some(method), Some(path), Some(headers), Some(body)) => Some(
            RequestView { id, method, path, headers, body },
        ),
        _ => None,
    }
}

/// The response that a document stands for: an object whose member `id` is a
/// text, whose member `status` is a whole number up to 65535, whose member
/// `headers` is a list of headers, and whose member `body`, if it has one,
/// is `null` or a list of bytes. Other members are not looked at.
pub open spec fn doc_response(j: JsonView) -> Option<ResponseView> {
    match (
        j.text_field("id"@),
        doc_status(j.field("status"@)),
        doc_headers_member(j.field("headers"@)),
        doc_body(j.field("body"@)),
    ) {
        (Some(id), Some(status), Some(headers), Some(body)) => Some(
            ResponseView { id, status, headers, body },
        ),
        _ => None,
    }
}


// ---------------------------------------------------------------------------
// Writing

fn text_node(s: &String) -> (j: Json)
    ensures
        j@ == JsonView::Text(s@),
{
    Json::Text(s.clone())
}

fn bytes_node(b: &Vec<u8>) -> (j: Json)
    ensures
        j@ == bytes_doc(b@),
{
    let mut items: Vec<Json> = Vec::new();
    let mut i: usize = 0;
    while i < b.len()
        invariant
            i <= b.len(),
            items@.len() == i,
            forall|k: int| 0 <= k < i ==> (#[trigger] items@[k])@ == JsonView::Number(b@[k] as u64),
        decreases b.len() - i,
    {
        items.push(Json::Number(b[i] as u64));
        i += 1;
    }
    proof {
        lemma_docs_of(items@);
        assert(docs_of(items@) =~= Seq::new(b@.len(), |i: int| JsonView::Number(b@[i] as u64)));
    }
    Json::List(items)
}

fn body_node(b: &Option<Vec<u8>>) -> (j: Json)
    ensures
        j@ == body_doc(body_view(*b)),
{
    match b {
        Some(bytes) => bytes_node(bytes),
        None => Json::Null,
    }
}

fn header_node(name: &String, value: &String) -> (j: Json)
    ensures
        j@ == header_doc((name@, value@)),
{
    let mut pair: Vec<Json> = Vec::new();
    pair.push(text_node(name));
    pair.push(text_node(value));
    proof {
        lemma_docs_of(pair@);
        assert(docs_of(pair@) =~= seq![JsonView::Text(name@), JsonView::Text(value@)]);
    }
    Json::List(pair)
}

fn headers_node(h: &Vec<(String, String)>) -> (j: Json)
    ensures
        j@ == headers_doc(header_views(h@)),
{
    let mut items: Vec<Json> = Vec::new();
    let mut i: usize = 0;
    while i < h.len()
        invariant
            i <= h.len(),
            items@.len() == i,
            forall|k: int|
                0 <= k < i ==> (#[trigger] items@[k])@ == header_doc(header_views(h@)[k]),
        decreases h.len() - i,
    {
        items.push(header_node(&h[i].0, &h[i].1));
        i += 1;
    }
    proof {
        lemma_docs_of(items@);
        let hv = header_views(h@);
        assert(docs_of(items@) =~= Seq::new(hv.len(), |i: int| header_doc(hv[i])));
    }
    Json::List(items)
}

/// The document of a request.
pub fn json_of_request(r: &TunnelRequest) -> (doc: Json)
    ensures
        doc@ == request_doc(r@),
{
    let mut members: Vec<(String, Json)> = Vec::new();
    members.push(("body".to_owned(), body_node(&r.body)));
    members.push(("headers".to_owned(), headers_node(&r.headers)));
    members.push(("id".to_owned(), text_node(&r.id)));
    members.push(("method".to_owned(), text_node(&r.method)));
    members.push(("path".to_owned(), text_node(&r.path)));
    proof {
        lemma_members_of(members@);
        assert(members_of(members@) =~= request_doc(r@)->Object_0);
    }
    Json::Object(members)
}

/// The document of a response.
pub fn json_of_response(r: &TunnelResponse) -> (doc: Json)
    ensures
        doc@ == response_doc(r@),
{
    let mut members: Vec<(String, Json)> = Vec::new();
    members.push(("body".to_owned(), body_node(&r.body)));
    members.push(("headers".to_owned(), headers_node(&r.headers)));
    members.push(("id".to_owned(), text_node(&r.id)));
    members.push(("status".to_owned(), Json::Number(r.status as u64)));
    proof {
        lemma_members_of(members@);
        assert(members_of(members@) =~= response_doc(r@)->Object_0);
    }
    Json::Object(members)
}

/// Serializes a request as the payload of a binary frame: the JSON text of
/// its document.
pub fn encode_request(r: &TunnelRequest) -> (data: Vec<u8>)
    ensures
        data@ == json_text(request_doc(r@)),
{
    let doc = json_of_request(r);
    render_json(&doc)
}

/// Serializes a response as the payload of a binary frame: the JSON text of
/// its document.
pub fn encode_response(r: &TunnelResponse) -> (data: Vec<u8>)
    ensures
        data@ == json_text(response_doc(r@)),
{
    let doc = json_of_response(r);
    render_json(&doc)
}

// ---------------------------------------------------------------------------
// Reading

fn byte_list(j: &Json) -> (r: Option<Vec<u8>>)
    ensures
        match r {
            Some(b) => doc_bytes(j@) == Some(b@),
            None => doc_bytes(j@) is None,
        },
{
    match j {
        Json::List(items) => {
            let ghost docs = docs_of(items@);
            proof {
                lemma_docs_of(items@);
            }
            let mut out: Vec<u8> = Vec::new();
            let mut i: usize = 0;
            while i < items.len()
                invariant
                    i <= items.len(),
                    j@ == JsonView::List(docs),
                    docs.len() == items@.len(),
                    forall|k: int| 0 <= k < docs.len() ==> #[trigger] docs[k] == items@[k]@,
                    out@.len() == i,
                    forall|k: int|
                        0 <= k < i ==> doc_byte(#[trigger] docs[k]) == Some(out@[k]),
                decreases items.len() - i,
            {
                match &items[i] {
                    Json::Number(n) => {
                        if *n <= 255 {
                            out.push(*n as u8);
                        } else {
                            assert(doc_byte(docs[i as int]) is None);
                            return None;
                        }
                    },
                    _ => {
                        assert(doc_byte(docs[i as int]) is None);
                        return None;
                    },
                }
                i += 1;
            }
            proof {
                assert(out@ =~= Seq::new(docs.len(), |i: int| doc_byte(docs[i])->0));
            }
            Some(out)
        },
        _ => None,
    }
}

fn header_pair(j: &Json) -> (r: Option<(String, String)>)
    ensures
        match r {
            Some(h) => doc_header(j@) == Some((h.0@, h.1@)),
            None => doc_header(j@) is None,
        },
{
    match j {
        Json::List(pair) => {
            proof {
                lemma_docs_of(pair@);
            }
            if pair.len() != 2 {
                return None;
            }
            match (&pair[0], &pair[1]) {
                (Json::Text(name), Json::Text(value)) => Some((name.clone(), value.clone())),
                _ => None,
            }
        },
        _ => None,
    }
}

fn header_list(j: &Json) -> (r: Option<Vec<(String, String)>>)
    ensures
        match r {
            Some(h) => doc_headers(j@) == Some(header_views(h@)),
            None => doc_headers(j@) is None,
        },
{
    match j {
        Json::List(items) => {
            let ghost docs = docs_of(items@);
            proof {
                lemma_docs_of(items@);
            }
            let mut out: Vec<(String, String)> = Vec::new();
            let mut i: usize = 0;
            while i < items.len()
                invariant
                    i <= items.len(),
                    j@ == JsonView::List(docs),
                    docs.len() == items@.len(),
                    forall|k: int| 0 <= k < docs.len() ==> #[trigger] docs[k] == items@[k]@,
                    out@.len() == i,
                    forall|k: int|
                        0 <= k < i ==> doc_header(#[trigger] docs[k]) == Some(
                            header_views(out@)[k],
                        ),
                decreases items.len() - i,
            {
                match header_pair(&items[i]) {
                    Some(h) => {
                        let ghost before = out@;
                        out.push(h);
                        assert forall|k: int| 0 <= k < i + 1 implies doc_header(
                            #[trigger] docs[k],
                        ) == Some(header_views(out@)[k]) by {
                            if k < i {
                                assert(header_views(out@)[k] == header_views(before)[k]);
                            }
                        }
                    },
                    None => {
                        assert(doc_header(docs[i as int]) is None);
                        return None;
                    },
                }
                i += 1;
            }
            proof {
                assert(header_views(out@) =~= Seq::new(
                    docs.len(),
                    |i: int| doc_header(docs[i])->0,
                ));
            }
            Some(out)
        },
        _ => None,
    }
}

fn body_member(j: Option<&Json>) -> (r: Option<Option<Vec<u8>>>)
    ensures
        match r {
            Some(b) => doc_body(
                match j {
                    Some(v) => Some(v@),
                    None => None,
                },
            ) == Some(body_view(b)),
            None => doc_body(
                match j {
                    Some(v) => Some(v@),
                    None => None,
                },
            ) is None,
        },
{
    match j {
        None => Some(None),
        Some(Json::Null) => Some(None),
        Some(v) => match byte_list(v) {
            Some(b) => Some(Some(b)),
            None => None,
        },
    }
}

/// The request that a document stands for, if it stands for one.
pub fn request_of_json(doc: &Json) -> (r: Option<TunnelRequest>)
    ensures
        match r {
            Some(q) => doc_request(doc@) == Some(q@),
            None => doc_request(doc@) is None,
        },
{
    let id = match doc.get_str("id") {
        Some(s) => s.clone(),
        None => { return None; },
    };
    let method = match doc.get_str("method") {
        Some(s) => s.clone(),
        None => { return None; },
    };
    let path = match doc.get_str("path") {
        Some(s) => s.clone(),
        None => { return None; },
    };
    let headers = match doc.get("headers") {
        Some(h) => match header_list(h) {
            Some(list) => list,
            None => { return None; },
        },
        None => { return None; },
    };
    let body = match body_member(doc.get("body")) {
        Some(b) => b,
        None => { return None; },
    };
    Some(TunnelRequest { id, method, path, headers, body })
}

/// The response that a document stands for, if it stands for one.
pub fn response_of_json(doc: &Json) -> (r: Option<TunnelResponse>)
    ensures
        match r {
            Some(q) => doc_response(doc@) == Some(q@),
            None => doc_response(doc@) is None,
        },
{
    let id = match doc.get_str("id") {
        Some(s) => s.clone(),
        None => { return None; },
    };
    let status: u16 = match doc.get("status") {
        Some(Json::Number(n)) => {
            if *n <= 65535 {
                *n as u16
            } else {
                return None;
            }
        },
        _ => { return None; },
    };
    let headers = match doc.get("headers") {
        Some(h) => match header_list(h) {
            Some(list) => list,
            None => { return None; },
        },
        None => { return None; },
    };
    let body = match body_member(doc.get("body")) {
        Some(b) => b,
        None => { return None; },
    };
    Some(TunnelResponse { id, status, headers, body })
}

/// Reads a request from the payload of a binary frame.
pub fn decode_request(data: &[u8]) -> (r: Result<TunnelRequest, DecodeError>)
    ensures
        match json_doc(data@) {
            None => r == Err::<TunnelRequest, DecodeError>(DecodeError::NotJson),
            Some(doc) => match doc_request(doc) {
                Some(q) => r is Ok && r->Ok_0@ == q,
                None => r == Err::<TunnelRequest, DecodeError>(DecodeError::WrongShape),
            },
        },
{
    match parse_json(data) {
        None => Err(DecodeError::NotJson),
        Some(doc) => match request_of_json(&doc) {
            Some(q) => Ok(q),
            None => Err(DecodeError::WrongShape),
        },
    }
}

/// Reads a response from the payload of a binary frame.
pub fn decode_response(data: &[u8]) -> (r: Result<TunnelResponse, DecodeError>)
    ensures
        match json_doc(data@) {
            None => r == Err::<TunnelResponse, DecodeError>(DecodeError::NotJson),
            Some(doc) => match doc_response(doc) {
                Some(q) => r is Ok && r->Ok_0@ == q,
                None => r == Err::<TunnelResponse, DecodeError>(DecodeError::WrongShape),
            },
        },
{
    match parse_json(data) {
        None => Err(DecodeError::NotJson),
        Some(doc) => match response_of_json(&doc) {
            Some(q) => Ok(q),
            None => Err(DecodeError::WrongShape),
        },
    }
}


// ---------------------------------------------------------------------------
// Laws

proof fn lemma_member_names()
    ensures
        "body"@ != "headers"@,
        "body"@ != "id"@,
        "body"@ != "method"@,
        "body"@ != "path"@,
        "body"@ != "status"@,
        "headers"@ != "id"@,
        "headers"@ != "method"@,
        "headers"@ != "path"@,
        "headers"@ != "status"@,
        "id"@ != "method"@,
        "id"@ != "path"@,
        "id"@ != "status"@,
        "method"@ != "path"@,
{
    reveal_strlit("body");
    reveal_strlit("headers");
    reveal_strlit("id");
    reveal_strlit("method");
    reveal_strlit("path");
    reveal_strlit("status");
    assert("body"@.len() == 4);
    assert("headers"@.len() == 7);
    assert("id"@.len() == 2);
    assert("method"@.len() == 6);
    assert("path"@.len() == 4);
    assert("status"@.len() == 6);
    assert("body"@[0] == 'b');
    assert("path"@[0] == 'p');
    assert("method"@[0] == 'm');
    assert("status"@[0] == 's');
}

/// The document of a body stands for that body.
pub proof fn lemma_body_round_trip(b: Option<Seq<u8>>)
    ensures
        doc_body(Some(body_doc(b))) == Some(b),
{
    match b {
        Some(bytes) => {
            let items = Seq::new(bytes.len(), |i: int| JsonView::Number(bytes[i] as u64));
            assert forall|i: int| 0 <= i < items.len() implies doc_byte(#[trigger] items[i])
                == Some(bytes[i]) by {}
            assert(Seq::new(items.len(), |i: int| doc_byte(items[i])->0) =~= bytes);
        },
        None => {},
    }
}

/// The document of a list of headers stands for those headers, in their
/// order.
pub proof fn lemma_headers_round_trip(h: Seq<(Seq<char>, Seq<char>)>)
    ensures
        doc_headers(headers_doc(h)) == Some(h),
{
    let items = Seq::new(h.len(), |i: int| header_doc(h[i]));
    assert forall|i: int| 0 <= i < items.len() implies doc_header(#[trigger] items[i]) == Some(
        h[i],
    ) by {}
    assert(Seq::new(items.len(), |i: int| doc_header(items[i])->0) =~= h);
}

/// Law of the codec, for requests: the document written for a request
/// stands for that same request, with its id, its headers in their order and
/// its body byte for byte, a missing body staying missing.
pub proof fn lemma_request_round_trip(r: RequestView)
    ensures
        doc_request(request_doc(r)) == Some(r),
{
    lemma_member_names();
    lemma_body_round_trip(r.body);
    lemma_headers_round_trip(r.headers);
    let members = request_doc(r)->Object_0;
    lemma_member_at(members, 0, "body"@);
    lemma_member_at(members, 1, "headers"@);
    lemma_member_at(members, 2, "id"@);
    lemma_member_at(members, 3, "method"@);
    lemma_member_at(members, 4, "path"@);
}

/// Law of the codec, for responses: the document written for a response
/// stands for that same response, with its id and status as they were, its
/// headers in their order and its body byte for byte.
pub proof fn lemma_response_round_trip(r: ResponseView)
    ensures
        doc_response(response_doc(r)) == Some(r),
{
    lemma_member_names();
    lemma_body_round_trip(r.body);
    lemma_headers_round_trip(r.headers);
    let members = response_doc(r)->Object_0;
    lemma_member_at(members, 0, "body"@);
    lemma_member_at(members, 1, "headers"@);
    lemma_member_at(members, 2, "id"@);
    lemma_member_at(members, 3, "status"@);
}

} // verus!
