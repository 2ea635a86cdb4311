//! The record of the latest exchanges, for the inspector of an agent.

use std::collections::VecDeque;
use vstd::prelude::*;
use crate::frame::{header_views, TunnelRequest, TunnelResponse};
use crate::text::{chars_of, same_chars};

verus! {

/// How many exchanges the record holds at most.
pub const MAX_ENTRIES: usize = 500;

/// One exchange: a request and its response.
#[derive(Debug, Clone)]
pub struct InspectorEntry {
    pub id: String,
    /// When the exchange ended, in the form of RFC 3339.
    pub timestamp: String,
    pub method: String,
    pub path: String,
    pub status: u16,
    pub latency_ms: u64,
    pub req_headers: Vec<(String, String)>,
    /// The body of the request as text, where it had one.
    pub req_body: Option<String>,
    pub res_headers: Vec<(String, String)>,
    /// The body of the response as text.
    pub res_body: Option<String>,
    /// How many bytes the body of the response has.
    pub res_body_size: usize,
}

/// The text that `String::from_utf8_lossy` makes of bytes.
pub uninterp spec fn lossy_text(bytes: Seq<u8>) -> Seq<char>;

/// `String::from_utf8_lossy` of std: the text of the bytes, with the
/// replacement character in place of what is no UTF-8.
#[verifier::external_body]
fn text_lossy(bytes: &[u8]) -> (s: String)
    ensures
        s@ == lossy_text(bytes@),
{
    String::from_utf8_lossy(bytes).into_owned()
}

/// The text of a body that may be missing.
pub open spec fn lossy_body(b: Option<Vec<u8>>) -> Option<Seq<char>> {
    match b {
        Some(bytes) => Some(lossy_text(bytes@)),
        None => None,
    }
}

/// The size of a body that may be missing.
pub open spec fn body_size(b: Option<Vec<u8>>) -> nat {
    match b {
        Some(bytes) => bytes@.len(),
        None => 0,
    }
}

fn body_text(b: &Option<Vec<u8>>) -> (r: Option<String>)
    ensures
        match r {
            Some(s) => lossy_body(*b) == Some(s@),
            None => lossy_body(*b) is None,
        },
{
    match b {
        Some(bytes) => Some(text_lossy(bytes.as_slice())),
        None => None,
    }
}

/// The entry of an exchange that ended at `timestamp` after `latency_ms`
/// milliseconds.
pub fn exchange_entry(
    request: TunnelRequest,
    response: &TunnelResponse,
    timestamp: String,
    latency_ms: u64,
) -> (e: InspectorEntry)
    ensures
        e.id@ == request.id@,
        e.timestamp@ == timestamp@,
        e.method@ == request.method@,
        e.path@ == request.path@,
        e.status == response.status,
        e.latency_ms == latency_ms,
        e.req_headers@ == request.headers@,
        match e.req_body {
            Some(s) => lossy_body(request.body) == Some(s@),
            None => lossy_body(request.body) is None,
        },
        header_views(e.res_headers@) == header_views(response.headers@),
        match e.res_body {
            Some(s) => lossy_body(response.body) == Some(s@),
            None => lossy_body(response.body) is None,
        },
        e.res_body_size == body_size(response.body),
{
    let req_body = body_text(&request.body);
    let res_body = body_text(&response.body);
    let res_body_size = match &response.body {
        Some(b) => b.len(),
        None => 0,
    };
    let mut res_headers: Vec<(String, String)> = Vec::new();
    let mut i: usize = 0;
    while i < response.headers.len()
        invariant
            i <= response.headers@.len(),
            res_headers@.len() == i,
            forall|k: int|
                0 <= k < i ==> header_views(res_headers@)[k] == #[trigger] header_views(
                    response.headers@,
                )[k],
        decreases response.headers@.len() - i,
    {
        res_headers.push((response.headers[i].0.clone(), response.headers[i].1.clone()));
        i += 1;
    }
    assert(header_views(res_headers@) =~= header_views(response.headers@));
    InspectorEntry {
        id: request.id,
        timestamp,
        method: request.method,
        path: request.path,
        status: response.status,
        latency_ms,
        req_headers: request.headers,
        req_body,
        res_headers,
        res_body,
        res_body_size,
    }
}

/// The latest exchanges, the newest first.
pub struct InspectorLog {
    entries: VecDeque<InspectorEntry>,
}

/// The index of the first entry with the id `id`, or the number of entries.
pub open spec fn entry_at(entries: Seq<InspectorEntry>, id: Seq<char>) -> int
    decreases entries.len(),
{
    if entries.len() == 0 {
        0
    } else if entries[0].id@ == id {
        0
    } else {
        1 + entry_at(entries.skip(1), id)
    }
}

proof fn lemma_entry_at(entries: Seq<InspectorEntry>, id: Seq<char>, k: int)
    requires
        0 <= k <= entries.len(),
        forall|j: int| 0 <= j < k ==> (#[trigger] entries[j]).id@ != id,
        k < entries.len() ==> entries[k].id@ == id,
    ensures
        entry_at(entries, id) == k,
    decreases k,
{
    if k > 0 {
        let t = entries.skip(1);
        assert(entries[0].id@ != id);
        assert forall|j: int| 0 <= j < k - 1 implies (#[trigger] t[j]).id@ != id by {
            assert(t[j] == entries[j + 1]);
        }
        if k < entries.len() {
            assert(t[k - 1] == entries[k]);
        }
        lemma_entry_at(t, id, k - 1);
    }
}

impl InspectorLog {
    /// The entries, the newest first.
    pub closed spec fn entries(&self) -> Seq<InspectorEntry> {
        self.entries@
    }

    /// A record that holds nothing.
    pub fn new() -> (r: InspectorLog)
        ensures
            r.entries().len() == 0,
    {
        InspectorLog { entries: VecDeque::new() }
    }

    /// How many exchanges the record holds.
    pub fn len(&self) -> (n: usize)
        ensures
            n == self.entries().len(),
    {
        self.entries.len()
    }

    /// Puts an exchange in front. Where the record is full, the oldest
    /// exchange leaves.
    pub fn record(&mut self, entry: InspectorEntry)
        ensures
            final(self).entries() == seq![entry] + (if old(self).entries().len() >= MAX_ENTRIES {
                old(self).entries().drop_last()
            } else {
                old(self).entries()
            }),
            old(self).entries().len() <= MAX_ENTRIES ==> final(self).entries().len()
                <= MAX_ENTRIES,
    {
        if self.entries.len() >= MAX_ENTRIES {
            let _ = self.entries.pop_back();
        }
        self.entries.push_front(entry);
    }

    /// The newest exchange with the id `id`, if there is one.
    pub fn get_entry(&self, id: &str) -> (r: Option<&InspectorEntry>)
        ensures
            match r {
                Some(e) => entry_at(self.entries(), id@) < self.entries().len() && *e
                    == self.entries()[entry_at(self.entries(), id@)],
                None => entry_at(self.entries(), id@) == self.entries().len(),
            },
    {
        let want = chars_of(id);
        let mut i: usize = 0;
        while i < self.entries.len()
            invariant
                i <= self.entries@.len(),
                want@ == id@,
                forall|j: int| 0 <= j < i ==> (#[trigger] self.entries@[j]).id@ != id@,
            decreases self.entries@.len() - i,
        {
            let have = chars_of(self.entries[i].id.as_str());
            if same_chars(have.as_slice(), want.as_slice()) {
                proof {
                    lemma_entry_at(self.entries@, id@, i as int);
                }
                return Some(&self.entries[i]);
            }
            i += 1;
        }
        proof {
            lemma_entry_at(self.entries@, id@, i as int);
        }
        None
    }

    /// The exchange at place `i`, the newest being at place 0.
    pub fn entry(&self, i: usize) -> (r: Option<&InspectorEntry>)
        ensures
            match r {
                Some(e) => i < self.entries().len() && *e == self.entries()[i as int],
                None => i >= self.entries().len(),
            },
    {
        if i < self.entries.len() {
            Some(&self.entries[i])
        } else {
            None
        }
    }
}

} // verus!
