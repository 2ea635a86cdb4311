//! Structured logs of the relay: the entry of a request, the line that is
//! written for it, and the rotation of the log files.

use vstd::prelude::*;
use crate::json::{json_text, lemma_members_of, members_of, render_json, Json, JsonView};
use crate::numerals::{decimal_digits, push_decimal};
use crate::text::{chars_eq_ignoring_case, chars_of, eq_ignoring_case, push_str};

verus! {

/// How logs are exported.
#[derive(Debug, Clone)]
pub struct LogExportConfig {
    /// Whether a log file is written.
    pub file_enabled: bool,
    /// The directory of the log files.
    pub log_dir: String,
    /// The size in bytes from which a file is rotated.
    pub max_file_size: u64,
    /// How many rotated files are kept.
    pub max_files: usize,
    /// Where entries are posted to, if anywhere.
    pub webhook_url: Option<String>,
}

impl Default for LogExportConfig {
    fn default() -> (r: LogExportConfig)
        ensures
            !r.file_enabled,
            r.log_dir@ == "./logs"@,
            r.max_file_size == 104857600,
            r.max_files == 10,
            r.webhook_url is None,
    {
        LogExportConfig {
            file_enabled: false,
            log_dir: "./logs".to_owned(),
            max_file_size: 104857600,
            max_files: 10,
            webhook_url: None,
        }
    }
}

/// The log entry of one request.
#[derive(Debug, Clone)]
pub struct LogEntry {
    pub timestamp: String,
    pub level: String,
    pub subdomain: String,
    pub method: String,
    pub path: String,
    pub status: u16,
    pub latency_us: u64,
    pub bytes_in: u64,
    pub bytes_out: u64,
    pub client_ip: Option<String>,
    pub user_agent: Option<String>,
}

/// The level of a request with the status `status`: `ERROR` from 500 on,
/// else `INFO`.
pub open spec fn level_of(status: u16) -> Seq<char> {
    if status >= 500 {
        "ERROR"@
    } else {
        "INFO"@
    }
}

/// The level of a request.
pub fn log_level(status: u16) -> (s: String)
    ensures
        s@ == level_of(status),
{
    if status >= 500 {
        "ERROR".to_owned()
    } else {
        "INFO".to_owned()
    }
}

/// The value of the first header named `name`, without regard to ASCII
/// case.
pub open spec fn header_value(h: Seq<(String, String)>, name: Seq<char>) -> Option<Seq<char>>
    decreases h.len(),
{
    if h.len() == 0 {
        None
    } else if eq_ignoring_case(h[0].0@, name) {
        Some(h[0].1@)
    } else {
        header_value(h.skip(1), name)
    }
}

/// The value of the first header named `name`.
pub fn find_header(headers: &[(String, String)], name: &str) -> (r: Option<String>)
    ensures
        match r {
            Some(v) => header_value(headers@, name@) == Some(v@),
            None => header_value(headers@, name@) is None,
        },
{
    let want = chars_of(name);
    let mut i: usize = 0;
    assert(headers@.skip(0) == headers@);
    while i < headers.len()
        invariant
            i <= headers.len(),
            want@ == name@,
            header_value(headers@, name@) == header_value(headers@.skip(i as int), name@),
        decreases headers.len() - i,
    {
        let have = chars_of(headers[i].0.as_str());
        proof {
            let rest = headers@.skip(i as int);
            assert(rest[0] == headers@[i as int]);
            assert(rest.skip(1) == headers@.skip(i + 1));
        }
        if chars_eq_ignoring_case(have.as_slice(), want.as_slice()) {
            return Some(headers[i].1.clone());
        }
        i += 1;
    }
    None
}

/// The log entry of a request that was answered with a response of the
/// agent.
pub fn request_entry(
    timestamp: String,
    subdomain: String,
    method: String,
    path: String,
    status: u16,
    latency_us: u64,
    bytes_in: u64,
    bytes_out: u64,
    client_ip: Option<String>,
    headers: &[(String, String)],
) -> (e: LogEntry)
    ensures
        e.timestamp == timestamp && e.subdomain == subdomain && e.method == method && e.path
            == path,
        e.level@ == level_of(status),
        e.status == status && e.latency_us == latency_us,
        e.bytes_in == bytes_in && e.bytes_out == bytes_out,
        e.client_ip == client_ip,
        match e.user_agent {
            Some(v) => header_value(headers@, "user-agent"@) == Some(v@),
            None => header_value(headers@, "user-agent"@) is None,
        },
{
    LogEntry {
        timestamp,
        level: log_level(status),
        subdomain,
        method,
        path,
        status,
        latency_us,
        bytes_in,
        bytes_out,
        client_ip,
        user_agent: find_header(headers, "user-agent"),
    }
}

/// A text that may be missing as a document.
pub open spec fn optional_doc(t: Option<String>) -> JsonView {
    match t {
        Some(s) => JsonView::Text(s@),
        None => JsonView::Null,
    }
}

/// A log entry as a document: an object with one member for each field.
pub open spec fn entry_doc(e: LogEntry) -> JsonView {
    JsonView::Object(
        seq![
            ("bytes_in"@, JsonView::Number(e.bytes_in)),
            ("bytes_out"@, JsonView::Number(e.bytes_out)),
            ("client_ip"@, optional_doc(e.client_ip)),
            ("latency_us"@, JsonView::Number(e.latency_us)),
            ("level"@, JsonView::Text(e.level@)),
            ("method"@, JsonView::Text(e.method@)),
            ("path"@, JsonView::Text(e.path@)),
            ("status"@, JsonView::Number(e.status as u64)),
            ("subdomain"@, JsonView::Text(e.subdomain@)),
            ("timestamp"@, JsonView::Text(e.timestamp@)),
            ("user_agent"@, optional_doc(e.user_agent)),
        ],
    )
}

fn optional_node(t: &Option<String>) -> (j: Json)
    ensures
        j@ == optional_doc(*t),
{
    match t {
        Some(s) => Json::Text(s.clone()),
        None => Json::Null,
    }
}

/// The line that is written to the log file for an entry: its JSON text and
/// a line feed.
pub fn log_line(e: &LogEntry) -> (line: Vec<u8>)
    ensures
        line@ == json_text(entry_doc(*e)).push(10u8),
{
    let mut members: Vec<(String, Json)> = Vec::new();
    members.push(("bytes_in".to_owned(), Json::Number(e.bytes_in)));
    members.push(("bytes_out".to_owned(), Json::Number(e.bytes_out)));
    members.push(("client_ip".to_owned(), optional_node(&e.client_ip)));
    members.push(("latency_us".to_owned(), Json::Number(e.latency_us)));
    members.push(("level".to_owned(), Json::Text(e.level.clone())));
    members.push(("method".to_owned(), Json::Text(e.method.clone())));
    members.push(("path".to_owned(), Json::Text(e.path.clone())));
    members.push(("status".to_owned(), Json::Number(e.status as u64)));
    members.push(("subdomain".to_owned(), Json::Text(e.subdomain.clone())));
    members.push(("timestamp".to_owned(), Json::Text(e.timestamp.clone())));
    members.push(("user_agent".to_owned(), optional_node(&e.user_agent)));
    proof {
        lemma_members_of(members@);
        assert(members_of(members@) =~= entry_doc(*e)->Object_0);
    }
    let doc = Json::Object(members);
    let mut line = render_json(&doc);
    line.push(10u8);
    line
}

/// Whether the log file is rotated before a line of `line_len` bytes is
/// written: no file is open, or the line would make the file larger than
/// it may be.
pub fn needs_rotation(current_size: u64, line_len: u64, max_file_size: u64, file_open: bool) -> (r:
    bool)
    ensures
        r == (!file_open || current_size + line_len > max_file_size),
{
    !file_open || current_size as u128 + line_len as u128 > max_file_size as u128
}

/// The name of the log file that has been rotated `i` times; `ztunnel.log`
/// for the one that is written.
pub open spec fn file_name(i: nat) -> Seq<char> {
    if i == 0 {
        "ztunnel.log"@
    } else {
        "ztunnel."@ + decimal_digits(i) + ".log"@
    }
}

/// The name of a log file.
pub fn log_file_name(i: usize) -> (s: String)
    ensures
        s@ == file_name(i as nat),
{
    let mut s = String::new();
    if i == 0 {
        push_str(&mut s, "ztunnel.log");
    } else {
        push_str(&mut s, "ztunnel.");
        push_decimal(&mut s, i as u64);
        push_str(&mut s, ".log");
    }
    s
}

/// The texts of a list of pairs of names.
pub open spec fn pair_views(v: Seq<(String, String)>) -> Seq<(Seq<char>, Seq<char>)> {
    Seq::new(v.len(), |i: int| (v[i].0@, v[i].1@))
}

/// What a rotation does to the files of the log directory.
#[derive(Debug)]
pub struct RotationPlan {
    /// The file to delete first: the oldest one.
    pub delete: String,
    /// The files to rename, in order, each from its name to its new name.
    pub renames: Vec<(String, String)>,
}

/// The renames of a rotation that keeps `max_files` files: each rotated
/// file moves up by one, the oldest first, and at last the file that is
/// written becomes the first rotated one.
pub open spec fn renames_of(max_files: nat) -> Seq<(Seq<char>, Seq<char>)> {
    Seq::new(
        if max_files == 0 {
            1
        } else {
            max_files
        },
        |k: int|
            if max_files == 0 {
                (file_name(0), file_name(1))
            } else {
                (file_name((max_files - 1 - k) as nat), file_name((max_files - k) as nat))
            },
    )
}

/// Plans a rotation that keeps `max_files` rotated files.
pub fn rotation_plan(max_files: usize) -> (plan: RotationPlan)
    ensures
        plan.delete@ == file_name(max_files as nat),
        pair_views(plan.renames@) == renames_of(max_files as nat),
{
    let delete = log_file_name(max_files);
    let mut renames: Vec<(String, String)> = Vec::new();
    let mut i: usize = max_files;
    while i > 1
        invariant
            i <= max_files,
            max_files >= 1 ==> i >= 1,
            max_files >= 1 ==> renames@.len() == max_files - i,
            max_files == 0 ==> renames@.len() == 0,
            forall|k: int|
                0 <= k < renames@.len() ==> #[trigger] pair_views(renames@)[k]
                    == (
                    file_name((max_files - 1 - k) as nat),
                    file_name((max_files - k) as nat),
                ),
        decreases i,
    {
        i -= 1;
        let ghost before = pair_views(renames@);
        let from = log_file_name(i);
        let to = log_file_name(i + 1);
        renames.push((from, to));
        assert forall|k: int| 0 <= k < renames@.len() implies #[trigger] pair_views(
            renames@,
        )[k] == (file_name((max_files - 1 - k) as nat), file_name((max_files - k) as nat)) by {
            if k < renames@.len() - 1 {
                assert(pair_views(renames@)[k] == before[k]);
            }
        }
    }
    let ghost before = pair_views(renames@);
    renames.push((log_file_name(0), log_file_name(1)));
    proof {
        let got = pair_views(renames@);
        assert forall|k: int| 0 <= k < got.len() implies got[k] == renames_of(max_files as nat)[k] by {
            if k < got.len() - 1 {
                assert(got[k] == before[k]);
            }
        }
        assert(got =~= renames_of(max_files as nat));
    }
    RotationPlan { delete, renames }
}

} // verus!
