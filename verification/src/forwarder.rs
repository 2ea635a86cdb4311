//! The forwarder of the agent: the HTTP/1.1 request that is written to the
//! local service for a forwarded request, and the reading of its response.
//!
//! The response parser is the thinnest one that honours `Content-Length`.
//! Chunked transfer encoding, trailers, upgrades, interim responses and the
//! reuse of a connection are not handled.

use vstd::prelude::*;
use vstd::string::StringSliceAdditionalSpecFns;
use vstd::utf8::{decode_utf8, encode_utf8, valid_utf8};
use crate::frame::{
    body_view, header_views, RequestView, ResponseView, TunnelRequest, TunnelResponse,
};
use crate::numerals::{
    all_digits, decimal_digits, digits_value, push_decimal, read_decimal, to_decimal,
};
use crate::scan::{
    append_bytes, byte_lines, byte_views, char_views, copy_bytes, lines_of, utf8_text, words,
    words_of,
};
use crate::text::{
    chars_of, copy_range, eq_ignoring_case, first_index, push_str, same_chars, string_of,
    trim_chars, trimmed,
};

verus! {

/// How many reads are made at most while the end of the head has not been
/// seen.
pub const MAX_HEAD_READS: usize = 64;

/// How many bytes are asked for in one read.
pub const READ_CHUNK_BYTES: usize = 8192;

// ---------------------------------------------------------------------------
// The request

/// Whether a header is the `Content-Length` header.
pub open spec fn is_content_length(name: Seq<char>) -> bool {
    eq_ignoring_case(name, "content-length"@)
}

/// One of the headers names the length of the body.
pub open spec fn has_content_length(h: Seq<(Seq<char>, Seq<char>)>) -> bool {
    exists|i: int| 0 <= i < h.len() && is_content_length((#[trigger] h[i]).0)
}

/// A header as it is written for a body of `n` bytes: as it is, but a
/// `Content-Length` header that names another length names `n`.
pub open spec fn framed_header(h: (Seq<char>, Seq<char>), n: nat) -> (Seq<char>, Seq<char>) {
    if is_content_length(h.0) && trimmed(h.1) != decimal_digits(n) {
        (h.0, decimal_digits(n))
    } else {
        h
    }
}

/// The headers as they are written. Without a body they are written as they
/// are. With a body, each `Content-Length` header is made to name the
/// length of the body, and one is added at the end if there is none.
pub open spec fn framed_headers(h: Seq<(Seq<char>, Seq<char>)>, body: Option<Seq<u8>>) -> Seq<
    (Seq<char>, Seq<char>),
> {
    match body {
        None => h,
        Some(b) => {
            let fixed = Seq::new(h.len(), |i: int| framed_header(h[i], b.len()));
            if has_content_length(h) {
                fixed
            } else {
                fixed.push(("Content-Length"@, decimal_digits(b.len())))
            }
        },
    }
}

/// One header line: the name, a colon and a space, the value, and the end
/// of the line.
pub open spec fn header_line(h: (Seq<char>, Seq<char>)) -> Seq<char> {
    h.0 + ": "@ + h.1 + "\r\n"@
}

/// The lines of a list of headers, in order.
pub open spec fn header_lines(h: Seq<(Seq<char>, Seq<char>)>) -> Seq<char>
    decreases h.len(),
{
    if h.len() == 0 {
        Seq::empty()
    } else {
        header_lines(h.drop_last()) + header_line(h.last())
    }
}

/// The head of the request that is written to the local service: the
/// request line, a `Host` header made of the local host and port, the
/// headers, and an empty line.
pub open spec fn request_head(r: RequestView, host: Seq<char>, port: u16) -> Seq<char> {
    r.method + " "@ + r.path + " HTTP/1.1\r\nHost: "@ + host + ":"@ + decimal_digits(port as nat)
        + "\r\n"@ + header_lines(framed_headers(r.headers, r.body)) + "\r\n"@
}

/// The bytes that are written to the local service: the head, and the body
/// if there is one.
pub open spec fn http_request(r: RequestView, host: Seq<char>, port: u16) -> Seq<u8> {
    encode_utf8(request_head(r, host, port)) + match r.body {
        Some(b) => b,
        None => Seq::empty(),
    }
}

fn name_is_content_length(name: &str) -> (r: bool)
    ensures
        r == is_content_length(name@),
{
    crate::text::eq_ignore_ascii_case(name, "content-length")
}

fn any_content_length(h: &Vec<(String, String)>) -> (r: bool)
    ensures
        r == has_content_length(header_views(h@)),
{
    let mut i: usize = 0;
    while i < h.len()
        invariant
            i <= h.len(),
            forall|j: int| 0 <= j < i ==> !is_content_length((#[trigger] header_views(h@)[j]).0),
        decreases h.len() - i,
    {
        if name_is_content_length(h[i].0.as_str()) {
            assert(is_content_length(header_views(h@)[i as int].0));
            return true;
        }
        i += 1;
    }
    false
}

fn push_header_line(out: &mut String, name: &str, value: &str)
    ensures
        final(out)@ == old(out)@ + header_line((name@, value@)),
{
    push_str(out, name);
    push_str(out, ": ");
    push_str(out, value);
    push_str(out, "\r\n");
    assert(out@ == old(out)@ + (name@ + ": "@ + value@ + "\r\n"@));
}

fn push_framed_headers(out: &mut String, h: &Vec<(String, String)>, body: &Option<Vec<u8>>)
    ensures
        final(out)@ == old(out)@ + header_lines(
            framed_headers(header_views(h@), body_view(*body)),
        ),
{
    let ghost hv = header_views(h@);
    let ghost framed = framed_headers(hv, body_view(*body));
    let ghost fixed = match body {
        Some(b) => Seq::new(hv.len(), |i: int| framed_header(hv[i], b@.len())),
        None => hv,
    };
    let mut i: usize = 0;
    proof {
        assert(fixed.take(0) == Seq::<(Seq<char>, Seq<char>)>::empty());
        assert(out@ + header_lines(fixed.take(0)) == out@);
    }
    while i < h.len()
        invariant
            i <= h.len(),
            hv == header_views(h@),
            fixed.len() == hv.len(),
            fixed == match body {
                Some(b) => Seq::new(hv.len(), |i: int| framed_header(hv[i], b@.len())),
                None => hv,
            },
            out@ == old(out)@ + header_lines(fixed.take(i as int)),
        decreases h.len() - i,
    {
        let name = h[i].0.as_str();
        let value = h[i].1.as_str();
        proof {
            let t = fixed.take(i + 1);
            assert(t.drop_last() == fixed.take(i as int));
            assert(t.last() == fixed[i as int]);
            assert(hv[i as int] == (name@, value@));
        }
        let ghost before = out@;
        match body {
            Some(b) => {
                if name_is_content_length(name) {
                    let want = to_decimal(b.len() as u64);
                    let have = trim_chars(chars_of(value).as_slice());
                    let want_chars = chars_of(want.as_str());
                    if same_chars(have.as_slice(), want_chars.as_slice()) {
                        push_header_line(out, name, value);
                    } else {
                        push_header_line(out, name, want.as_str());
                    }
                } else {
                    push_header_line(out, name, value);
                }
            },
            None => {
                push_header_line(out, name, value);
            },
        }
        proof {
            assert(out@ == before + header_line(fixed[i as int]));
            assert(old(out)@ + header_lines(fixed.take(i as int)) + header_line(fixed[i as int])
                == old(out)@ + (header_lines(fixed.take(i as int)) + header_line(
                fixed[i as int],
            )));
        }
        i += 1;
    }
    proof {
        assert(fixed.take(fixed.len() as int) == fixed);
    }
    match body {
        Some(b) => {
            if !any_content_length(h) {
                let length = to_decimal(b.len() as u64);
                let ghost before = out@;
                push_header_line(out, "Content-Length", length.as_str());
                proof {
                    let last = ("Content-Length"@, decimal_digits(b@.len()));
                    assert(framed == fixed.push(last));
                    assert(framed.drop_last() == fixed);
                    assert(framed.last() == last);
                    assert(old(out)@ + header_lines(fixed) + header_line(last) == old(out)@ + (
                    header_lines(fixed) + header_line(last)));
                }
            }
        },
        None => {},
    }
}

/// Writes the request for the local service at `host` and `port`.
pub fn write_request(request: &TunnelRequest, host: &str, port: u16) -> (bytes: Vec<u8>)
    ensures
        bytes@ == http_request(request@, host@, port),
{
    let mut head = String::new();
    push_str(&mut head, request.method.as_str());
    push_str(&mut head, " ");
    push_str(&mut head, request.path.as_str());
    push_str(&mut head, " HTTP/1.1\r\nHost: ");
    push_str(&mut head, host);
    push_str(&mut head, ":");
    push_decimal(&mut head, port as u64);
    push_str(&mut head, "\r\n");
    push_framed_headers(&mut head, &request.headers, &request.body);
    push_str(&mut head, "\r\n");
    proof {
        assert(head@ == request_head(request@, host@, port));
    }
    let mut bytes: Vec<u8> = Vec::new();
    append_bytes(&mut bytes, head.as_str().as_bytes());
    match &request.body {
        Some(b) => {
            append_bytes(&mut bytes, b.as_slice());
        },
        None => {
            assert(bytes@ + Seq::<u8>::empty() == bytes@);
        },
    }
    bytes
}


// ---------------------------------------------------------------------------
// The response

/// Whether the four bytes at `i` are the end of a head: an empty line.
pub open spec fn is_head_end(buf: Seq<u8>, i: int) -> bool {
    &&& 0 <= i
    &&& i + 4 <= buf.len()
    &&& buf[i] == 13
    &&& buf[i + 1] == 10
    &&& buf[i + 2] == 13
    &&& buf[i + 3] == 10
}

/// Where the head ends: the first place from `from` on where an empty line
/// stands.
pub open spec fn head_end_from(buf: Seq<u8>, from: int) -> Option<int>
    decreases buf.len() - from,
{
    if from < 0 || from + 4 > buf.len() {
        None
    } else if is_head_end(buf, from) {
        Some(from)
    } else {
        head_end_from(buf, from + 1)
    }
}

/// Where the head of a response ends, if its end has been read.
pub open spec fn head_end(buf: Seq<u8>) -> Option<int> {
    head_end_from(buf, 0)
}

/// Finds the end of the head of a response: the place of the first
/// `\r\n\r\n`.
pub fn find_header_end(buf: &[u8]) -> (r: Option<usize>)
    ensures
        match r {
            Some(i) => head_end(buf@) == Some(i as int) && i + 4 <= buf@.len(),
            None => head_end(buf@) is None,
        },
{
    if buf.len() < 4 {
        return None;
    }
    let mut i: usize = 0;
    while i <= buf.len() - 4
        invariant
            i + 3 <= buf.len(),
            4 <= buf.len(),
            head_end(buf@) == head_end_from(buf@, i as int),
        decreases buf.len() - i,
    {
        if buf[i] == 13 && buf[i + 1] == 10 && buf[i + 2] == 13 && buf[i + 3] == 10 {
            return Some(i);
        }
        i += 1;
    }
    None
}

/// The status that a word stands for: three digits, the first not a zero.
pub open spec fn status_of_word(w: Seq<char>) -> Option<u16> {
    if w.len() == 3 && all_digits(w) && w[0] != '0' {
        Some(digits_value(w) as u16)
    } else {
        None
    }
}

/// The status of a status line: what its second word stands for.
pub open spec fn status_of_line(line: Seq<u8>) -> Option<u16> {
    if valid_utf8(line) && words_of(decode_utf8(line)).len() >= 2 {
        status_of_word(words_of(decode_utf8(line))[1])
    } else {
        None
    }
}

/// Reads the status from a status line.
pub fn parse_status_code(line: &[u8]) -> (r: Option<u16>)
    ensures
        r == status_of_line(line@),
        r matches Some(s) ==> 100 <= s <= 999,
{
    let text = match utf8_text(line) {
        Some(t) => t,
        None => { return None; },
    };
    let chars = chars_of(text);
    let parts = words(chars.as_slice());
    if parts.len() < 2 {
        return None;
    }
    assert(char_views(parts@)[1] == parts@[1]@);
    let word = &parts[1];
    if word.len() != 3 || word[0] == '0' {
        return None;
    }
    match read_decimal(word.as_slice(), 999) {
        Some(v) => {
            proof {
                crate::numerals::lemma_three_digits(word@);
            }
            Some(v as u16)
        },
        None => {
            proof {
                crate::numerals::lemma_three_digits(word@);
            }
            None
        },
    }
}

/// The header of a line: the name before the first colon and the value
/// after it, both without the white space around them. A line without a
/// colon, or one that is no UTF-8 text, is no header.
pub open spec fn header_of_line(line: Seq<u8>) -> Option<(Seq<char>, Seq<char>)> {
    if valid_utf8(line) && first_index(decode_utf8(line), ':') < decode_utf8(line).len() {
        let s = decode_utf8(line);
        let i = first_index(s, ':');
        Some((trimmed(s.take(i)), trimmed(s.skip(i + 1))))
    } else {
        None
    }
}

/// Splits a header line into name and value.
pub fn split_header_kv(line: &[u8]) -> (r: Option<(String, String)>)
    ensures
        match r {
            Some(h) => header_of_line(line@) == Some((h.0@, h.1@)),
            None => header_of_line(line@) is None,
        },
{
    let text = match utf8_text(line) {
        Some(t) => t,
        None => { return None; },
    };
    let chars = chars_of(text);
    let mut i: usize = 0;
    while i < chars.len() && chars[i] != ':'
        invariant
            i <= chars.len(),
            forall|j: int| 0 <= j < i ==> chars@[j] != ':',
        decreases chars.len() - i,
    {
        i += 1;
    }
    proof {
        crate::text::lemma_first_index_is(chars@, ':', i as int);
    }
    if i >= chars.len() {
        return None;
    }
    let name = trim_chars(copy_range(chars.as_slice(), 0, i).as_slice());
    let value = trim_chars(copy_range(chars.as_slice(), i + 1, chars.len()).as_slice());
    proof {
        assert(chars@.subrange(0, i as int) == chars@.take(i as int));
        assert(chars@.subrange(i + 1, chars@.len() as int) == chars@.skip(i + 1));
    }
    Some((string_of(name.as_slice()), string_of(value.as_slice())))
}

/// The length that the value of a `Content-Length` header names: digits,
/// with `+` allowed in front and white space around, worth no more than a
/// `usize` holds.
pub open spec fn length_of_value(v: Seq<char>) -> Option<usize> {
    let t = trimmed(v);
    let d = if t.len() > 0 && t[0] == '+' {
        t.skip(1)
    } else {
        t
    };
    if d.len() >= 1 && all_digits(d) && digits_value(d) <= usize::MAX {
        Some(digits_value(d) as usize)
    } else {
        None
    }
}

fn read_length(value: &str) -> (r: Option<usize>)
    ensures
        r == length_of_value(value@),
{
    let t = trim_chars(chars_of(value).as_slice());
    let d = if t.len() > 0 && t[0] == '+' {
        copy_range(t.as_slice(), 1, t.len())
    } else {
        copy_range(t.as_slice(), 0, t.len())
    };
    proof {
        assert(t@.subrange(0, t@.len() as int) == t@);
        assert(t@.subrange(1, t@.len() as int) == t@.skip(1));
    }
    match read_decimal(d.as_slice(), usize::MAX as u64) {
        Some(v) => Some(v as usize),
        None => None,
    }
}

/// The headers of the lines of a head: the header of each line that is one,
/// in order.
pub open spec fn headers_of_lines(lines: Seq<Seq<u8>>) -> Seq<(Seq<char>, Seq<char>)>
    decreases lines.len(),
{
    if lines.len() == 0 {
        Seq::empty()
    } else {
        let before = headers_of_lines(lines.drop_last());
        match header_of_line(lines.last()) {
            Some(h) => before.push(h),
            None => before,
        }
    }
}

/// The length of the body that the headers name: that of the last
/// `Content-Length` header whose value is a length.
pub open spec fn content_length(h: Seq<(Seq<char>, Seq<char>)>) -> Option<usize>
    decreases h.len(),
{
    if h.len() == 0 {
        None
    } else if is_content_length(h.last().0) && length_of_value(h.last().1) is Some {
        length_of_value(h.last().1)
    } else {
        content_length(h.drop_last())
    }
}

/// The status of a head: that of its first line, or 200 where the first
/// line names none.
pub open spec fn status_of_head(lines: Seq<Seq<u8>>) -> u16 {
    if lines.len() > 0 && status_of_line(lines[0]) is Some {
        status_of_line(lines[0])->0
    } else {
        200
    }
}

/// The lines of a head after its first.
pub open spec fn after_first(lines: Seq<Seq<u8>>) -> Seq<Seq<u8>> {
    if lines.len() == 0 {
        lines
    } else {
        lines.skip(1)
    }
}

/// The headers of a head: those of the lines after its first.
pub open spec fn headers_of_head(head: Seq<u8>) -> Seq<(Seq<char>, Seq<char>)> {
    headers_of_lines(after_first(lines_of(head)))
}

/// The head of a response, parsed.
#[derive(Debug)]
pub struct ParsedHead {
    pub status: u16,
    pub headers: Vec<(String, String)>,
    pub content_length: Option<usize>,
}

/// Parses the head of a response: the bytes before the empty line.
pub fn parse_head(head: &[u8]) -> (r: ParsedHead)
    ensures
        r.status == status_of_head(lines_of(head@)),
        header_views(r.headers@) == headers_of_head(head@),
        r.content_length == content_length(headers_of_head(head@)),
        100 <= r.status <= 999,
{
    let lines = byte_lines(head);
    let ghost all = lines_of(head@);
    let mut headers: Vec<(String, String)> = Vec::new();
    let mut length: Option<usize> = None;
    if lines.len() == 0 {
        proof {
            assert(byte_views(lines@).len() == 0);
            assert(header_views(headers@) =~= Seq::<(Seq<char>, Seq<char>)>::empty());
        }
        return ParsedHead { status: 200, headers, content_length: None };
    }
    assert(byte_views(lines@)[0] == lines@[0]@);
    let status = match parse_status_code(lines[0].as_slice()) {
        Some(s) => s,
        None => 200,
    };
    let ghost rest = all.skip(1);
    let mut i: usize = 1;
    proof {
        assert(rest.take(0) == Seq::<Seq<u8>>::empty());
        assert(header_views(headers@) =~= Seq::<(Seq<char>, Seq<char>)>::empty());
    }
    while i < lines.len()
        invariant
            1 <= i <= lines.len(),
            all == byte_views(lines@),
            rest == all.skip(1),
            header_views(headers@) == headers_of_lines(rest.take(i - 1)),
            length == content_length(headers_of_lines(rest.take(i - 1))),
        decreases lines.len() - i,
    {
        proof {
            let t = rest.take(i as int);
            assert(t.drop_last() == rest.take(i - 1));
            assert(t.last() == lines@[i as int]@);
        }
        match split_header_kv(lines[i].as_slice()) {
            Some(h) => {
                if name_is_content_length(h.0.as_str()) {
                    match read_length(h.1.as_str()) {
                        Some(n) => {
                            length = Some(n);
                        },
                        None => {},
                    }
                }
                let ghost before = header_views(headers@);
                let ghost pair = (h.0@, h.1@);
                headers.push(h);
                proof {
                    assert(header_views(headers@) =~= before.push(pair));
                    assert(before.push(pair).drop_last() == before);
                }
            },
            None => {},
        }
        i += 1;
    }
    proof {
        assert(rest.take(rest.len() as int) == rest);
    }
    ParsedHead { status, headers, content_length: length }
}


// ---------------------------------------------------------------------------
// Reading the response

/// The body of a response whose head ends at `end`: what was read after the
/// empty line, cut off at the length that the head names if it names one.
pub open spec fn body_after(buf: Seq<u8>, end: int) -> Seq<u8> {
    let rest = buf.skip(end + 4);
    match content_length(headers_of_head(buf.take(end))) {
        Some(n) => if rest.len() > n {
            rest.take(n as int)
        } else {
            rest
        },
        None => rest,
    }
}

/// Whether more is to be read after `reads` reads have brought `buf`.
///
/// While the end of the head has not been seen, more is read up to the
/// largest number of reads. Once it has been seen, more is read only where
/// the head names a length that the body has not reached.
pub open spec fn wants_more(buf: Seq<u8>, reads: nat) -> bool {
    match head_end(buf) {
        None => reads < MAX_HEAD_READS,
        Some(end) => match content_length(headers_of_head(buf.take(end))) {
            Some(n) => buf.len() - (end + 4) < n,
            None => false,
        },
    }
}

/// The response that the bytes read from the local service stand for.
///
/// Without the end of a head, the status is 200, there are no headers, and
/// all that was read is the body. The body is always there, if empty.
pub open spec fn response_of(id: Seq<char>, buf: Seq<u8>) -> ResponseView {
    match head_end(buf) {
        None => ResponseView { id, status: 200, headers: Seq::empty(), body: Some(buf) },
        Some(end) => ResponseView {
            id,
            status: status_of_head(lines_of(buf.take(end))),
            headers: headers_of_head(buf.take(end)),
            body: Some(body_after(buf, end)),
        },
    }
}

/// The count of reads after one more: reads are counted up to the largest
/// number that matters.
pub open spec fn counted(reads: nat) -> nat {
    if reads < MAX_HEAD_READS {
        reads + 1
    } else {
        reads
    }
}

/// The reading of one response: what has been read, and in how many reads.
pub struct ResponseReader {
    buf: Vec<u8>,
    reads: usize,
}

impl ResponseReader {
    /// The bytes read so far.
    pub closed spec fn bytes(&self) -> Seq<u8> {
        self.buf@
    }

    /// How many reads have brought bytes.
    pub closed spec fn reads(&self) -> nat {
        self.reads as nat
    }

    /// A reader that has read nothing.
    pub fn new() -> (r: ResponseReader)
        ensures
            r.bytes() == Seq::<u8>::empty(),
            r.reads() == 0,
    {
        ResponseReader { buf: Vec::new(), reads: 0 }
    }

    /// Takes what one read has brought and says whether to read again. A
    /// read that brings nothing is the end of the stream: nothing more is
    /// read.
    pub fn on_read(&mut self, chunk: &[u8]) -> (more: bool)
        ensures
            chunk@.len() == 0 ==> !more,
            chunk@.len() == 0 ==> final(self).bytes() == old(self).bytes(),
            chunk@.len() == 0 ==> final(self).reads() == old(self).reads(),
            chunk@.len() > 0 ==> final(self).bytes() == old(self).bytes() + chunk@,
            chunk@.len() > 0 ==> final(self).reads() == counted(old(self).reads()),
            chunk@.len() > 0 ==> more == wants_more(final(self).bytes(), final(self).reads()),
    {
        if chunk.len() == 0 {
            return false;
        }
        append_bytes(&mut self.buf, chunk);
        if self.reads < MAX_HEAD_READS {
            self.reads = self.reads + 1;
        }
        match find_header_end(self.buf.as_slice()) {
            None => self.reads < MAX_HEAD_READS,
            Some(end) => {
                let head = copy_bytes(self.buf.as_slice(), 0, end);
                assert(self.buf@.subrange(0, end as int) == self.buf@.take(end as int));
                let parsed = parse_head(head.as_slice());
                match parsed.content_length {
                    Some(n) => self.buf.len() - (end + 4) < n,
                    None => false,
                }
            },
        }
    }

    /// The response to the request `id`, made of what was read.
    pub fn finish(self, id: String) -> (r: TunnelResponse)
        ensures
            r@ == response_of(id@, self.bytes()),
    {
        match find_header_end(self.buf.as_slice()) {
            None => {
                let r = TunnelResponse {
                    id,
                    status: 200,
                    headers: Vec::new(),
                    body: Some(self.buf),
                };
                assert(header_views(r.headers@) =~= Seq::<(Seq<char>, Seq<char>)>::empty());
                r
            },
            Some(end) => {
                let head = copy_bytes(self.buf.as_slice(), 0, end);
                assert(self.buf@.subrange(0, end as int) == self.buf@.take(end as int));
                let parsed = parse_head(head.as_slice());
                let rest_len = self.buf.len() - (end + 4);
                let keep = match parsed.content_length {
                    Some(n) => if rest_len > n {
                        n
                    } else {
                        rest_len
                    },
                    None => rest_len,
                };
                let body = copy_bytes(self.buf.as_slice(), end + 4, end + 4 + keep);
                proof {
                    let rest = self.buf@.skip(end + 4);
                    assert(self.buf@.subrange(end + 4, end + 4 + keep) == rest.take(keep as int));
                    assert(rest.take(rest.len() as int) == rest);
                }
                TunnelResponse { id, status: parsed.status, headers: parsed.headers, body: Some(body) }
            },
        }
    }
}

/// Law of the response. A response is made for the request whose id is
/// handed in, its status is a status from 100 to 999, and its body never
/// holds more bytes than the head names.
pub proof fn lemma_response_of(id: Seq<char>, buf: Seq<u8>)
    ensures
        response_of(id, buf).id == id,
        100 <= response_of(id, buf).status <= 999,
        response_of(id, buf).body is Some,
        head_end(buf) matches Some(end) ==> (content_length(
            headers_of_head(buf.take(end)),
        ) matches Some(n) ==> response_of(id, buf).body->0.len() <= n),
{
    match head_end(buf) {
        Some(end) => {
            let lines = lines_of(buf.take(end));
            if lines.len() > 0 && status_of_line(lines[0]) is Some {
                let w = words_of(decode_utf8(lines[0]))[1];
                crate::numerals::lemma_three_digits(w);
            }
        },
        None => {},
    }
}

} // verus!
