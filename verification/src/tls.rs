//! TLS modes of a tunnel, and the server name of a TLS ClientHello, by which
//! encrypted connections are routed without being decrypted.

use vstd::prelude::*;
use vstd::utf8::{decode_utf8, valid_utf8};
use crate::scan::{copy_bytes, utf8_text};
use crate::text::{eq_ignore_ascii_case, eq_ignoring_case};

verus! {

/// How a tunnel deals with TLS.
#[derive(Debug, Clone, Copy, PartialEq, Eq, Structural)]
pub enum TlsMode {
    /// The relay terminates TLS.
    Terminate,
    /// Encrypted traffic is passed to the agent as it is.
    Passthrough,
    /// No TLS.
    Off,
}

/// The mode that a word names, without regard to the case of its letters:
/// `terminate`, `passthrough` or `pass`; any other word names no TLS.
pub open spec fn mode_of(s: Seq<char>) -> TlsMode {
    if eq_ignoring_case(s, "terminate"@) {
        TlsMode::Terminate
    } else if eq_ignoring_case(s, "passthrough"@) || eq_ignoring_case(s, "pass"@) {
        TlsMode::Passthrough
    } else {
        TlsMode::Off
    }
}

impl TlsMode {
    /// Reads a mode from its name.
    pub fn from_str(s: &str) -> (r: TlsMode)
        ensures
            r == mode_of(s@),
    {
        if eq_ignore_ascii_case(s, "terminate") {
            TlsMode::Terminate
        } else if eq_ignore_ascii_case(s, "passthrough") || eq_ignore_ascii_case(s, "pass") {
            TlsMode::Passthrough
        } else {
            TlsMode::Off
        }
    }
}

/// The number that the two bytes at `i` stand for, the first weighing most.
pub open spec fn be16(data: Seq<u8>, i: int) -> int {
    data[i] as int * 256 + data[i + 1] as int
}

/// Where the extensions of a ClientHello start and end, if the record holds
/// a ClientHello down to the length of its extensions.
///
/// The record starts with a header of five bytes, of which the first is
/// `0x16`; the handshake message starts with a header of four bytes, of
/// which the first is `0x01`; then come the version (2 bytes), the random
/// (32 bytes), the session id behind its length (1 byte), the cipher suites
/// behind their length (2 bytes), the compression methods behind their
/// length (1 byte), and the length of the extensions (2 bytes).
pub open spec fn extensions_of(data: Seq<u8>) -> Option<(int, int)> {
    if data.len() < 9 || data[0] != 0x16 || data[5] != 0x01 || data.len() < 44 {
        None
    } else {
        let suites_at = 44 + data[43] as int;
        if data.len() < suites_at + 2 {
            None
        } else {
            let methods_at = suites_at + 2 + be16(data, suites_at);
            if data.len() < methods_at + 1 {
                None
            } else {
                let length_at = methods_at + 1 + data[methods_at] as int;
                if data.len() < length_at + 2 {
                    None
                } else {
                    Some((length_at + 2, length_at + 2 + be16(data, length_at)))
                }
            }
        }
    }
}

/// The server name in the extension of type 0 whose body starts at `at`:
/// behind the length of the list (2 bytes), the type of the name (1 byte)
/// and the length of the name (2 bytes), if all of it lies in the data and
/// the name is UTF-8 text.
pub open spec fn name_at(data: Seq<u8>, at: int) -> Option<Seq<char>> {
    if at + 5 > data.len() {
        None
    } else {
        let n = be16(data, at + 3);
        if at + 5 + n > data.len() {
            None
        } else if valid_utf8(data.subrange(at + 5, at + 5 + n)) {
            Some(decode_utf8(data.subrange(at + 5, at + 5 + n)))
        } else {
            None
        }
    }
}

/// The server name among the extensions from `pos` up to `end`: that of the
/// first extension of type 0. Each extension has a header of four bytes,
/// its type and the length of its body.
pub open spec fn name_among(data: Seq<u8>, pos: int, end: int) -> Option<Seq<char>>
    decreases data.len() - pos,
{
    if pos < 0 || pos + 4 > end || pos + 4 > data.len() {
        None
    } else if be16(data, pos) == 0 {
        name_at(data, pos + 4)
    } else if pos + 4 + be16(data, pos + 2) > data.len() {
        None
    } else {
        name_among(data, pos + 4 + be16(data, pos + 2), end)
    }
}

/// The server name of a ClientHello.
pub open spec fn sni_of(data: Seq<u8>) -> Option<Seq<char>> {
    match extensions_of(data) {
        Some((start, end)) => name_among(data, start, end),
        None => None,
    }
}

fn read16(data: &[u8], i: usize) -> (r: usize)
    requires
        i + 2 <= data@.len(),
    ensures
        r == be16(data@, i as int),
        r <= 65535,
{
    (data[i] as usize) * 256 + (data[i + 1] as usize)
}

/// Extracts the server name (SNI) from a TLS ClientHello.
pub fn extract_sni(data: &[u8]) -> (r: Option<String>)
    ensures
        match r {
            Some(name) => sni_of(data@) == Some(name@),
            None => sni_of(data@) is None,
        },
{
    let n = data.len();
    if n < 9 || data[0] != 0x16 || data[5] != 0x01 || n < 44 {
        return None;
    }
    let suites_at: usize = 44 + data[43] as usize;
    if n < suites_at + 2 {
        return None;
    }
    let methods_at: usize = suites_at + 2 + read16(data, suites_at);
    if n < methods_at + 1 {
        return None;
    }
    let length_at: usize = methods_at + 1 + data[methods_at] as usize;
    if n < length_at + 2 {
        return None;
    }
    let start: usize = length_at + 2;
    let end: usize = start + read16(data, length_at);
    let mut pos: usize = start;
    while pos <= n - 4 && pos + 4 <= end
        invariant
            4 <= n == data@.len(),
            pos <= n,
            sni_of(data@) == name_among(data@, pos as int, end as int),
        decreases n - pos,
    {
        let kind = read16(data, pos);
        let length = read16(data, pos + 2);
        if kind == 0 {
            let at = pos + 4;
            if n - at < 5 {
                return None;
            }
            let name_len = read16(data, at + 3);
            if n - (at + 5) < name_len {
                return None;
            }
            let name = copy_bytes(data, at + 5, at + 5 + name_len);
            return match utf8_text(name.as_slice()) {
                Some(s) => Some(s.to_owned()),
                None => None,
            };
        }
        if n - (pos + 4) < length {
            return None;
        }
        pos = pos + 4 + length;
    }
    None
}

} // verus!
