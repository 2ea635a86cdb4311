//! The IP access filter of a tunnel: CIDR ranges, the allow and deny lists,
//! and the client address taken from a request's headers.

use vstd::prelude::*;
use crate::ipv6::{ipv6_value, parse_ipv6};
use crate::numerals::{
    all_digits, decimal_digits, digits_value, is_digit, lemma_decimal_digits, read_decimal,
};
use crate::text::{
    chars_of, chars_eq_ignoring_case, copy_range, eq_ignoring_case, lemma_split_cons,
    lemma_split_none, split_chars, split_on, string_views, trim_chars, trimmed, views,
};

verus! {

/// An IP address as the filter sees it: the 32 bits of an IPv4 address, most
/// significant octet first, or the 128 bits of an IPv6 address.
#[derive(Clone, Copy, Debug, PartialEq, Eq, Structural)]
pub enum IpAddress {
    V4(u32),
    V6(u128),
}

/// A parsed CIDR range.
#[derive(Debug, Clone)]
pub struct CidrRange {
    pub network: u32,
    pub mask: u32,
    pub raw: String,
}

/// What a `CidrRange` holds, with its text as a sequence of characters.
pub struct CidrSpec {
    pub network: u32,
    pub mask: u32,
    pub raw: Seq<char>,
}

impl View for CidrRange {
    type V = CidrSpec;

    open spec fn view(&self) -> CidrSpec {
        CidrSpec { network: self.network, mask: self.mask, raw: self.raw@ }
    }
}

/// The IP filter of a tunnel: an address passes when no deny range holds it
/// and the allow list is empty or one of its ranges holds it.
#[derive(Debug, Clone)]
pub struct IpFilter {
    /// Allowed ranges (empty: every address that is not denied).
    pub allow: Vec<CidrRange>,
    /// Denied ranges.
    pub deny: Vec<CidrRange>,
}

// ---------------------------------------------------------------------------
// Dotted-quad text

/// What one field of a dotted quad is worth: one to three digits, no leading
/// zero but in `0` itself, at most 255.
pub open spec fn octet_value(f: Seq<char>) -> Option<nat> {
    if 1 <= f.len() <= 3 && all_digits(f) && (f.len() == 1 || f[0] != '0') && digits_value(f)
        <= 255 {
        Some(digits_value(f))
    } else {
        None
    }
}

/// The address that a dotted quad stands for: four octet fields between
/// three dots.
pub open spec fn ipv4_value(s: Seq<char>) -> Option<u32> {
    let f = split_on(s, '.');
    if f.len() == 4 && octet_value(f[0]) is Some && octet_value(f[1]) is Some && octet_value(
        f[2],
    ) is Some && octet_value(f[3]) is Some {
        Some(
            (octet_value(f[0])->0 * 16777216 + octet_value(f[1])->0 * 65536 + octet_value(
                f[2],
            )->0 * 256 + octet_value(f[3])->0) as u32,
        )
    } else {
        None
    }
}

/// The dotted quad of an address.
pub open spec fn ipv4_text(ip: u32) -> Seq<char> {
    decimal_digits((ip / 16777216) as nat) + seq!['.'] + decimal_digits(
        ((ip / 65536) % 256) as nat,
    ) + seq!['.'] + decimal_digits(((ip / 256) % 256) as nat) + seq!['.'] + decimal_digits(
        (ip % 256) as nat,
    )
}

fn read_octet(f: &[char]) -> (r: Option<u32>)
    ensures
        r is Some <==> octet_value(f@) is Some,
        r matches Some(v) ==> v == octet_value(f@)->0,
{
    if f.len() < 1 || f.len() > 3 {
        return None;
    }
    if f.len() > 1 && f[0] == '0' {
        return None;
    }
    match read_decimal(f, 255) {
        Some(v) => Some(v as u32),
        None => None,
    }
}

/// Reads a dotted quad.
pub fn parse_ipv4(s: &[char]) -> (r: Option<u32>)
    ensures
        r == ipv4_value(s@),
{
    let fields = split_chars(s, '.');
    if fields.len() != 4 {
        return None;
    }
    assert(views(fields@)[0] == fields@[0]@);
    assert(views(fields@)[1] == fields@[1]@);
    assert(views(fields@)[2] == fields@[2]@);
    assert(views(fields@)[3] == fields@[3]@);
    let a = match read_octet(fields[0].as_slice()) {
        Some(v) => v,
        None => { return None; },
    };
    let b = match read_octet(fields[1].as_slice()) {
        Some(v) => v,
        None => { return None; },
    };
    let c = match read_octet(fields[2].as_slice()) {
        Some(v) => v,
        None => { return None; },
    };
    let d = match read_octet(fields[3].as_slice()) {
        Some(v) => v,
        None => { return None; },
    };
    Some(a * 16777216 + b * 65536 + c * 256 + d)
}

// ---------------------------------------------------------------------------
// CIDR text

/// What the prefix length after the slash is worth: digits, with `+` allowed
/// in front, worth at most 32.
pub open spec fn prefix_value(q: Seq<char>) -> Option<nat> {
    let d = if q.len() > 0 && q[0] == '+' {
        q.skip(1)
    } else {
        q
    };
    if d.len() >= 1 && all_digits(d) && digits_value(d) <= 32 {
        Some(digits_value(d))
    } else {
        None
    }
}

/// The mask of a prefix length: that many leading one bits.
pub open spec fn prefix_mask(p: nat) -> u32 {
    if p == 0 || p > 32 {
        0u32
    } else {
        0xFFFF_FFFFu32 << ((32 - p) as u32)
    }
}

/// The network and mask that a CIDR text stands for: a dotted quad, one
/// slash, a prefix length. The network is the address under the mask.
pub open spec fn cidr_value(s: Seq<char>) -> Option<(u32, u32)> {
    let f = split_on(s, '/');
    if f.len() == 2 && ipv4_value(f[0]) is Some && prefix_value(f[1]) is Some {
        let mask = prefix_mask(prefix_value(f[1])->0);
        Some((ipv4_value(f[0])->0 & mask, mask))
    } else {
        None
    }
}

fn read_prefix(q: &[char]) -> (r: Option<u32>)
    ensures
        r is Some <==> prefix_value(q@) is Some,
        r matches Some(v) ==> v == prefix_value(q@)->0,
{
    let digits = if q.len() > 0 && q[0] == '+' {
        copy_range(q, 1, q.len())
    } else {
        copy_range(q, 0, q.len())
    };
    assert(q@.subrange(0, q@.len() as int) == q@);
    assert(q@.subrange(1, q@.len() as int) == q@.skip(1));
    match read_decimal(digits.as_slice(), 32) {
        Some(v) => Some(v as u32),
        None => None,
    }
}

fn mask_of(p: u32) -> (m: u32)
    requires
        p <= 32,
    ensures
        m == prefix_mask(p as nat),
{
    if p == 0 {
        0
    } else {
        0xFFFF_FFFFu32 << (32 - p)
    }
}

impl CidrRange {
    /// Whether the range holds the address. An IPv6 address is in no range.
    pub open spec fn covers(&self, ip: IpAddress) -> bool {
        match ip {
            IpAddress::V4(a) => (a & self.mask) == self.network,
            IpAddress::V6(_) => false,
        }
    }

    /// Parses a CIDR text such as `192.168.1.0/24`.
    pub fn parse(cidr: &str) -> (r: Option<CidrRange>)
        ensures
            match r {
                Some(c) => cidr_value(cidr@) == Some((c.network, c.mask)) && c.raw@ == cidr@,
                None => cidr_value(cidr@) is None,
            },
    {
        let text = chars_of(cidr);
        let parts = split_chars(text.as_slice(), '/');
        if parts.len() != 2 {
            return None;
        }
        assert(views(parts@)[0] == parts@[0]@);
        assert(views(parts@)[1] == parts@[1]@);
        let ip = match parse_ipv4(parts[0].as_slice()) {
            Some(v) => v,
            None => { return None; },
        };
        let prefix = match read_prefix(parts[1].as_slice()) {
            Some(v) => v,
            None => { return None; },
        };
        let mask = mask_of(prefix);
        Some(CidrRange { network: ip & mask, mask, raw: cidr.to_owned() })
    }

    /// Whether the address lies in the range.
    pub fn contains(&self, ip: IpAddress) -> (r: bool)
        ensures
            r == self.covers(ip),
    {
        match ip {
            IpAddress::V4(a) => (a & self.mask) == self.network,
            IpAddress::V6(_) => false,
        }
    }
}


/// Two addresses agree in their first `p` bits.
pub open spec fn same_prefix(x: u32, y: u32, p: nat) -> bool {
    p == 0 || (p <= 32 && (x >> ((32 - p) as u32)) == (y >> ((32 - p) as u32)))
}

/// A dotted quad holds digits and dots only.
pub open spec fn quad_chars(s: Seq<char>) -> bool {
    forall|i: int| 0 <= i < s.len() ==> (is_digit(#[trigger] s[i]) || s[i] == '.')
}

proof fn lemma_octet_text(n: nat)
    requires
        n <= 255,
    ensures
        octet_value(decimal_digits(n)) == Some(n),
        all_digits(decimal_digits(n)),
{
    lemma_decimal_digits(n);
}

proof fn lemma_split_four(a: Seq<char>, b: Seq<char>, c: Seq<char>, d: Seq<char>, sep: char)
    requires
        forall|j: int| 0 <= j < a.len() ==> a[j] != sep,
        forall|j: int| 0 <= j < b.len() ==> b[j] != sep,
        forall|j: int| 0 <= j < c.len() ==> c[j] != sep,
        forall|j: int| 0 <= j < d.len() ==> d[j] != sep,
    ensures
        split_on(a + seq![sep] + b + seq![sep] + c + seq![sep] + d, sep) == seq![a, b, c, d],
{
    let r2 = c + seq![sep] + d;
    let r1 = b + seq![sep] + r2;
    lemma_split_none(d, sep);
    lemma_split_cons(c, sep, d);
    lemma_split_cons(b, sep, r2);
    lemma_split_cons(a, sep, r1);
    assert(a + seq![sep] + b + seq![sep] + c + seq![sep] + d == a + seq![sep] + r1);
    assert(seq![a] + (seq![b] + (seq![c] + seq![d])) == seq![a, b, c, d]);
}

proof fn lemma_quad_chars(a: Seq<char>, b: Seq<char>, c: Seq<char>, d: Seq<char>)
    requires
        all_digits(a),
        all_digits(b),
        all_digits(c),
        all_digits(d),
    ensures
        quad_chars(a + seq!['.'] + b + seq!['.'] + c + seq!['.'] + d),
{
    let ab = a + seq!['.'] + b;
    assert(quad_chars(ab)) by {
        assert forall|i: int| 0 <= i < ab.len() implies (is_digit(#[trigger] ab[i]) || ab[i]
            == '.') by {
            if i < a.len() {
                assert(ab[i] == a[i]);
            } else if i > a.len() {
                assert(ab[i] == b[i - a.len() - 1]);
            }
        }
    }
    let abc = ab + seq!['.'] + c;
    assert(quad_chars(abc)) by {
        assert forall|i: int| 0 <= i < abc.len() implies (is_digit(#[trigger] abc[i]) || abc[i]
            == '.') by {
            if i < ab.len() {
                assert(abc[i] == ab[i]);
            } else if i > ab.len() {
                assert(abc[i] == c[i - ab.len() - 1]);
            }
        }
    }
    let abcd = abc + seq!['.'] + d;
    assert forall|i: int| 0 <= i < abcd.len() implies (is_digit(#[trigger] abcd[i]) || abcd[i]
        == '.') by {
        if i < abc.len() {
            assert(abcd[i] == abc[i]);
        } else if i > abc.len() {
            assert(abcd[i] == d[i - abc.len() - 1]);
        }
    }
}

proof fn lemma_octets_of(ip: u32)
    ensures
        ip / 16777216 <= 255,
        (ip / 16777216) * 16777216 + ((ip / 65536) % 256) * 65536 + ((ip / 256) % 256) * 256 + (ip
            % 256) == ip,
{
}

/// The dotted quad of an address is read back as that address.
pub proof fn lemma_ipv4_text_value(ip: u32)
    ensures
        ipv4_value(ipv4_text(ip)) == Some(ip),
        quad_chars(ipv4_text(ip)),
{
    let a = (ip / 16777216) as nat;
    let b = ((ip / 65536) % 256) as nat;
    let c = ((ip / 256) % 256) as nat;
    let d = (ip % 256) as nat;
    lemma_octets_of(ip);
    lemma_octet_text(a);
    lemma_octet_text(b);
    lemma_octet_text(c);
    lemma_octet_text(d);
    lemma_split_four(
        decimal_digits(a),
        decimal_digits(b),
        decimal_digits(c),
        decimal_digits(d),
        '.',
    );
    lemma_quad_chars(decimal_digits(a), decimal_digits(b), decimal_digits(c), decimal_digits(d));
}

/// A dotted quad, a slash and a prefix length of at most 32 stand for the
/// network of that address under the mask of that length.
pub proof fn lemma_cidr_text_value(ip: u32, p: nat)
    requires
        p <= 32,
    ensures
        cidr_value(ipv4_text(ip) + seq!['/'] + decimal_digits(p)) == Some(
            (ip & prefix_mask(p), prefix_mask(p)),
        ),
{
    let quad = ipv4_text(ip);
    let dp = decimal_digits(p);
    lemma_ipv4_text_value(ip);
    lemma_decimal_digits(p);
    lemma_split_none(dp, '/');
    lemma_split_cons(quad, '/', dp);
    assert(split_on(quad + seq!['/'] + dp, '/') == seq![quad, dp]);
    assert(dp[0] != '+');
    assert(prefix_value(dp) == Some(p));
}

/// Law of CIDR ranges. For every address `a.b.c.d` and prefix length `p` up
/// to 32, the text `a.b.c.d/p` parses, the range it stands for holds
/// `a.b.c.d`, and it holds another IPv4 address exactly when that address
/// agrees with `a.b.c.d` in its first `p` bits: no address outside the
/// network is held.
pub proof fn lemma_parsed_range_holds_its_network(ip: u32, p: nat, range: CidrRange, other: u32)
    requires
        p <= 32,
        cidr_value(ipv4_text(ip) + seq!['/'] + decimal_digits(p)) == Some(
            (range.network, range.mask),
        ),
    ensures
        range.covers(IpAddress::V4(ip)),
        range.covers(IpAddress::V4(other)) <==> same_prefix(other, ip, p),
{
    lemma_cidr_text_value(ip, p);
    let m = prefix_mask(p);
    if p == 0 {
        assert((other & 0u32) == (ip & 0u32)) by (bit_vector);
    } else {
        let s = (32 - p) as u32;
        assert(((other & (0xFFFF_FFFFu32 << s)) == (ip & (0xFFFF_FFFFu32 << s))) <==> ((other >> s)
            == (ip >> s))) by (bit_vector)
            requires
                s < 32,
        ;
    }
}

// ---------------------------------------------------------------------------
// Addresses as text

/// The address that a text stands for: a dotted quad, or else an IPv6 text.
pub open spec fn ip_value(s: Seq<char>) -> Option<IpAddress> {
    match ipv4_value(s) {
        Some(a) => Some(IpAddress::V4(a)),
        None => match ipv6_value(s) {
            Some(b) => Some(IpAddress::V6(b)),
            None => None,
        },
    }
}

/// Reads an address from its characters.
pub fn parse_ip(s: &[char]) -> (r: Option<IpAddress>)
    ensures
        r == ip_value(s@),
{
    match parse_ipv4(s) {
        Some(a) => Some(IpAddress::V4(a)),
        None => match parse_ipv6(s) {
            Some(b) => Some(IpAddress::V6(b)),
            None => None,
        },
    }
}

impl IpAddress {
    /// Reads an address: a dotted quad such as `10.1.2.3`, or an IPv6 text
    /// such as `::1`.
    pub fn parse(text: &str) -> (r: Option<IpAddress>)
        ensures
            r == ip_value(text@),
    {
        let chars = chars_of(text);
        parse_ip(chars.as_slice())
    }
}

// ---------------------------------------------------------------------------
// The filter

/// The ranges that a list of CIDR texts stands for: the texts that parse, in
/// their order.
pub open spec fn parse_all(texts: Seq<Seq<char>>) -> Seq<CidrSpec>
    decreases texts.len(),
{
    if texts.len() == 0 {
        Seq::empty()
    } else {
        let before = parse_all(texts.drop_last());
        match cidr_value(texts.last()) {
            Some((network, mask)) => before.push(CidrSpec { network, mask, raw: texts.last() }),
            None => before,
        }
    }
}

/// The views of a list of ranges.
pub open spec fn range_views(v: Seq<CidrRange>) -> Seq<CidrSpec> {
    Seq::new(v.len(), |i: int| v[i]@)
}

/// One of the ranges holds the address.
pub open spec fn any_covers(ranges: Seq<CidrRange>, ip: IpAddress) -> bool {
    exists|i: int| 0 <= i < ranges.len() && (#[trigger] ranges[i]).covers(ip)
}

fn parse_ranges(texts: &[String]) -> (r: Vec<CidrRange>)
    ensures
        range_views(r@) == parse_all(string_views(texts@)),
{
    let mut r: Vec<CidrRange> = Vec::new();
    let mut i: usize = 0;
    let ghost all = string_views(texts@);
    assert(all.take(0) == Seq::<Seq<char>>::empty());
    assert(range_views(r@) =~= Seq::<CidrSpec>::empty());
    while i < texts.len()
        invariant
            i <= texts.len(),
            all == string_views(texts@),
            range_views(r@) == parse_all(all.take(i as int)),
        decreases texts.len() - i,
    {
        proof {
            let t = all.take(i + 1);
            assert(t.drop_last() == all.take(i as int));
            assert(t.last() == texts@[i as int]@);
        }
        match CidrRange::parse(texts[i].as_str()) {
            Some(c) => {
                let ghost before = r@;
                r.push(c);
                assert(range_views(r@) == range_views(before).push(c@));
            },
            None => {},
        }
        i += 1;
    }
    assert(all.take(texts.len() as int) == all);
    r
}

fn any_contains(ranges: &Vec<CidrRange>, ip: IpAddress) -> (r: bool)
    ensures
        r == any_covers(ranges@, ip),
{
    let mut i: usize = 0;
    while i < ranges.len()
        invariant
            i <= ranges.len(),
            forall|j: int| 0 <= j < i ==> !(#[trigger] ranges@[j]).covers(ip),
        decreases ranges.len() - i,
    {
        if ranges[i].contains(ip) {
            return true;
        }
        i += 1;
    }
    false
}

impl IpFilter {
    /// Whether the filter lets the address pass: no deny range holds it, and
    /// the allow list is empty or one of its ranges holds it.
    pub open spec fn allows(&self, ip: IpAddress) -> bool {
        !any_covers(self.deny@, ip) && (self.allow@.len() == 0 || any_covers(self.allow@, ip))
    }

    /// A filter from two lists of CIDR texts. A text that does not parse is
    /// left out.
    pub fn from_strings(allow: &[String], deny: &[String]) -> (r: IpFilter)
        ensures
            range_views(r.allow@) == parse_all(string_views(allow@)),
            range_views(r.deny@) == parse_all(string_views(deny@)),
    {
        IpFilter { allow: parse_ranges(allow), deny: parse_ranges(deny) }
    }

    /// Whether an address is allowed through this filter.
    pub fn is_allowed(&self, ip: IpAddress) -> (r: bool)
        ensures
            r == self.allows(ip),
    {
        if any_contains(&self.deny, ip) {
            return false;
        }
        if self.allow.len() == 0 {
            return true;
        }
        any_contains(&self.allow, ip)
    }

    /// Whether the filter has no rule, and so allows everything.
    pub fn is_empty(&self) -> (r: bool)
        ensures
            r == (self.allow@.len() == 0 && self.deny@.len() == 0),
    {
        self.allow.len() == 0 && self.deny.len() == 0
    }
}

impl Default for IpFilter {
    fn default() -> (r: IpFilter)
        ensures
            r.allow@.len() == 0,
            r.deny@.len() == 0,
    {
        IpFilter { allow: Vec::new(), deny: Vec::new() }
    }
}

// ---------------------------------------------------------------------------
// The client address of a request

/// The address that one header gives, if its name is the wanted one: that of
/// its value, trimmed; for a list header, that of the first item of the
/// comma-separated list.
pub open spec fn header_ip(
    name: Seq<char>,
    value: Seq<char>,
    wanted: Seq<char>,
    list: bool,
) -> Option<IpAddress> {
    if eq_ignoring_case(name, wanted) {
        if list {
            ip_value(trimmed(split_on(value, ',')[0]))
        } else {
            ip_value(trimmed(value))
        }
    } else {
        None
    }
}

/// The address given by the first header that gives one.
pub open spec fn first_header_ip(
    headers: Seq<(String, String)>,
    wanted: Seq<char>,
    list: bool,
) -> Option<IpAddress>
    decreases headers.len(),
{
    if headers.len() == 0 {
        None
    } else {
        let h = headers[0];
        match header_ip(h.0@, h.1@, wanted, list) {
            Some(ip) => Some(ip),
            None => first_header_ip(headers.skip(1), wanted, list),
        }
    }
}

/// The client address of a request: from `X-Forwarded-For`, else from
/// `X-Real-IP`, else the peer's address.
pub open spec fn client_ip(headers: Seq<(String, String)>, peer: Option<IpAddress>) -> Option<
    IpAddress,
> {
    match first_header_ip(headers, "x-forwarded-for"@, true) {
        Some(ip) => Some(ip),
        None => match first_header_ip(headers, "x-real-ip"@, false) {
            Some(ip) => Some(ip),
            None => peer,
        },
    }
}

fn find_header_ip(headers: &[(String, String)], wanted: &str, list: bool) -> (r: Option<IpAddress>)
    ensures
        r == first_header_ip(headers@, wanted@, list),
{
    let want = chars_of(wanted);
    let mut i: usize = 0;
    assert(headers@.skip(0) == headers@);
    while i < headers.len()
        invariant
            i <= headers.len(),
            want@ == wanted@,
            first_header_ip(headers@, wanted@, list) == first_header_ip(
                headers@.skip(i as int),
                wanted@,
                list,
            ),
        decreases headers.len() - i,
    {
        let name = chars_of(headers[i].0.as_str());
        let value = chars_of(headers[i].1.as_str());
        proof {
            let rest = headers@.skip(i as int);
            assert(rest[0] == headers@[i as int]);
            assert(rest.skip(1) == headers@.skip(i + 1));
        }
        if chars_eq_ignoring_case(name.as_slice(), want.as_slice()) {
            let found = if list {
                let items = split_chars(value.as_slice(), ',');
                assert(views(items@)[0] == items@[0]@);
                let item = trim_chars(items[0].as_slice());
                parse_ip(item.as_slice())
            } else {
                let item = trim_chars(value.as_slice());
                parse_ip(item.as_slice())
            };
            if found.is_some() {
                return found;
            }
        }
        i += 1;
    }
    None
}

/// Takes the client address from the request headers, or else the peer's
/// address. Header names are matched without regard to ASCII case.
pub fn extract_client_ip(headers: &[(String, String)], peer_addr: Option<IpAddress>) -> (r: Option<
    IpAddress,
>)
    ensures
        r == client_ip(headers@, peer_addr),
{
    match find_header_ip(headers, "x-forwarded-for", true) {
        Some(ip) => Some(ip),
        None => match find_header_ip(headers, "x-real-ip", false) {
            Some(ip) => Some(ip),
            None => peer_addr,
        },
    }
}

} // verus!
