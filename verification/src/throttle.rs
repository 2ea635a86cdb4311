//! Bandwidth limits as people write them: `3kbps`, `1mbps`, `500kB/s`.

use vstd::prelude::*;
use crate::numerals::{all_digits, digits_value, is_digit, read_decimal};
use crate::text::{
    ascii_lower, chars_of, copy_range, first_index, lemma_first_index_is, same_chars, trim_chars,
    trimmed,
};

verus! {

/// A character as it counts in a unit: small for a capital ASCII letter,
/// and `k` for the Kelvin sign.
pub open spec fn unit_char(c: char) -> char {
    if c == '\u{212A}' {
        'k'
    } else {
        ascii_lower(c)
    }
}

/// A text as it is read: without the white space around it, in the
/// characters that count.
pub open spec fn normalized(s: Seq<char>) -> Seq<char> {
    Seq::new(trimmed(s).len(), |i: int| unit_char(trimmed(s)[i]))
}

/// Whether a character belongs to a number: a digit or a point.
pub open spec fn is_number_char(c: char) -> bool {
    is_digit(c) || c == '.'
}

/// How many characters at the start of `s` belong to the number.
pub open spec fn number_length(s: Seq<char>) -> int
    decreases s.len(),
{
    if s.len() == 0 || !is_number_char(s[0]) {
        0
    } else {
        1 + number_length(s.skip(1))
    }
}

/// How many bytes a second one unit of a kind is worth, as a fraction: the
/// units of bits are worth an eighth of the units of bytes.
pub open spec fn unit_scale(u: Seq<char>) -> Option<(u64, u64)> {
    if u == "bps"@ || u == "bit/s"@ {
        Some((1u64, 8u64))
    } else if u == "kbps"@ || u == "kbit/s"@ {
        Some((1_000u64, 8u64))
    } else if u == "mbps"@ || u == "mbit/s"@ {
        Some((1_000_000u64, 8u64))
    } else if u == "gbps"@ || u == "gbit/s"@ {
        Some((1_000_000_000u64, 8u64))
    } else if u == "b/s"@ {
        Some((1u64, 1u64))
    } else if u == "kb/s"@ || u == "k"@ {
        Some((1_000u64, 1u64))
    } else if u == "mb/s"@ || u == "m"@ {
        Some((1_000_000u64, 1u64))
    } else if u == "gb/s"@ || u == "g"@ {
        Some((1_000_000_000u64, 1u64))
    } else if u == "kib/s"@ || u == "ki"@ {
        Some((1_024u64, 1u64))
    } else if u == "mib/s"@ || u == "mi"@ {
        Some((1_048_576u64, 1u64))
    } else if u == "gib/s"@ || u == "gi"@ {
        Some((1_073_741_824u64, 1u64))
    } else {
        None
    }
}

/// The whole part and the digits after the point of a number: digits, with
/// one point at most, and one digit at least.
pub open spec fn number_parts(t: Seq<char>) -> Option<(Seq<char>, Seq<char>)> {
    let p = first_index(t, '.');
    if p >= t.len() {
        if t.len() >= 1 && all_digits(t) {
            Some((t, Seq::empty()))
        } else {
            None
        }
    } else {
        let whole = t.take(p);
        let fraction = t.skip(p + 1);
        if all_digits(whole) && all_digits(fraction) && whole.len() + fraction.len() >= 1 {
            Some((whole, fraction))
        } else {
            None
        }
    }
}

/// The largest whole part that is worked out: a number beyond it is worth
/// the largest value.
pub const WHOLE_CAP: u128 = 200_000_000_000_000_000_000;

/// How many digits after the point are read.
pub const FRACTION_DIGITS: usize = 9;

/// Ten to the power of `n`.
pub open spec fn pow10(n: nat) -> nat
    decreases n,
{
    if n == 0 {
        1
    } else {
        10 * pow10((n - 1) as nat)
    }
}

/// The billionths that the digits after the point are worth: those of the
/// first nine digits.
pub open spec fn billionths(fraction: Seq<char>) -> nat {
    if fraction.len() >= 9 {
        digits_value(fraction.take(9))
    } else {
        digits_value(fraction) * pow10((9 - fraction.len()) as nat)
    }
}

/// The bytes a second that a number of units is worth, rounded down and no
/// more than the largest `u64`.
pub open spec fn scaled(whole: Seq<char>, fraction: Seq<char>, scale: (u64, u64)) -> u64 {
    if digits_value(whole) > WHOLE_CAP {
        u64::MAX
    } else {
        let value = (digits_value(whole) * 1_000_000_000 + billionths(fraction)) * scale.0 / (
        scale.1 * 1_000_000_000);
        if value > u64::MAX {
            u64::MAX
        } else {
            value as u64
        }
    }
}

/// The bandwidth that a text stands for, in bytes a second.
///
/// A number alone stands for so many bytes a second. A number with a unit
/// stands for so many units; the number may have a point. Capitals and
/// small letters are not told apart, and white space around the text does
/// not count.
pub open spec fn bandwidth_of(s: Seq<char>) -> Option<u64> {
    let t = normalized(s);
    let n = number_length(t);
    if n >= t.len() {
        if t.len() >= 1 && all_digits(t) && digits_value(t) <= u64::MAX {
            Some(digits_value(t) as u64)
        } else {
            None
        }
    } else {
        match (number_parts(t.take(n)), unit_scale(t.skip(n))) {
            (Some((whole, fraction)), Some(scale)) => Some(scaled(whole, fraction, scale)),
            _ => None,
        }
    }
}

fn to_unit_char(c: char) -> (r: char)
    ensures
        r == unit_char(c),
{
    if c == '\u{212A}' {
        'k'
    } else {
        crate::text::to_ascii_lower(c)
    }
}

fn is_unit(u: &Vec<char>, name: &str) -> (r: bool)
    ensures
        r == (u@ == name@),
{
    let n = chars_of(name);
    same_chars(u.as_slice(), n.as_slice())
}

fn scale_of(u: &Vec<char>) -> (r: Option<(u64, u64)>)
    ensures
        r == unit_scale(u@),
{
    if is_unit(u, "bps") || is_unit(u, "bit/s") {
        Some((1, 8))
    } else if is_unit(u, "kbps") || is_unit(u, "kbit/s") {
        Some((1_000, 8))
    } else if is_unit(u, "mbps") || is_unit(u, "mbit/s") {
        Some((1_000_000, 8))
    } else if is_unit(u, "gbps") || is_unit(u, "gbit/s") {
        Some((1_000_000_000, 8))
    } else if is_unit(u, "b/s") {
        Some((1, 1))
    } else if is_unit(u, "kb/s") || is_unit(u, "k") {
        Some((1_000, 1))
    } else if is_unit(u, "mb/s") || is_unit(u, "m") {
        Some((1_000_000, 1))
    } else if is_unit(u, "gb/s") || is_unit(u, "g") {
        Some((1_000_000_000, 1))
    } else if is_unit(u, "kib/s") || is_unit(u, "ki") {
        Some((1_024, 1))
    } else if is_unit(u, "mib/s") || is_unit(u, "mi") {
        Some((1_048_576, 1))
    } else if is_unit(u, "gib/s") || is_unit(u, "gi") {
        Some((1_073_741_824, 1))
    } else {
        None
    }
}

fn digits_only(s: &[char]) -> (r: bool)
    ensures
        r == all_digits(s@),
{
    let mut i: usize = 0;
    while i < s.len()
        invariant
            i <= s.len(),
            forall|j: int| 0 <= j < i ==> is_digit(#[trigger] s@[j]),
        decreases s.len() - i,
    {
        if !('0' <= s[i] && s[i] <= '9') {
            assert(!is_digit(s@[i as int]));
            return false;
        }
        i += 1;
    }
    true
}

/// What digits are worth, as far as it is no more than `cap`.
fn capped_value(s: &[char], cap: u128) -> (r: Option<u128>)
    requires
        all_digits(s@),
        cap <= 1_000_000_000_000_000_000_000_000_000_000,
    ensures
        r matches Some(v) ==> v == digits_value(s@) && v <= cap,
        r is None ==> digits_value(s@) > cap,
{
    let mut acc: u128 = 0;
    let mut i: usize = 0;
    assert(s@.take(0).len() == 0);
    while i < s.len()
        invariant
            i <= s.len(),
            all_digits(s@),
            acc == digits_value(s@.take(i as int)),
            acc <= cap <= 1_000_000_000_000_000_000_000_000_000_000,
        decreases s.len() - i,
    {
        let c = s[i];
        assert(is_digit(s@[i as int]));
        let d: u128 = ((c as u8) - 48u8) as u128;
        proof {
            let t = s@.take(i + 1);
            assert(t.drop_last() == s@.take(i as int));
            assert(t.last() == c);
            crate::numerals::lemma_digits_value_grows(s@, i + 1);
        }
        let next = acc * 10 + d;
        if next > cap {
            return None;
        }
        acc = next;
        i += 1;
    }
    assert(s@.take(s.len() as int) == s@);
    Some(acc)
}

fn read_billionths(fraction: &[char]) -> (r: u128)
    requires
        all_digits(fraction@),
    ensures
        r == billionths(fraction@),
        r < 1_000_000_000,
{
    let n: usize = if fraction.len() >= 9 {
        9
    } else {
        fraction.len()
    };
    let mut acc: u128 = 0;
    let mut bound: u128 = 1;
    let mut i: usize = 0;
    assert(fraction@.take(0).len() == 0);
    while i < n
        invariant
            i <= n <= fraction.len(),
            n <= 9,
            all_digits(fraction@),
            acc == digits_value(fraction@.take(i as int)),
            bound == pow10(i as nat),
            acc < bound,
            bound <= 1_000_000_000,
            i < 9 ==> bound <= 100_000_000,
        decreases n - i,
    {
        let c = fraction[i];
        assert(is_digit(fraction@[i as int]));
        let d: u128 = ((c as u8) - 48u8) as u128;
        proof {
            let t = fraction@.take(i + 1);
            assert(t.drop_last() == fraction@.take(i as int));
            assert(t.last() == c);
        }
        acc = acc * 10 + d;
        bound = bound * 10;
        i += 1;
        proof {
            lemma_pow10_bound(i as nat);
        }
    }
    proof {
        if fraction.len() < 9 {
            assert(fraction@.take(n as int) == fraction@);
        }
    }
    let mut k: usize = n;
    let ghost base = acc;
    let mut pad: u128 = 1;
    proof {
        lemma_pow10_bound(n as nat);
    }
    while k < 9
        invariant
            n <= k <= 9,
            pad == pow10((k - n) as nat),
            pad <= bound,
            acc == base * pad,
            bound == pow10(k as nat),
            acc < bound,
            bound <= 1_000_000_000,
            k < 9 ==> bound <= 100_000_000,
        decreases 9 - k,
    {
        proof {
            assert(base * pad * 10 == base * (pad * 10)) by (nonlinear_arith);
        }
        acc = acc * 10;
        pad = pad * 10;
        bound = bound * 10;
        k += 1;
        proof {
            lemma_pow10_bound(k as nat);
        }
    }
    acc
}

proof fn lemma_pow10_bound(n: nat)
    ensures
        n == 0 ==> pow10(n) == 1,
        n == 1 ==> pow10(n) == 10,
        n == 2 ==> pow10(n) == 100,
        n == 3 ==> pow10(n) == 1_000,
        n == 4 ==> pow10(n) == 10_000,
        n == 5 ==> pow10(n) == 100_000,
        n == 6 ==> pow10(n) == 1_000_000,
        n == 7 ==> pow10(n) == 10_000_000,
        n == 8 ==> pow10(n) == 100_000_000,
        n == 9 ==> pow10(n) == 1_000_000_000,
    decreases n,
{
    if n > 0 && n <= 9 {
        lemma_pow10_bound((n - 1) as nat);
    }
}

/// Reads a bandwidth such as `3kbps`, `1mbps` or `500kB/s`, in bytes a
/// second.
pub fn parse_bandwidth(s: &str) -> (r: Option<u64>)
    ensures
        r == bandwidth_of(s@),
{
    let trimmed_chars = trim_chars(chars_of(s).as_slice());
    let mut t: Vec<char> = Vec::new();
    let mut i: usize = 0;
    while i < trimmed_chars.len()
        invariant
            i <= trimmed_chars.len(),
            trimmed_chars@ == trimmed(s@),
            t@.len() == i,
            forall|j: int| 0 <= j < i ==> t@[j] == unit_char(trimmed_chars@[j]),
        decreases trimmed_chars.len() - i,
    {
        t.push(to_unit_char(trimmed_chars[i]));
        i += 1;
    }
    assert(t@ =~= normalized(s@));
    let mut n: usize = 0;
    while n < t.len() && (('0' <= t[n] && t[n] <= '9') || t[n] == '.')
        invariant
            n <= t.len(),
            forall|j: int| 0 <= j < n ==> is_number_char(#[trigger] t@[j]),
        decreases t.len() - n,
    {
        n += 1;
    }
    proof {
        lemma_number_length(t@, n as int);
    }
    if n >= t.len() {
        return read_decimal(t.as_slice(), u64::MAX);
    }
    let number = copy_range(t.as_slice(), 0, n);
    let unit = copy_range(t.as_slice(), n, t.len());
    proof {
        assert(t@.subrange(0, n as int) == t@.take(n as int));
        assert(t@.subrange(n as int, t@.len() as int) == t@.skip(n as int));
    }
    let mut p: usize = 0;
    while p < number.len() && number[p] != '.'
        invariant
            p <= number.len(),
            forall|j: int| 0 <= j < p ==> number@[j] != '.',
        decreases number.len() - p,
    {
        p += 1;
    }
    proof {
        lemma_first_index_is(number@, '.', p as int);
    }
    let whole: Vec<char>;
    let fraction: Vec<char>;
    if p >= number.len() {
        if number.len() == 0 || !digits_only(number.as_slice()) {
            return None;
        }
        whole = number;
        fraction = Vec::new();
    } else {
        whole = copy_range(number.as_slice(), 0, p);
        fraction = copy_range(number.as_slice(), p + 1, number.len());
        proof {
            assert(number@.subrange(0, p as int) == number@.take(p as int));
            assert(number@.subrange(p + 1, number@.len() as int) == number@.skip(p + 1));
        }
        if !digits_only(whole.as_slice()) || !digits_only(fraction.as_slice()) || whole.len()
            + fraction.len() < 1 {
            return None;
        }
    }
    assert(number_parts(number@) == Some((whole@, fraction@)));
    let scale = match scale_of(&unit) {
        Some(x) => x,
        None => { return None; },
    };
    let w = match capped_value(whole.as_slice(), WHOLE_CAP) {
        Some(v) => v,
        None => { return Some(u64::MAX); },
    };
    let f = read_billionths(fraction.as_slice());
    let num: u128 = scale.0 as u128;
    let den: u128 = scale.1 as u128;
    assert(num <= 1_073_741_824 && 1 <= den <= 8);
    let total: u128 = w * 1_000_000_000 + f;
    assert(total * num <= 200_000_000_001_000_000_000_000_000_000 * 1_073_741_824) by (nonlinear_arith)
        requires
            total <= 200_000_000_001_000_000_000_000_000_000,
            num <= 1_073_741_824,
    ;
    let value: u128 = total * num / (den * 1_000_000_000);
    if value > u64::MAX as u128 {
        Some(u64::MAX)
    } else {
        Some(value as u64)
    }
}

proof fn lemma_number_length(s: Seq<char>, k: int)
    requires
        0 <= k <= s.len(),
        forall|j: int| 0 <= j < k ==> is_number_char(#[trigger] s[j]),
        k < s.len() ==> !is_number_char(s[k]),
    ensures
        number_length(s) == k,
    decreases k,
{
    if k > 0 {
        let t = s.skip(1);
        assert(is_number_char(s[0]));
        assert forall|j: int| 0 <= j < k - 1 implies is_number_char(#[trigger] t[j]) by {
            assert(t[j] == s[j + 1]);
        }
        if k < s.len() {
            assert(t[k - 1] == s[k]);
        }
        lemma_number_length(t, k - 1);
    }
}

} // verus!
