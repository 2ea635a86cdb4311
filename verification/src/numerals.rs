//! Decimal and hexadecimal numerals: how a number is written, and what a
//! written number is worth.

use vstd::prelude::*;
use crate::text::push_char;

verus! {

/// The character of a digit below sixteen: `0`–`9`, then `a`–`f`.
pub open spec fn digit_char(d: nat) -> char {
    if d < 10 {
        (('0' as u8) + d) as u8 as char
    } else {
        (('a' as u8) + (d - 10)) as u8 as char
    }
}

pub open spec fn is_digit(c: char) -> bool {
    '0' <= c && c <= '9'
}

/// What a decimal digit character is worth.
pub open spec fn digit_value(c: char) -> nat {
    (c as u8 - '0' as u8) as nat
}

/// Every character of `s` is a decimal digit.
pub open spec fn all_digits(s: Seq<char>) -> bool {
    forall|i: int| 0 <= i < s.len() ==> is_digit(#[trigger] s[i])
}

/// What a sequence of decimal digits is worth, the first digit weighing most.
pub open spec fn digits_value(s: Seq<char>) -> nat
    decreases s.len(),
{
    if s.len() == 0 {
        0
    } else {
        digits_value(s.drop_last()) * 10 + digit_value(s.last())
    }
}

/// The decimal numeral of `n`, without leading zeros.
pub open spec fn decimal_digits(n: nat) -> Seq<char>
    decreases n,
{
    if n < 10 {
        seq![digit_char(n)]
    } else {
        decimal_digits(n / 10).push(digit_char(n % 10))
    }
}

/// The hexadecimal numeral of `n` in small letters, without leading zeros.
pub open spec fn hex_digits(n: nat) -> Seq<char>
    decreases n,
{
    if n < 16 {
        seq![digit_char(n)]
    } else {
        hex_digits(n / 16).push(digit_char(n % 16))
    }
}

/// Every character of `s` is a hexadecimal digit in its small-letter form.
pub open spec fn all_hex_digits(s: Seq<char>) -> bool {
    forall|i: int|
        0 <= i < s.len() ==> (is_digit(#[trigger] s[i]) || ('a' <= s[i] && s[i] <= 'f'))
}

/// A decimal numeral holds digits only, starts with no zero unless it is
/// `0` itself, and is worth its number.
pub proof fn lemma_decimal_digits(n: nat)
    ensures
        decimal_digits(n).len() >= 1,
        all_digits(decimal_digits(n)),
        digits_value(decimal_digits(n)) == n,
        decimal_digits(n).len() > 1 ==> decimal_digits(n)[0] != '0',
        n < 10 <==> decimal_digits(n).len() == 1,
        n < 100 <==> decimal_digits(n).len() <= 2,
        n < 1000 <==> decimal_digits(n).len() <= 3,
    decreases n,
{
    if n < 10 {
        let s = decimal_digits(n);
        assert(s.drop_last().len() == 0);
        assert(digits_value(s.drop_last()) == 0);
        assert(digit_value(s.last()) == n);
    } else {
        lemma_decimal_digits(n / 10);
        let p = decimal_digits(n / 10);
        let s = decimal_digits(n);
        assert(s == p.push(digit_char(n % 10)));
        assert(s.drop_last() == p);
        assert(digit_value(s.last()) == n % 10);
        assert forall|i: int| 0 <= i < s.len() implies is_digit(#[trigger] s[i]) by {
            if i < p.len() {
                assert(s[i] == p[i]);
            }
        }
        assert(s[0] == p[0]);
        if p.len() == 1 {
            assert(digit_value(p[0]) == n / 10) by {
                assert(p.drop_last().len() == 0);
                assert(digits_value(p.drop_last()) == 0);
            }
        }
    }
}

/// A hexadecimal numeral is not empty and holds hexadecimal digits only.
pub proof fn lemma_hex_digits(n: nat)
    ensures
        hex_digits(n).len() >= 1,
        all_hex_digits(hex_digits(n)),
    decreases n,
{
    if n >= 16 {
        lemma_hex_digits(n / 16);
        let p = hex_digits(n / 16);
        let s = hex_digits(n);
        assert forall|i: int| 0 <= i < s.len() implies (is_digit(#[trigger] s[i]) || ('a' <= s[i]
            && s[i] <= 'f')) by {
            if i < p.len() {
                assert(s[i] == p[i]);
            }
        }
    }
}

/// Digits appended to a numeral never make it worth less.
pub proof fn lemma_digits_value_grows(s: Seq<char>, k: int)
    requires
        0 <= k <= s.len(),
    ensures
        digits_value(s.take(k)) <= digits_value(s),
    decreases s.len() - k,
{
    if k < s.len() {
        lemma_digits_value_grows(s, k + 1);
        let t = s.take(k + 1);
        assert(t.drop_last() == s.take(k));
    } else {
        assert(s.take(k) == s);
    }
}

/// Three digits are worth less than a thousand, and a hundred or more
/// where the first is no zero.
pub proof fn lemma_three_digits(s: Seq<char>)
    requires
        s.len() == 3,
    ensures
        all_digits(s) ==> digits_value(s) <= 999,
        all_digits(s) && s[0] != '0' ==> 100 <= digits_value(s),
{
    if all_digits(s) {
        let a = s.drop_last();
        let b = a.drop_last();
        let c = b.drop_last();
        assert(c.len() == 0);
        assert(digits_value(c) == 0);
        assert(b.last() == s[0]);
        assert(a.last() == s[1]);
        assert(is_digit(s[0]) && is_digit(s[1]) && is_digit(s[2]));
        assert(digits_value(b) == digit_value(s[0]));
        assert(digits_value(a) == digit_value(s[0]) * 10 + digit_value(s[1]));
    }
}

fn digit_of(d: u8) -> (c: char)
    requires
        d < 16,
    ensures
        c == digit_char(d as nat),
{
    if d < 10 {
        (48u8 + d) as char
    } else {
        (97u8 + (d - 10)) as char
    }
}

/// Appends the decimal numeral of `n` to `s`.
pub fn push_decimal(s: &mut String, n: u64)
    ensures
        final(s)@ == old(s)@ + decimal_digits(n as nat),
    decreases n,
{
    if n >= 10 {
        push_decimal(s, n / 10);
    }
    push_char(s, digit_of((n % 10) as u8));
}

/// The decimal numeral of `n`.
pub fn to_decimal(n: u64) -> (s: String)
    ensures
        s@ == decimal_digits(n as nat),
{
    let mut s = String::new();
    push_decimal(&mut s, n);
    s
}

/// Appends the hexadecimal numeral of `n` to `s`.
pub fn push_hex(s: &mut String, n: u128)
    ensures
        final(s)@ == old(s)@ + hex_digits(n as nat),
    decreases n,
{
    if n >= 16 {
        push_hex(s, n / 16);
    }
    push_char(s, digit_of((n % 16) as u8));
}

/// The hexadecimal numeral of `n`.
pub fn to_hex(n: u128) -> (s: String)
    ensures
        s@ == hex_digits(n as nat),
{
    let mut s = String::new();
    push_hex(&mut s, n);
    s
}

/// Reads a decimal numeral that is worth at most `max`.
///
/// The text must be one digit or more and nothing else; leading zeros are
/// read as written.
pub fn read_decimal(s: &[char], max: u64) -> (r: Option<u64>)
    ensures
        r is Some <==> (s@.len() >= 1 && all_digits(s@) && digits_value(s@) <= max),
        r matches Some(v) ==> v == digits_value(s@),
{
    if s.len() == 0 {
        return None;
    }
    let mut acc: u64 = 0;
    let mut i: usize = 0;
    while i < s.len()
        invariant
            i <= s.len(),
            all_digits(s@.take(i as int)),
            acc == digits_value(s@.take(i as int)),
            acc <= max,
        decreases s.len() - i,
    {
        let c = s[i];
        if !('0' <= c && c <= '9') {
            assert(!is_digit(s@[i as int]));
            return None;
        }
        let d: u64 = ((c as u8) - 48u8) as u64;
        proof {
            let t = s@.take(i + 1);
            assert(t.drop_last() == s@.take(i as int));
            assert(t.last() == c);
            assert(digits_value(t) == acc * 10 + d);
            assert forall|j: int| 0 <= j < t.len() implies is_digit(#[trigger] t[j]) by {
                if j < i {
                    assert(t[j] == s@.take(i as int)[j]);
                }
            }
            lemma_digits_value_grows(s@, i + 1);
        }
        let next = match acc.checked_mul(10) {
            Some(m) => match m.checked_add(d) {
                Some(n) => n,
                None => { return None; },
            },
            None => { return None; },
        };
        if next > max {
            return None;
        }
        acc = next;
        i += 1;
    }
    assert(s@.take(s.len() as int) == s@);
    Some(acc)
}

} // verus!
