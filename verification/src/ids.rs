//! Names made from a clock: subdomains for agents that ask for none, the
//! suffix that tells a reassigned subdomain apart, and request ids.
//!
//! The caller reads the clock and hands the reading in.

use vstd::prelude::*;
use crate::numerals::{hex_digits, push_hex};
use crate::text::push_char;

verus! {

/// The subdomain made for an agent that asks for none: `t` and, in
/// hexadecimal, the milliseconds of the clock modulo `0xFFFFFF`.
pub open spec fn generated_subdomain(millis: u128) -> Seq<char> {
    seq!['t'] + hex_digits((millis % 0xFFFFFF) as nat)
}

/// The short suffix of a clock reading: in hexadecimal, the nanoseconds
/// modulo `0xFFF`.
pub open spec fn short_suffix(nanos: u128) -> Seq<char> {
    hex_digits((nanos % 0xFFF) as nat)
}

/// The id of the request numbered `sequence` that is dispatched at `nanos`:
/// `r`, the nanoseconds in hexadecimal, a dash and the number in
/// hexadecimal.
pub open spec fn request_id(nanos: u128, sequence: u64) -> Seq<char> {
    seq!['r'] + hex_digits(nanos as nat) + seq!['-'] + hex_digits(sequence as nat)
}

/// Makes a subdomain from the milliseconds of the clock.
pub fn gen_subdomain(millis: u128) -> (s: String)
    ensures
        s@ == generated_subdomain(millis),
{
    let mut s = String::new();
    push_char(&mut s, 't');
    push_hex(&mut s, millis % 0xFFFFFF);
    assert(s@ == seq!['t'] + hex_digits((millis % 0xFFFFFF) as nat));
    s
}

/// Makes a short suffix from the nanoseconds of the clock.
pub fn gen_subdomain_short(nanos: u128) -> (s: String)
    ensures
        s@ == short_suffix(nanos),
{
    let mut s = String::new();
    push_hex(&mut s, nanos % 0xFFF);
    assert(s@ == hex_digits((nanos % 0xFFF) as nat));
    s
}

/// Makes the id of a request from the nanoseconds of the clock and the
/// number of the request.
pub fn gen_request_id(nanos: u128, sequence: u64) -> (s: String)
    ensures
        s@ == request_id(nanos, sequence),
{
    let mut s = String::new();
    push_char(&mut s, 'r');
    push_hex(&mut s, nanos);
    push_char(&mut s, '-');
    push_hex(&mut s, sequence as u128);
    assert(s@ == seq!['r'] + hex_digits(nanos as nat) + seq!['-'] + hex_digits(sequence as nat));
    s
}

} // verus!
