//! Cutting bytes and characters into runs: the lines of a response head, the
//! words of a line, and the text that bytes stand for.

use vstd::prelude::*;
use vstd::utf8::{decode_utf8, valid_utf8};
use crate::text::is_space;

verus! {

/// `std::str::from_utf8`: the text that the bytes stand for in UTF-8, where
/// they stand for one.
#[verifier::external_body]
pub(crate) fn utf8_text(bytes: &[u8]) -> (r: Option<&str>)
    ensures
        r is Some <==> valid_utf8(bytes@),
        r matches Some(s) ==> s@ == decode_utf8(bytes@),
{
    std::str::from_utf8(bytes).ok()
}

/// Appends the bytes of `s` to `v`.
pub fn append_bytes(v: &mut Vec<u8>, s: &[u8])
    ensures
        final(v)@ == old(v)@ + s@,
{
    let mut i: usize = 0;
    assert(old(v)@ + s@.take(0) == old(v)@);
    while i < s.len()
        invariant
            i <= s.len(),
            v@ == old(v)@ + s@.take(i as int),
        decreases s.len() - i,
    {
        v.push(s[i]);
        assert(s@.take(i + 1) == s@.take(i as int).push(s@[i as int]));
        i += 1;
    }
    assert(s@.take(s@.len() as int) == s@);
}

/// A copy of the bytes of `s` from `from` up to `to`.
pub fn copy_bytes(s: &[u8], from: usize, to: usize) -> (r: Vec<u8>)
    requires
        from <= to <= s.len(),
    ensures
        r@ == s@.subrange(from as int, to as int),
{
    let mut r: Vec<u8> = Vec::new();
    let mut i: usize = from;
    while i < to
        invariant
            from <= i <= to <= s.len(),
            r@ == s@.subrange(from as int, i as int),
        decreases to - i,
    {
        r.push(s[i]);
        i += 1;
    }
    r
}

/// How many items stand at the start of `s` before the first break.
pub open spec fn run_length<T>(s: Seq<T>, is_break: spec_fn(T) -> bool) -> int
    decreases s.len(),
{
    if s.len() == 0 || is_break(s[0]) {
        0
    } else {
        1 + run_length(s.skip(1), is_break)
    }
}

/// The runs of `s`: the longest stretches without a break, in order. Breaks
/// belong to no run, and no run is empty.
pub open spec fn runs<T>(s: Seq<T>, is_break: spec_fn(T) -> bool) -> Seq<Seq<T>>
    decreases s.len(),
{
    if s.len() == 0 {
        Seq::empty()
    } else if is_break(s[0]) {
        runs(s.skip(1), is_break)
    } else {
        let n = run_length(s, is_break);
        if 0 < n <= s.len() {
            seq![s.take(n)] + runs(s.skip(n), is_break)
        } else {
            Seq::empty()
        }
    }
}

pub proof fn lemma_run_length<T>(s: Seq<T>, is_break: spec_fn(T) -> bool, k: int)
    requires
        0 <= k <= s.len(),
        forall|j: int| 0 <= j < k ==> !is_break(#[trigger] s[j]),
        k < s.len() ==> is_break(s[k]),
    ensures
        run_length(s, is_break) == k,
    decreases k,
{
    if k > 0 {
        let t = s.skip(1);
        assert(!is_break(s[0]));
        assert forall|j: int| 0 <= j < k - 1 implies !is_break(#[trigger] t[j]) by {
            assert(t[j] == s[j + 1]);
        }
        if k < s.len() {
            assert(t[k - 1] == s[k]);
        }
        lemma_run_length(t, is_break, k - 1);
    }
}

/// A carriage return or a line feed.
pub open spec fn is_line_break(b: u8) -> bool {
    b == 13 || b == 10
}

/// The lines of a block of bytes: what stands between carriage returns and
/// line feeds, empty lines left out.
pub open spec fn lines_of(s: Seq<u8>) -> Seq<Seq<u8>> {
    runs(s, |b: u8| is_line_break(b))
}

/// The words of a text: what stands between white space.
pub open spec fn words_of(s: Seq<char>) -> Seq<Seq<char>> {
    runs(s, |c: char| is_space(c))
}

/// The views of a list of byte vectors.
pub open spec fn byte_views(v: Seq<Vec<u8>>) -> Seq<Seq<u8>> {
    Seq::new(v.len(), |i: int| v[i]@)
}

/// Cuts a block of bytes into its lines.
pub fn byte_lines(s: &[u8]) -> (out: Vec<Vec<u8>>)
    ensures
        byte_views(out@) == lines_of(s@),
{
    let ghost brk = |b: u8| is_line_break(b);
    let mut out: Vec<Vec<u8>> = Vec::new();
    let mut i: usize = 0;
    proof {
        assert(s@.skip(0) == s@);
        assert(byte_views(out@) + runs(s@, brk) == runs(s@, brk));
    }
    while i < s.len()
        invariant
            i <= s.len(),
            brk == (|b: u8| is_line_break(b)),
            byte_views(out@) + runs(s@.skip(i as int), brk) == runs(s@, brk),
        decreases s.len() - i,
    {
        if s[i] == 13 || s[i] == 10 {
            proof {
                let rest = s@.skip(i as int);
                assert(rest[0] == s@[i as int]);
                assert(brk(rest[0]));
                assert(rest.skip(1) == s@.skip(i + 1));
            }
            i += 1;
        } else {
            let start = i;
            while i < s.len() && !(s[i] == 13 || s[i] == 10)
                invariant
                    start <= i <= s.len(),
                    forall|j: int| start <= j < i ==> !is_line_break(#[trigger] s@[j]),
                decreases s.len() - i,
            {
                i += 1;
            }
            let line = copy_bytes(s, start, i);
            proof {
                let rest = s@.skip(start as int);
                let k = i - start;
                assert forall|j: int| 0 <= j < k implies !brk(#[trigger] rest[j]) by {
                    assert(rest[j] == s@[start + j]);
                }
                if k < rest.len() {
                    assert(rest[k as int] == s@[i as int]);
                    assert(brk(rest[k as int]));
                }
                lemma_run_length(rest, brk, k as int);
                assert(rest[0] == s@[start as int]);
                assert(!brk(rest[0]));
                assert(rest.take(k as int) == line@);
                assert(rest.skip(k as int) == s@.skip(i as int));
                assert(byte_views(out@.push(line)) == byte_views(out@) + seq![line@]);
            }
            out.push(line);
        }
    }
    proof {
        assert(s@.skip(s@.len() as int).len() == 0);
        assert(byte_views(out@) + Seq::<Seq<u8>>::empty() == byte_views(out@));
    }
    out
}

/// The views of a list of character vectors.
pub open spec fn char_views(v: Seq<Vec<char>>) -> Seq<Seq<char>> {
    Seq::new(v.len(), |i: int| v[i]@)
}

/// Cuts a text into its words.
pub fn words(s: &[char]) -> (out: Vec<Vec<char>>)
    ensures
        char_views(out@) == words_of(s@),
{
    let ghost brk = |c: char| is_space(c);
    let mut out: Vec<Vec<char>> = Vec::new();
    let mut i: usize = 0;
    proof {
        assert(s@.skip(0) == s@);
        assert(char_views(out@) + runs(s@, brk) == runs(s@, brk));
    }
    while i < s.len()
        invariant
            i <= s.len(),
            brk == (|c: char| is_space(c)),
            char_views(out@) + runs(s@.skip(i as int), brk) == runs(s@, brk),
        decreases s.len() - i,
    {
        if crate::text::char_is_space(s[i]) {
            proof {
                let rest = s@.skip(i as int);
                assert(rest[0] == s@[i as int]);
                assert(brk(rest[0]));
                assert(rest.skip(1) == s@.skip(i + 1));
            }
            i += 1;
        } else {
            let start = i;
            while i < s.len() && !crate::text::char_is_space(s[i])
                invariant
                    start <= i <= s.len(),
                    forall|j: int| start <= j < i ==> !is_space(#[trigger] s@[j]),
                decreases s.len() - i,
            {
                i += 1;
            }
            let word = crate::text::copy_range(s, start, i);
            proof {
                let rest = s@.skip(start as int);
                let k = i - start;
                assert forall|j: int| 0 <= j < k implies !brk(#[trigger] rest[j]) by {
                    assert(rest[j] == s@[start + j]);
                }
                if k < rest.len() {
                    assert(rest[k as int] == s@[i as int]);
                    assert(brk(rest[k as int]));
                }
                lemma_run_length(rest, brk, k as int);
                assert(rest[0] == s@[start as int]);
                assert(!brk(rest[0]));
                assert(rest.take(k as int) == word@);
                assert(rest.skip(k as int) == s@.skip(i as int));
                assert(char_views(out@.push(word)) == char_views(out@) + seq![word@]);
            }
            out.push(word);
        }
    }
    proof {
        assert(s@.skip(s@.len() as int).len() == 0);
        assert(char_views(out@) + Seq::<Seq<char>>::empty() == char_views(out@));
    }
    out
}

} // verus!
