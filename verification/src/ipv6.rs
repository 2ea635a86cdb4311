//! The text form of an IPv6 address: groups of hexadecimal digits between
//! colons, one `::` for a run of zero groups, and a dotted quad allowed in
//! place of the last two groups.

use vstd::prelude::*;
use crate::ip_filter::{ipv4_value, parse_ipv4};
use crate::numerals::is_digit;
use crate::text::{split_chars, split_on, views};

verus! {

pub open spec fn is_hex_char(c: char) -> bool {
    is_digit(c) || ('a' <= c && c <= 'f') || ('A' <= c && c <= 'F')
}

/// What a hexadecimal digit, capital or small, is worth.
pub open spec fn hex_char_value(c: char) -> nat {
    if is_digit(c) {
        (c as u8 - '0' as u8) as nat
    } else if 'a' <= c && c <= 'f' {
        (c as u8 - 'a' as u8 + 10) as nat
    } else {
        (c as u8 - 'A' as u8 + 10) as nat
    }
}

/// What a sequence of hexadecimal digits is worth.
pub open spec fn hex_value(s: Seq<char>) -> nat
    decreases s.len(),
{
    if s.len() == 0 {
        0
    } else {
        hex_value(s.drop_last()) * 16 + hex_char_value(s.last())
    }
}

/// A group: one to four hexadecimal digits.
pub open spec fn is_group(f: Seq<char>) -> bool {
    &&& 1 <= f.len() <= 4
    &&& forall|i: int| 0 <= i < f.len() ==> is_hex_char(#[trigger] f[i])
}

/// The 16-bit groups that a list of fields stands for. Each field is a
/// group; where `quad_last` holds, the last field may be a dotted quad, which
/// stands for two groups.
pub open spec fn field_groups(f: Seq<Seq<char>>, quad_last: bool) -> Option<Seq<nat>>
    decreases f.len(),
{
    if f.len() == 0 {
        Some(Seq::empty())
    } else if f.len() == 1 && quad_last && ipv4_value(f[0]) is Some {
        let ip = ipv4_value(f[0])->0;
        Some(seq![(ip / 65536) as nat, (ip % 65536) as nat])
    } else if is_group(f[0]) {
        match field_groups(f.skip(1), quad_last) {
            Some(rest) => Some(seq![hex_value(f[0])] + rest),
            None => None,
        }
    } else {
        None
    }
}

/// The index of the first empty field, or the number of fields.
pub open spec fn first_empty(f: Seq<Seq<char>>) -> int
    decreases f.len(),
{
    if f.len() == 0 {
        0
    } else if f[0].len() == 0 {
        0
    } else {
        1 + first_empty(f.skip(1))
    }
}

/// The fields before and after the `::` of an address, given the fields
/// between its colons and the index `k` of the first empty one.
pub open spec fn around_gap(f: Seq<Seq<char>>, k: int) -> Option<(Seq<Seq<char>>, Seq<Seq<char>>)> {
    if k == 0 {
        if f.len() >= 3 && f[1].len() == 0 {
            if f.len() == 3 && f[2].len() == 0 {
                Some((Seq::empty(), Seq::empty()))
            } else {
                Some((Seq::empty(), f.skip(2)))
            }
        } else {
            None
        }
    } else if k >= f.len() - 1 {
        None
    } else if k == f.len() - 2 && f[k + 1].len() == 0 {
        Some((f.take(k), Seq::empty()))
    } else {
        Some((f.take(k), f.skip(k + 1)))
    }
}

/// The eight groups that an IPv6 text stands for.
pub open spec fn ipv6_groups(s: Seq<char>) -> Option<Seq<nat>> {
    let f = split_on(s, ':');
    let k = first_empty(f);
    if k >= f.len() {
        match field_groups(f, true) {
            Some(g) => if g.len() == 8 {
                Some(g)
            } else {
                None
            },
            None => None,
        }
    } else {
        match around_gap(f, k) {
            Some((head, tail)) => match (field_groups(head, false), field_groups(tail, true)) {
                (Some(h), Some(t)) => if h.len() + t.len() <= 7 {
                    Some(h + Seq::new((8 - h.len() - t.len()) as nat, |i: int| 0nat) + t)
                } else {
                    None
                },
                _ => None,
            },
            None => None,
        }
    }
}

/// The number made of eight 16-bit groups, the first weighing most.
pub open spec fn groups_value(g: Seq<nat>) -> nat {
    g[0] * 0x1_0000_0000_0000_0000_0000_0000_0000 + g[1] * 0x1_0000_0000_0000_0000_0000_0000 + g[2]
        * 0x1_0000_0000_0000_0000_0000 + g[3] * 0x1_0000_0000_0000_0000 + g[4] * 0x1_0000_0000_0000
        + g[5] * 0x1_0000_0000 + g[6] * 0x1_0000 + g[7]
}

/// The address that an IPv6 text stands for.
pub open spec fn ipv6_value(s: Seq<char>) -> Option<u128> {
    match ipv6_groups(s) {
        Some(g) => Some(groups_value(g) as u128),
        None => None,
    }
}

/// All groups are below 65536.
pub open spec fn groups_fit(g: Seq<nat>) -> bool {
    forall|i: int| 0 <= i < g.len() ==> #[trigger] g[i] < 65536
}

/// The groups as numbers.
pub open spec fn as_nats(g: Seq<u32>) -> Seq<nat> {
    Seq::new(g.len(), |i: int| g[i] as nat)
}

fn read_group(f: &[char]) -> (r: Option<u32>)
    ensures
        r is Some <==> is_group(f@),
        r matches Some(v) ==> v == hex_value(f@) && v < 65536,
{
    if f.len() < 1 || f.len() > 4 {
        return None;
    }
    let mut acc: u32 = 0;
    let mut i: usize = 0;
    while i < f.len()
        invariant
            i <= f.len() <= 4,
            forall|j: int| 0 <= j < i ==> is_hex_char(#[trigger] f@[j]),
            acc == hex_value(f@.take(i as int)),
            i == 0 ==> acc == 0,
            i == 1 ==> acc < 16,
            i == 2 ==> acc < 256,
            i == 3 ==> acc < 4096,
            i == 4 ==> acc < 65536,
        decreases f.len() - i,
    {
        let c = f[i];
        let d: u32 = if '0' <= c && c <= '9' {
            ((c as u8) - 48u8) as u32
        } else if 'a' <= c && c <= 'f' {
            ((c as u8) - 97u8 + 10u8) as u32
        } else if 'A' <= c && c <= 'F' {
            ((c as u8) - 65u8 + 10u8) as u32
        } else {
            return None;
        };
        proof {
            let t = f@.take(i + 1);
            assert(t.drop_last() == f@.take(i as int));
            assert(t.last() == c);
        }
        acc = acc * 16 + d;
        i += 1;
    }
    assert(f@.take(f.len() as int) == f@);
    Some(acc)
}

/// Reads the fields from `from` on as groups and appends them to `out`.
fn read_fields(fields: &Vec<Vec<char>>, from: usize, to: usize, quad_last: bool, out: &mut Vec<
    u32,
>) -> (ok: bool)
    requires
        from <= to <= fields.len(),
        groups_fit(as_nats(old(out)@)),
    ensures
        ok <==> field_groups(views(fields@).subrange(from as int, to as int), quad_last) is Some,
        ok ==> as_nats(final(out)@) == as_nats(old(out)@) + field_groups(
            views(fields@).subrange(from as int, to as int),
            quad_last,
        )->0,
        ok ==> groups_fit(as_nats(final(out)@)),
    decreases to - from,
{
    let ghost f = views(fields@).subrange(from as int, to as int);
    if from == to {
        assert(as_nats(out@) + Seq::<nat>::empty() == as_nats(out@));
        return true;
    }
    assert(f[0] == fields@[from as int]@);
    if to - from == 1 && quad_last {
        match parse_ipv4(fields[from].as_slice()) {
            Some(ip) => {
                let ghost before = out@;
                out.push(ip / 65536);
                out.push(ip % 65536);
                assert(as_nats(out@) == as_nats(before) + seq![
                    (ip / 65536) as nat,
                    (ip % 65536) as nat,
                ]);
                return true;
            },
            None => {},
        }
    }
    match read_group(fields[from].as_slice()) {
        Some(v) => {
            let ghost before = out@;
            out.push(v);
            assert(as_nats(out@) == as_nats(before) + seq![v as nat]);
            assert(f.skip(1) == views(fields@).subrange(from + 1, to as int));
            let ok = read_fields(fields, from + 1, to, quad_last, out);
            proof {
                if ok {
                    let rest = field_groups(f.skip(1), quad_last)->0;
                    assert(as_nats(before) + seq![v as nat] + rest == as_nats(before) + (seq![
                        v as nat,
                    ] + rest));
                }
            }
            ok
        },
        None => false,
    }
}


proof fn lemma_first_empty_is(f: Seq<Seq<char>>, k: int)
    requires
        0 <= k <= f.len(),
        forall|j: int| 0 <= j < k ==> (#[trigger] f[j]).len() > 0,
        k < f.len() ==> f[k].len() == 0,
    ensures
        first_empty(f) == k,
    decreases f.len(),
{
    if f.len() > 0 && k > 0 {
        let t = f.skip(1);
        assert forall|j: int| 0 <= j < k - 1 implies (#[trigger] t[j]).len() > 0 by {
            assert(t[j] == f[j + 1]);
        }
        assert(f[0].len() > 0);
        lemma_first_empty_is(t, k - 1);
    }
}

fn push_zeros(out: &mut Vec<u32>, n: usize)
    requires
        groups_fit(as_nats(old(out)@)),
    ensures
        as_nats(final(out)@) == as_nats(old(out)@) + Seq::new(n as nat, |i: int| 0nat),
        groups_fit(as_nats(final(out)@)),
{
    let mut i: usize = 0;
    while i < n
        invariant
            i <= n,
            as_nats(out@) == as_nats(old(out)@) + Seq::new(i as nat, |i: int| 0nat),
            groups_fit(as_nats(out@)),
        decreases n - i,
    {
        let ghost before = out@;
        out.push(0);
        assert(as_nats(out@) == as_nats(before).push(0nat));
        i += 1;
    }
}

fn join_groups(g: &Vec<u32>) -> (v: u128)
    requires
        g@.len() == 8,
        groups_fit(as_nats(g@)),
    ensures
        v == groups_value(as_nats(g@)),
{
    assert(forall|i: int| 0 <= i < 8 ==> g@[i] == #[trigger] as_nats(g@)[i]);
    assert(as_nats(g@)[0] < 65536);
    assert(as_nats(g@)[1] < 65536);
    assert(as_nats(g@)[2] < 65536);
    assert(as_nats(g@)[3] < 65536);
    assert(as_nats(g@)[4] < 65536);
    assert(as_nats(g@)[5] < 65536);
    assert(as_nats(g@)[6] < 65536);
    assert(as_nats(g@)[7] < 65536);
    (g[0] as u128) * 0x1_0000_0000_0000_0000_0000_0000_0000 + (g[1] as u128)
        * 0x1_0000_0000_0000_0000_0000_0000 + (g[2] as u128) * 0x1_0000_0000_0000_0000_0000 + (
    g[3] as u128) * 0x1_0000_0000_0000_0000 + (g[4] as u128) * 0x1_0000_0000_0000 + (g[5] as u128)
        * 0x1_0000_0000 + (g[6] as u128) * 0x1_0000 + (g[7] as u128)
}

/// Reads an IPv6 address.
pub fn parse_ipv6(s: &[char]) -> (r: Option<u128>)
    ensures
        r == ipv6_value(s@),
{
    let fields = split_chars(s, ':');
    let n = fields.len();
    let ghost f = views(fields@);
    let mut k: usize = 0;
    while k < n && fields[k].len() > 0
        invariant
            k <= n == fields.len(),
            f == views(fields@),
            forall|j: int| 0 <= j < k ==> (#[trigger] f[j]).len() > 0,
        decreases n - k,
    {
        k += 1;
    }
    proof {
        if k < n {
            assert(f[k as int] == fields@[k as int]@);
        }
        lemma_first_empty_is(f, k as int);
        assert(f.subrange(0, n as int) == f);
    }
    let mut groups: Vec<u32> = Vec::new();
    assert(as_nats(groups@) == Seq::<nat>::empty());
    if k >= n {
        if !read_fields(&fields, 0, n, true, &mut groups) {
            return None;
        }
        assert(as_nats(groups@) == field_groups(f, true)->0);
        if groups.len() != 8 {
            return None;
        }
        return Some(join_groups(&groups));
    }
    // The fields before and after the `::`.
    let head_to: usize;
    let tail_from: usize;
    if k == 0 {
        if n >= 3 && fields[1].len() == 0 {
            assert(f[1] == fields@[1]@);
            head_to = 0;
            if n == 3 && fields[2].len() == 0 {
                assert(f[2] == fields@[2]@);
                tail_from = 3;
            } else {
                if n == 3 {
                    assert(f[2] == fields@[2]@);
                }
                tail_from = 2;
            }
        } else {
            if n >= 3 {
                assert(f[1] == fields@[1]@);
            }
            return None;
        }
    } else if k >= n - 1 {
        return None;
    } else if k == n - 2 && fields[k + 1].len() == 0 {
        assert(f[k + 1] == fields@[k + 1]@);
        head_to = k;
        tail_from = n;
    } else {
        if k == n - 2 {
            assert(f[k + 1] == fields@[k + 1]@);
        }
        head_to = k;
        tail_from = k + 1;
    }
    proof {
        assert(f.take(head_to as int) == f.subrange(0, head_to as int));
        assert(f.skip(tail_from as int) == f.subrange(tail_from as int, n as int));
        assert(f.subrange(0, 0) == Seq::<Seq<char>>::empty());
        assert(f.subrange(n as int, n as int) == Seq::<Seq<char>>::empty());
        assert(around_gap(f, k as int) == Some(
            (f.subrange(0, head_to as int), f.subrange(tail_from as int, n as int)),
        ));
    }
    if !read_fields(&fields, 0, head_to, false, &mut groups) {
        return None;
    }
    let ghost h = field_groups(f.subrange(0, head_to as int), false)->0;
    assert(as_nats(groups@) == h);
    let mut tail: Vec<u32> = Vec::new();
    assert(as_nats(tail@) == Seq::<nat>::empty());
    if !read_fields(&fields, tail_from, n, true, &mut tail) {
        return None;
    }
    let ghost t = field_groups(f.subrange(tail_from as int, n as int), true)->0;
    assert(as_nats(tail@) == t);
    if groups.len() > 7 || tail.len() > 7 - groups.len() {
        return None;
    }
    let missing: usize = 8 - groups.len() - tail.len();
    push_zeros(&mut groups, missing);
    let ghost padded = groups@;
    let mut i: usize = 0;
    while i < tail.len()
        invariant
            i <= tail.len(),
            as_nats(groups@) == as_nats(padded) + as_nats(tail@).take(i as int),
            groups_fit(as_nats(groups@)),
            groups_fit(as_nats(tail@)),
        decreases tail.len() - i,
    {
        let ghost before = groups@;
        groups.push(tail[i]);
        proof {
            assert(as_nats(tail@)[i as int] < 65536);
            assert(as_nats(groups@) == as_nats(before).push(tail@[i as int] as nat));
            assert(as_nats(tail@).take(i + 1) == as_nats(tail@).take(i as int).push(
                tail@[i as int] as nat,
            ));
        }
        i += 1;
    }
    assert(as_nats(tail@).take(tail.len() as int) == as_nats(tail@));
    assert(as_nats(groups@) == h + Seq::new((8 - h.len() - t.len()) as nat, |i: int| 0nat) + t);
    Some(join_groups(&groups))
}

} // verus!
