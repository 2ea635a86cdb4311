//! The registry of the relay: which subdomain belongs to which tunnel, and
//! how a subdomain is given out.

use vstd::prelude::*;
use crate::ids::{generated_subdomain, gen_subdomain};
use crate::numerals::{all_hex_digits, hex_digits, lemma_hex_digits, push_hex};
use crate::text::{chars_of, push_char, same_chars};

verus! {

/// A table from names to handles that holds each name once.
///
/// The registry of the relay is such a table: its handles are the shared
/// tunnels. Whoever shares the table puts it behind a lock, looks a handle
/// up, and lets go of the lock before it does anything that waits.
pub struct Registry<H> {
    entries: Vec<(String, H)>,
}

/// A subdomain given out to an agent.
#[derive(Debug)]
pub struct Allocation {
    /// The subdomain to register the tunnel under: no tunnel has it.
    pub subdomain: String,
    /// Whether it is another one than was asked for, which was taken.
    pub reassigned: bool,
}

/// How many variants of a taken subdomain are tried.
pub const MAX_ALLOCATION_TRIES: u64 = 16;

/// The subdomain that an agent is taken to want: the one it asks for, or a
/// generated one where it asks for none or for the empty one.
pub open spec fn wanted_subdomain(requested: Option<Seq<char>>, millis: u128) -> Seq<char> {
    match requested {
        Some(s) => if s.len() > 0 {
            s
        } else {
            generated_subdomain(millis)
        },
        None => generated_subdomain(millis),
    }
}

/// Variant number `k` of a taken subdomain: the subdomain, a dash and a
/// short hexadecimal suffix made from the clock.
pub open spec fn variant(base: Seq<char>, nanos: u128, k: nat) -> Seq<char> {
    base + seq!['-'] + hex_digits(((nanos % 0xFFF + k) % 0xFFF) as nat)
}

/// The index of the first entry named `name`, or the number of entries.
pub open spec fn position<H>(entries: Seq<(Seq<char>, H)>, name: Seq<char>) -> int
    decreases entries.len(),
{
    if entries.len() == 0 {
        0
    } else if entries[0].0 == name {
        0
    } else {
        1 + position(entries.skip(1), name)
    }
}

/// No two entries have the same name.
pub open spec fn distinct<H>(entries: Seq<(Seq<char>, H)>) -> bool {
    forall|i: int, j: int|
        0 <= i < j < entries.len() ==> (#[trigger] entries[i]).0 != (#[trigger] entries[j]).0
}

/// Whether an entry is named `name`.
pub open spec fn has_name<H>(entries: Seq<(Seq<char>, H)>, name: Seq<char>) -> bool {
    exists|i: int| 0 <= i < entries.len() && (#[trigger] entries[i]).0 == name
}

pub proof fn lemma_position<H>(entries: Seq<(Seq<char>, H)>, name: Seq<char>)
    ensures
        0 <= position(entries, name) <= entries.len(),
        forall|j: int| 0 <= j < position(entries, name) ==> (#[trigger] entries[j]).0 != name,
        position(entries, name) < entries.len() ==> entries[position(entries, name)].0 == name,
        has_name(entries, name) <==> position(entries, name) < entries.len(),
    decreases entries.len(),
{
    if entries.len() > 0 && entries[0].0 != name {
        let rest = entries.skip(1);
        lemma_position(rest, name);
        let p = position(rest, name);
        assert forall|j: int| 0 <= j < p + 1 implies (#[trigger] entries[j]).0 != name by {
            if j > 0 {
                assert(entries[j] == rest[j - 1]);
            }
        }
        if p < rest.len() {
            assert(entries[p + 1] == rest[p]);
        }
        if has_name(entries, name) {
            let i = choose|i: int| 0 <= i < entries.len() && (#[trigger] entries[i]).0 == name;
            assert(rest[i - 1] == entries[i]);
        }
    }
}

pub proof fn lemma_position_is<H>(entries: Seq<(Seq<char>, H)>, name: Seq<char>, k: int)
    requires
        0 <= k <= entries.len(),
        forall|j: int| 0 <= j < k ==> (#[trigger] entries[j]).0 != name,
        k < entries.len() ==> entries[k].0 == name,
    ensures
        position(entries, name) == k,
{
    lemma_position(entries, name);
    let p = position(entries, name);
    if p < k {
        assert(entries[p].0 == name);
    } else if p > k {
        assert(entries[k].0 == name);
    }
}

/// The names of a table with one entry more are those it had and the new
/// one.
pub proof fn lemma_names_after_push<H>(entries: Seq<(Seq<char>, H)>, name: Seq<char>, handle: H)
    ensures
        forall|n: Seq<char>|
            has_name(entries.push((name, handle)), n) <==> (has_name(entries, n) || n == name),
        !has_name(entries, name) ==> position(entries.push((name, handle)), name)
            == entries.len(),
{
    let after = entries.push((name, handle));
    assert forall|n: Seq<char>| has_name(after, n) <==> (has_name(entries, n) || n == name) by {
        if has_name(entries, n) {
            let i = choose|i: int| 0 <= i < entries.len() && (#[trigger] entries[i]).0 == n;
            assert(after[i].0 == n);
        }
        if n == name {
            assert(after[entries.len() as int].0 == n);
        }
        if has_name(after, n) {
            let i = choose|i: int| 0 <= i < after.len() && (#[trigger] after[i]).0 == n;
            if i < entries.len() {
                assert(entries[i].0 == n);
            }
        }
    }
    if !has_name(entries, name) {
        assert forall|j: int| 0 <= j < entries.len() implies (#[trigger] after[j]).0 != name by {
            assert(after[j] == entries[j]);
        }
        lemma_position_is(after, name, entries.len() as int);
    }
}

/// The names of a table with one entry less are those it had, but for the
/// name of that entry where every name is held once.
pub proof fn lemma_names_after_remove<H>(entries: Seq<(Seq<char>, H)>, k: int)
    requires
        0 <= k < entries.len(),
    ensures
        forall|n: Seq<char>|
            n != entries[k].0 ==> (has_name(entries.remove(k), n) <==> has_name(entries, n)),
        distinct(entries) ==> !has_name(entries.remove(k), entries[k].0),
{
    let after = entries.remove(k);
    assert forall|n: Seq<char>| n != entries[k].0 implies (has_name(after, n) <==> has_name(
        entries,
        n,
    )) by {
        if has_name(entries, n) {
            let i = choose|i: int| 0 <= i < entries.len() && (#[trigger] entries[i]).0 == n;
            if i < k {
                assert(after[i] == entries[i]);
            } else {
                assert(after[i - 1] == entries[i]);
            }
        }
        if has_name(after, n) {
            let i = choose|i: int| 0 <= i < after.len() && (#[trigger] after[i]).0 == n;
            if i < k {
                assert(after[i] == entries[i]);
            } else {
                assert(after[i] == entries[i + 1]);
            }
        }
    }
    if distinct(entries) && has_name(after, entries[k].0) {
        let i = choose|i: int| 0 <= i < after.len() && (#[trigger] after[i]).0 == entries[k].0;
        if i < k {
            assert(after[i] == entries[i]);
        } else {
            assert(after[i] == entries[i + 1]);
        }
    }
}

/// Law of reassignment. A variant of a subdomain is the subdomain, one
/// dash and a run of one or more small hexadecimal digits. It is never the
/// subdomain itself.
pub proof fn lemma_variant_shape(base: Seq<char>, nanos: u128, k: nat)
    ensures
        ({
            let suffix = hex_digits(((nanos % 0xFFF + k) % 0xFFF) as nat);
            &&& variant(base, nanos, k) == base + seq!['-'] + suffix
            &&& suffix.len() >= 1
            &&& all_hex_digits(suffix)
            &&& variant(base, nanos, k).len() == base.len() + 1 + suffix.len()
            &&& variant(base, nanos, k) != base
        }),
{
    lemma_hex_digits(((nanos % 0xFFF + k) % 0xFFF) as nat);
}

/// Law of registration. Where a name that no entry has is put into a table
/// that holds every name once, every name is still held once, the entries
/// that were there stay as they were, each name that was held leads to the
/// handle it led to, and the new name leads to the new handle.
pub proof fn lemma_registered<H>(entries: Seq<(Seq<char>, H)>, name: Seq<char>, handle: H)
    requires
        distinct(entries),
        !has_name(entries, name),
    ensures
        ({
            let after = entries.push((name, handle));
            &&& distinct(after)
            &&& forall|i: int| 0 <= i < entries.len() ==> #[trigger] after[i] == entries[i]
            &&& forall|n: Seq<char>|
                has_name(entries, n) ==> has_name(after, n) && after[position(after, n)].1
                    == entries[position(entries, n)].1
            &&& has_name(after, name)
            &&& after[position(after, name)].1 == handle
        }),
{
    let after = entries.push((name, handle));
    lemma_names_after_push(entries, name, handle);
    assert forall|a: int, b: int| 0 <= a < b < after.len() implies (#[trigger] after[a]).0 != (
    #[trigger] after[b]).0 by {
        assert(after[a] == entries[a]);
        if b < entries.len() {
            assert(after[b] == entries[b]);
        }
    }
    assert forall|n: Seq<char>| has_name(entries, n) implies has_name(after, n) && after[position(
        after,
        n,
    )].1 == entries[position(entries, n)].1 by {
        lemma_kept_handle(entries, name, handle, n);
    }
}

/// A name that was held leads to the handle it led to after an entry is
/// put at the end.
pub proof fn lemma_kept_handle<H>(
    entries: Seq<(Seq<char>, H)>,
    name: Seq<char>,
    handle: H,
    n: Seq<char>,
)
    requires
        has_name(entries, n),
    ensures
        has_name(entries.push((name, handle)), n),
        position(entries.push((name, handle)), n) == position(entries, n),
        entries.push((name, handle))[position(entries, n)].1 == entries[position(entries, n)].1,
{
    let after = entries.push((name, handle));
    lemma_position(entries, n);
    let p = position(entries, n);
    assert forall|j: int| 0 <= j < p implies (#[trigger] after[j]).0 != n by {
        assert(after[j] == entries[j]);
    }
    assert(after[p] == entries[p]);
    lemma_position_is(after, n, p);
    lemma_position(after, n);
}

/// Law of the registry. Where every name is held once, a name that is held
/// is held by one entry and no other: each subdomain leads to one tunnel,
/// and each tunnel stands under one subdomain.
pub proof fn lemma_one_entry_per_name<H>(entries: Seq<(Seq<char>, H)>, i: int, j: int)
    requires
        distinct(entries),
        0 <= i < entries.len(),
        0 <= j < entries.len(),
        entries[i].0 == entries[j].0,
    ensures
        i == j,
        position(entries, entries[i].0) == i,
{
    lemma_position(entries, entries[i].0);
    let p = position(entries, entries[i].0);
    if p < i {
        assert(entries[p].0 == entries[i].0);
    }
}

/// After a handle is set under a name, the name is held and the handle is
/// the one under it.
pub proof fn lemma_after_set<H>(entries: Seq<(Seq<char>, H)>, name: Seq<char>, handle: H)
    ensures
        ({
            let p = position(entries, name);
            let after = if p < entries.len() {
                entries.update(p, (name, handle))
            } else {
                entries.push((name, handle))
            };
            &&& has_name(after, name)
            &&& after[position(after, name)].1 == handle
        }),
{
    lemma_position(entries, name);
    let p = position(entries, name);
    let after = if p < entries.len() {
        entries.update(p, (name, handle))
    } else {
        entries.push((name, handle))
    };
    assert forall|j: int| 0 <= j < p implies (#[trigger] after[j]).0 != name by {
        assert(after[j] == entries[j]);
    }
    assert(after[p].0 == name);
    lemma_position_is(after, name, p);
    lemma_position(after, name);
}

impl<H> Registry<H> {
    /// The entries, each a name and a handle, as a value.
    pub closed spec fn entries(&self) -> Seq<(Seq<char>, H)> {
        Seq::new(self.entries@.len(), |i: int| (self.entries@[i].0@, self.entries@[i].1))
    }

    /// Every name is held once.
    pub open spec fn well_formed(&self) -> bool {
        distinct(self.entries())
    }

    /// Whether the table holds `name`.
    pub open spec fn has(&self, name: Seq<char>) -> bool {
        has_name(self.entries(), name)
    }

    /// The handle under `name`.
    pub open spec fn handle(&self, name: Seq<char>) -> H
        recommends
            self.has(name),
    {
        self.entries()[position(self.entries(), name)].1
    }

    /// A table that holds nothing.
    pub fn new() -> (r: Registry<H>)
        ensures
            r.entries() == Seq::<(Seq<char>, H)>::empty(),
            r.well_formed(),
    {
        let r = Registry { entries: Vec::new() };
        assert(r.entries() =~= Seq::<(Seq<char>, H)>::empty());
        r
    }

    /// How many names the table holds.
    pub fn len(&self) -> (n: usize)
        ensures
            n == self.entries().len(),
    {
        self.entries.len()
    }

    fn find(&self, name: &[char]) -> (i: usize)
        ensures
            i == position(self.entries(), name@),
            i <= self.entries@.len(),
    {
        let mut i: usize = 0;
        while i < self.entries.len()
            invariant
                i <= self.entries@.len(),
                forall|j: int| 0 <= j < i ==> (#[trigger] self.entries()[j]).0 != name@,
            decreases self.entries@.len() - i,
        {
            let key = chars_of(self.entries[i].0.as_str());
            if same_chars(key.as_slice(), name) {
                proof {
                    assert(self.entries()[i as int].0 == name@);
                    lemma_position_is(self.entries(), name@, i as int);
                }
                return i;
            }
            assert(self.entries()[i as int].0 != name@);
            i += 1;
        }
        proof {
            lemma_position_is(self.entries(), name@, i as int);
        }
        i
    }

    /// Whether the table holds `name`.
    pub fn contains(&self, name: &str) -> (r: bool)
        ensures
            r == self.has(name@),
    {
        let key = chars_of(name);
        let i = self.find(key.as_slice());
        proof {
            lemma_position(self.entries(), name@);
        }
        i < self.entries.len()
    }

    /// The handle under `name`, if the table holds the name.
    pub fn get(&self, name: &str) -> (r: Option<&H>)
        ensures
            match r {
                Some(h) => self.has(name@) && *h == self.handle(name@),
                None => !self.has(name@),
            },
    {
        let key = chars_of(name);
        let i = self.find(key.as_slice());
        proof {
            lemma_position(self.entries(), name@);
        }
        if i < self.entries.len() {
            Some(&self.entries[i].1)
        } else {
            None
        }
    }

    /// Puts `handle` under `name` unless the name is taken. A handle that
    /// was not put in is handed back.
    pub fn insert_if_absent(&mut self, name: String, handle: H) -> (r: Result<(), H>)
        ensures
            r is Err <==> old(self).has(name@),
            r matches Err(back) ==> back == handle && final(self).entries() == old(
                self,
            ).entries(),
            r is Ok ==> final(self).entries() == old(self).entries().push((name@, handle)),
            r is Ok ==> final(self).has(name@) && final(self).handle(name@) == handle,
            r is Ok ==> forall|n: Seq<char>|
                final(self).has(n) <==> (old(self).has(n) || n == name@),
            r is Ok ==> forall|n: Seq<char>|
                old(self).has(n) ==> final(self).handle(n) == old(self).handle(n),
            old(self).well_formed() ==> final(self).well_formed(),
    {
        proof {
            lemma_names_after_push(self.entries(), name@, handle);
            assert forall|n: Seq<char>| self.has(n) implies self.entries().push(
                (name@, handle),
            )[position(self.entries().push((name@, handle)), n)].1 == self.handle(n) by {
                lemma_kept_handle(self.entries(), name@, handle, n);
            }
        }
        let key = chars_of(name.as_str());
        let i = self.find(key.as_slice());
        proof {
            lemma_position(self.entries(), name@);
        }
        if i < self.entries.len() {
            return Err(handle);
        }
        self.entries.push((name, handle));
        proof {
            assert(self.entries() =~= old(self).entries().push((name@, handle)));
            if old(self).well_formed() {
                assert forall|a: int, b: int| 0 <= a < b < self.entries().len() implies (
                #[trigger] self.entries()[a]).0 != (#[trigger] self.entries()[b]).0 by {
                    if b == self.entries().len() - 1 {
                        assert(self.entries()[a] == old(self).entries()[a]);
                    } else {
                        assert(self.entries()[a] == old(self).entries()[a]);
                        assert(self.entries()[b] == old(self).entries()[b]);
                    }
                }
            }
        }
        Ok(())
    }

    /// Puts `handle` under `name`, in place of the handle that was there if
    /// the name was taken. The handle that was there is handed back.
    pub fn set(&mut self, name: String, handle: H) -> (before: Option<H>)
        ensures
            before is Some <==> old(self).has(name@),
            before matches Some(h) ==> h == old(self).handle(name@) && final(self).entries()
                == old(self).entries().update(
                position(old(self).entries(), name@),
                (name@, handle),
            ),
            before is None ==> final(self).entries() == old(self).entries().push((name@, handle)),
            final(self).has(name@) && final(self).handle(name@) == handle,
            old(self).well_formed() ==> final(self).well_formed(),
    {
        proof {
            lemma_after_set(self.entries(), name@, handle);
        }
        let key = chars_of(name.as_str());
        let i = self.find(key.as_slice());
        proof {
            lemma_position(self.entries(), name@);
        }
        if i < self.entries.len() {
            let old_entry = self.entries.remove(i);
            self.entries.insert(i, (name, handle));
            proof {
                assert(self.entries() =~= old(self).entries().update(i as int, (name@, handle)));
                if old(self).well_formed() {
                    assert forall|a: int, b: int| 0 <= a < b < self.entries().len() implies (
                    #[trigger] self.entries()[a]).0 != (#[trigger] self.entries()[b]).0 by {
                        assert(self.entries()[a].0 == old(self).entries()[a].0);
                        assert(self.entries()[b].0 == old(self).entries()[b].0);
                    }
                }
            }
            Some(old_entry.1)
        } else {
            self.entries.push((name, handle));
            proof {
                assert(self.entries() =~= old(self).entries().push((name@, handle)));
                if old(self).well_formed() {
                    assert forall|a: int, b: int| 0 <= a < b < self.entries().len() implies (
                    #[trigger] self.entries()[a]).0 != (#[trigger] self.entries()[b]).0 by {
                        assert(self.entries()[a] == old(self).entries()[a]);
                        if b < self.entries().len() - 1 {
                            assert(self.entries()[b] == old(self).entries()[b]);
                        }
                    }
                }
            }
            None
        }
    }

    /// Takes `name` out of the table and hands its handle back, if the
    /// table holds the name.
    pub fn remove(&mut self, name: &str) -> (r: Option<H>)
        ensures
            r is Some <==> old(self).has(name@),
            r matches Some(h) ==> h == old(self).handle(name@) && final(self).entries() == old(
                self,
            ).entries().remove(position(old(self).entries(), name@)),
            r is None ==> final(self).entries() == old(self).entries(),
            forall|n: Seq<char>| n != name@ ==> (final(self).has(n) <==> old(self).has(n)),
            old(self).well_formed() ==> final(self).well_formed() && !final(self).has(name@),
    {
        proof {
            lemma_position(self.entries(), name@);
            if position(self.entries(), name@) < self.entries().len() {
                lemma_names_after_remove(self.entries(), position(self.entries(), name@));
            }
        }
        let key = chars_of(name);
        let i = self.find(key.as_slice());
        proof {
            lemma_position(self.entries(), name@);
        }
        if i < self.entries.len() {
            let entry = self.entries.remove(i);
            proof {
                let before = old(self).entries();
                assert(self.entries() =~= before.remove(i as int));
                if old(self).well_formed() {
                    assert forall|a: int| 0 <= a < self.entries().len() implies (
                    #[trigger] self.entries()[a]).0 != name@ by {
                        if a < i {
                            assert(self.entries()[a] == before[a]);
                        } else {
                            assert(self.entries()[a] == before[a + 1]);
                        }
                    }
                    assert forall|a: int, b: int| 0 <= a < b < self.entries().len() implies (
                    #[trigger] self.entries()[a]).0 != (#[trigger] self.entries()[b]).0 by {
                        let a0 = if a < i { a } else { a + 1 };
                        let b0 = if b < i { b } else { b + 1 };
                        assert(self.entries()[a] == before[a0]);
                        assert(self.entries()[b] == before[b0]);
                    }
                }
            }
            Some(entry.1)
        } else {
            None
        }
    }
}


impl<H> Registry<H> {
    /// The number of the first variant from `from` on, and below `tries`,
    /// that no tunnel has.
    pub open spec fn first_free(&self, base: Seq<char>, nanos: u128, from: nat, tries: nat) -> Option<
        nat,
    >
        decreases tries - from,
    {
        if from >= tries {
            None
        } else if !self.has(variant(base, nanos, from)) {
            Some(from)
        } else {
            self.first_free(base, nanos, from + 1, tries)
        }
    }

    /// Chooses the subdomain for a new tunnel.
    ///
    /// An agent that asks for no subdomain, or for the empty one, gets a
    /// generated one. A subdomain that no tunnel has is given out as it is.
    /// For one that is taken, variants are tried in turn and the first that
    /// no tunnel has is given out, marked as reassigned. Nothing is given out
    /// where all variants are taken.
    pub fn allocate(
        &self,
        requested: Option<&str>,
        millis: u128,
        nanos: u128,
    ) -> (r: Option<Allocation>)
        ensures
            r matches Some(a) ==> !self.has(a.subdomain@),
            r matches Some(a) ==> ({
                let base = wanted_subdomain(
                    match requested {
                        Some(s) => Some(s@),
                        None => None,
                    },
                    millis,
                );
                &&& a.reassigned == self.has(base)
                &&& a.subdomain@ == base <==> !self.has(base)
            }),
            ({
                let base = wanted_subdomain(
                    match requested {
                        Some(s) => Some(s@),
                        None => None,
                    },
                    millis,
                );
                if !self.has(base) {
                    r matches Some(a) && a.subdomain@ == base && !a.reassigned
                } else {
                    match self.first_free(base, nanos, 0, MAX_ALLOCATION_TRIES as nat) {
                        Some(k) => r matches Some(a) && a.subdomain@ == variant(base, nanos, k)
                            && a.reassigned,
                        None => r is None,
                    }
                }
            }),
    {
        let base: String = match requested {
            Some(s) => {
                if s.unicode_len() > 0 {
                    s.to_owned()
                } else {
                    gen_subdomain(millis)
                }
            },
            None => gen_subdomain(millis),
        };
        if !self.contains(base.as_str()) {
            return Some(Allocation { subdomain: base, reassigned: false });
        }
        let start: u128 = nanos % 0xFFF;
        let mut k: u64 = 0;
        while k < MAX_ALLOCATION_TRIES
            invariant
                k <= MAX_ALLOCATION_TRIES,
                start == nanos % 0xFFF,
                self.has(base@),
                base@ == wanted_subdomain(
                    match requested {
                        Some(s) => Some(s@),
                        None => None,
                    },
                    millis,
                ),
                self.first_free(base@, nanos, 0, MAX_ALLOCATION_TRIES as nat) == self.first_free(
                    base@,
                    nanos,
                    k as nat,
                    MAX_ALLOCATION_TRIES as nat,
                ),
            decreases MAX_ALLOCATION_TRIES - k,
        {
            let mut name = base.clone();
            push_char(&mut name, '-');
            push_hex(&mut name, (start + k as u128) % 0xFFF);
            assert(name@ == variant(base@, nanos, k as nat));
            proof {
                lemma_variant_shape(base@, nanos, k as nat);
            }
            if !self.contains(name.as_str()) {
                return Some(Allocation { subdomain: name, reassigned: true });
            }
            k += 1;
        }
        None
    }
}

} // verus!
