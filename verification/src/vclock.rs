//! Vector clocks: the causal order that decides what supersedes what.
//!
//! Each device keeps a counter that only grows. Comparing two clocks tells whether one change
//! causally precedes the other or whether the two are concurrent, a real conflict. Wall-clock
//! time plays no part, so clock skew between devices cannot lose data.

use crate::strmap::{ascending, StrMap};
use vstd::prelude::*;

verus! {

/// Causal relationship between two vector clocks.
#[derive(Debug, Clone, Copy, PartialEq, Eq, Structural)]
pub enum Causality {
    /// `self` happened strictly before `other`.
    Before,
    /// `self` happened strictly after `other`.
    After,
    /// Every counter is the same.
    Equal,
    /// Neither dominates: a genuine conflict.
    Concurrent,
}

/// The counters of a clock, by device.
pub type Counters = Map<Seq<char>, u64>;

/// The counter of a device, zero for one never seen.
pub open spec fn count(c: Counters, device: Seq<char>) -> u64 {
    if c.contains_key(device) {
        c[device]
    } else {
        0
    }
}

/// No counter of `a` is ahead of `b`.
pub open spec fn within(a: Counters, b: Counters) -> bool {
    forall|d: Seq<char>| #[trigger] count(a, d) <= count(b, d)
}

/// How `a` stands to `b` in causal order.
pub open spec fn causality(a: Counters, b: Counters) -> Causality {
    if within(a, b) && within(b, a) {
        Causality::Equal
    } else if within(b, a) {
        Causality::After
    } else if within(a, b) {
        Causality::Before
    } else {
        Causality::Concurrent
    }
}

/// The clock with one device's counter one further.
pub open spec fn bumped(c: Counters, device: Seq<char>) -> Counters {
    c.insert(device, (count(c, device) + 1) as u64)
}

/// The larger of two counters.
pub open spec fn larger(a: u64, b: u64) -> u64 {
    if a >= b {
        a
    } else {
        b
    }
}

/// The per-device maximum of two clocks.
pub open spec fn joined(a: Counters, b: Counters) -> Counters {
    Map::new(
        |d: Seq<char>| a.contains_key(d) || b.contains_key(d),
        |d: Seq<char>| larger(count(a, d), count(b, d)),
    )
}

/// A per-device logical clock.
#[derive(Debug, PartialEq, Eq)]
pub struct VClock {
    counters: StrMap<u64>,
}

impl View for VClock {
    type V = Counters;

    closed spec fn view(&self) -> Counters {
        self.counters@
    }
}

impl Clone for VClock {
    fn clone(&self) -> (r: VClock)
        ensures
            r@ == self@,
    {
        let mut r = VClock::new();
        let n = self.counters.len();
        let mut i: usize = 0;
        while i < n
            invariant
                i <= n,
                n == self.counters.keys().len(),
                forall|k: Seq<char>| self@.contains_key(k) <==> self.counters.keys().contains(k),
                forall|k: Seq<char>| #[trigger] r@.contains_key(k) ==> self@.contains_key(k) && r@[k] == self@[k],
                forall|j: int| 0 <= j < i ==> r@.contains_key(#[trigger] self.counters.keys()[j]),
            decreases n - i,
        {
            let (device, counter) = self.counters.entry(i);
            let ghost was = r@;
            r.counters.insert(device.to_owned(), *counter);
            proof {
                assert(r@ == was.insert(device@, *counter));
                assert(self@.contains_key(device@));
            }
            i += 1;
        }
        proof {
            assert forall|k: Seq<char>| self@.contains_key(k) implies #[trigger] r@.contains_key(k) by {
                assert(self.counters.keys().contains(k));
                let j = self.counters.keys().index_of(k);
                assert(self.counters.keys()[j] == k);
            }
            assert(r@ =~= self@);
        }
        r
    }
}

impl Default for VClock {
    fn default() -> (r: VClock)
        ensures
            r@ == Map::<Seq<char>, u64>::empty(),
    {
        VClock::new()
    }
}

impl VClock {
    /// A clock that has seen nothing.
    pub fn new() -> (r: VClock)
        ensures
            r@ == Map::<Seq<char>, u64>::empty(),
    {
        VClock { counters: StrMap::new() }
    }

    /// A clock with the given counters; where a device stands twice, the later counter counts.
    pub fn from_entries(entries: &Vec<(String, u64)>) -> (r: VClock)
        ensures
            r@ == counters_of(entries@),
    {
        let mut r = VClock::new();
        let mut i: usize = 0;
        proof {
            assert(entries@.take(0) =~= Seq::<(String, u64)>::empty());
        }
        while i < entries.len()
            invariant
                i <= entries@.len(),
                r@ == counters_of(entries@.take(i as int)),
            decreases entries@.len() - i,
        {
            r.counters.insert(entries[i].0.clone(), entries[i].1);
            proof {
                assert(entries@.take(i + 1).drop_last() =~= entries@.take(i as int));
            }
            i += 1;
        }
        proof {
            assert(entries@.take(entries@.len() as int) =~= entries@);
        }
        r
    }

    /// The counters in device order, each device once.
    pub fn entries(&self) -> (r: Vec<(String, u64)>)
        ensures
            ascending(crate::strmap::keys_of(r@)),
            counters_of(r@) == self@,
    {
        let mut r: Vec<(String, u64)> = Vec::new();
        let n = self.counters.len();
        let ghost keys = self.counters.keys();
        let mut i: usize = 0;
        proof {
            assert(counters_of(r@) =~= Map::<Seq<char>, u64>::empty());
        }
        while i < n
            invariant
                i <= n,
                n == keys.len(),
                keys == self.counters.keys(),
                r@.len() == i,
                forall|j: int| 0 <= j < i ==> (#[trigger] r@[j]).0@ == keys[j],
                forall|k: Seq<char>| self@.contains_key(k) <==> keys.contains(k),
                forall|k: Seq<char>| #[trigger]
                    counters_of(r@).contains_key(k) ==> self@.contains_key(k) && counters_of(r@)[k]
                        == self@[k],
                forall|j: int| 0 <= j < i ==> counters_of(r@).contains_key(#[trigger] keys[j]),
            decreases n - i,
        {
            let (device, counter) = self.counters.entry(i);
            let ghost was = r@;
            r.push((device.to_owned(), *counter));
            proof {
                assert(r@.drop_last() =~= was);
                assert(counters_of(r@) == counters_of(was).insert(device@, *counter));
                assert(self@.contains_key(device@));
            }
            i += 1;
        }
        proof {
            assert forall|k: Seq<char>| self@.contains_key(k) implies #[trigger]
                counters_of(r@).contains_key(k) by {
                assert(keys.contains(k));
                let j = keys.index_of(k);
                assert(keys[j] == k);
            }
            assert(counters_of(r@) =~= self@);
            assert(crate::strmap::keys_of(r@) =~= keys);
        }
        r
    }

    /// Bump a device's counter. Call on every local mutation.
    pub fn increment(&mut self, device: &str)
        requires
            count(old(self)@, device@) < u64::MAX,
        ensures
            final(self)@ == bumped(old(self)@, device@),
            final(self)@.dom() == old(self)@.dom().insert(device@),
            final(self)@[device@] == (if old(self)@.contains_key(device@) {
                old(self)@[device@] + 1
            } else {
                1
            }),
            forall|d: Seq<char>| d != device@ ==> #[trigger] final(self)@[d] == old(self)@[d],
    {
        let next = self.get(device) + 1;
        self.counters.insert(device.to_owned(), next);
    }

    /// A device's current counter (0 if never seen).
    pub fn get(&self, device: &str) -> (n: u64)
        ensures
            n == count(self@, device@),
            self@.contains_key(device@) ==> n == self@[device@],
            !self@.contains_key(device@) ==> n == 0,
    {
        match self.counters.get(device) {
            Some(n) => *n,
            None => 0,
        }
    }

    /// Merge in another clock, taking the per-device maximum.
    pub fn merge(&mut self, other: &VClock)
        ensures
            final(self)@ == joined(old(self)@, other@),
    {
        let ghost start = self@;
        let n = other.counters.len();
        let ghost keys = other.counters.keys();
        let mut i: usize = 0;
        while i < n
            invariant
                i <= n,
                n == keys.len(),
                keys == other.counters.keys(),
                ascending(keys),
                forall|k: Seq<char>| other@.contains_key(k) <==> keys.contains(k),
                forall|k: Seq<char>| start.contains_key(k) ==> #[trigger] self@.contains_key(k),
                forall|k: Seq<char>| #[trigger]
                    self@.contains_key(k) ==> start.contains_key(k) || other@.contains_key(k),
                forall|j: int|
                    0 <= j < i ==> self@.contains_key(#[trigger] keys[j]) && self@[keys[j]] == larger(
                        count(start, keys[j]),
                        count(other@, keys[j]),
                    ),
                forall|k: Seq<char>|
                    #![trigger self@[k]]
                    self@.contains_key(k) ==> self@[k] == count(start, k) || self@[k] == larger(
                        count(start, k),
                        count(other@, k),
                    ),
                forall|k: Seq<char>| #![trigger count(self@, k)]
                    (forall|j: int| 0 <= j < i ==> keys[j] != k) ==> count(self@, k) == count(start, k),
            decreases n - i,
        {
            let (device, counter) = other.counters.entry(i);
            let mine = self.get(device);
            let ghost was = self@;
            let top = if *counter > mine {
                *counter
            } else {
                mine
            };
            proof {
                assert forall|j: int| 0 <= j < i implies keys[j] != keys[i as int] by {
                    crate::text::before_irreflexive(keys[j]);
                }
                assert(count(was, device@) == count(start, device@));
            }
            self.counters.insert(device.to_owned(), top);
            proof {
                assert(self@ == was.insert(device@, top));
                assert forall|k: Seq<char>| #![trigger count(self@, k)]
                    (forall|j: int| 0 <= j < i + 1 ==> keys[j] != k) implies count(self@, k)
                    == count(start, k) by {
                    assert(keys[i as int] != k);
                    assert(count(was, k) == count(start, k));
                }
            }
            i += 1;
        }
        proof {
            let want = joined(start, other@);
            assert forall|k: Seq<char>| #[trigger] want.contains_key(k) implies self@.contains_key(k)
                && self@[k] == want[k] by {
                if other@.contains_key(k) {
                    assert(keys.contains(k));
                    let j = keys.index_of(k);
                    assert(keys[j] == k);
                } else {
                    assert forall|j: int| 0 <= j < n implies keys[j] != k by {
                        if keys[j] == k {
                            assert(keys.contains(k));
                        }
                    }
                    assert(count(self@, k) == count(start, k));
                }
            }
            assert(self@ =~= want);
        }
    }

    /// Compare causal order against another clock.
    pub fn compare(&self, other: &VClock) -> (r: Causality)
        ensures
            r == causality(self@, other@),
    {
        let other_ahead = !self.covers(other);
        let self_ahead = !other.covers(self);
        match (self_ahead, other_ahead) {
            (false, false) => Causality::Equal,
            (true, false) => Causality::After,
            (false, true) => Causality::Before,
            (true, true) => Causality::Concurrent,
        }
    }

    /// Whether no counter of `other` is ahead of this clock.
    fn covers(&self, other: &VClock) -> (r: bool)
        ensures
            r == within(other@, self@),
    {
        let n = other.counters.len();
        let ghost keys = other.counters.keys();
        let mut i: usize = 0;
        while i < n
            invariant
                i <= n,
                n == keys.len(),
                keys == other.counters.keys(),
                forall|k: Seq<char>| other@.contains_key(k) <==> keys.contains(k),
                forall|j: int|
                    0 <= j < i ==> count(other@, #[trigger] keys[j]) <= count(self@, keys[j]),
            decreases n - i,
        {
            let (device, counter) = other.counters.entry(i);
            if *counter > self.get(device) {
                proof {
                    assert(count(other@, device@) > count(self@, device@));
                }
                return false;
            }
            i += 1;
        }
        proof {
            assert forall|d: Seq<char>| #[trigger] count(other@, d) <= count(self@, d) by {
                if other@.contains_key(d) {
                    assert(keys.contains(d));
                    let j = keys.index_of(d);
                    assert(keys[j] == d);
                }
            }
        }
        true
    }
}

/// The counters that a list of entries stands for; a later entry of a device counts.
pub open spec fn counters_of(entries: Seq<(String, u64)>) -> Counters
    decreases entries.len(),
{
    if entries.len() == 0 {
        Map::empty()
    } else {
        counters_of(entries.drop_last()).insert(entries.last().0@, entries.last().1)
    }
}

// ---- laws ----------------------------------------------------------------------------------
/// A clock is equal to itself.
pub proof fn compare_reflexive(a: Counters)
    ensures
        causality(a, a) == Causality::Equal,
{
}

/// The two sides see the same relation from opposite ends.
pub proof fn compare_mirrors(a: Counters, b: Counters)
    ensures
        causality(a, b) == Causality::After <==> causality(b, a) == Causality::Before,
        causality(a, b) == Causality::Equal <==> causality(b, a) == Causality::Equal,
        causality(a, b) == Causality::Concurrent <==> causality(b, a) == Causality::Concurrent,
{
}

/// What happened before something happened before all that followed it.
pub proof fn before_chains(a: Counters, b: Counters, c: Counters)
    requires
        causality(a, b) == Causality::Before,
        causality(b, c) == Causality::Before,
    ensures
        causality(a, c) == Causality::Before,
{
    assert forall|d: Seq<char>| #[trigger] count(a, d) <= count(c, d) by {
        assert(count(a, d) <= count(b, d));
        assert(count(b, d) <= count(c, d));
    }
    let d = choose|d: Seq<char>| count(b, d) > #[trigger] count(a, d);
    assert(exists|d: Seq<char>| count(b, d) > #[trigger] count(a, d)) by {
        assert(!within(b, a));
        let e = choose|e: Seq<char>| !(#[trigger] count(b, e) <= count(a, e));
        assert(count(b, e) > count(a, e));
    }
    assert(count(b, d) <= count(c, d));
    assert(count(c, d) > count(a, d));
}

/// A local mutation is strictly after everything the clock had seen.
pub proof fn increment_is_after(a: Counters, device: Seq<char>)
    requires
        count(a, device) < u64::MAX,
    ensures
        causality(bumped(a, device), a) == Causality::After,
{
    let b = bumped(a, device);
    assert forall|d: Seq<char>| #[trigger] count(a, d) <= count(b, d) by {}
    assert(count(b, device) > count(a, device));
}

/// Two devices that each mutate the same state are concurrent.
pub proof fn independent_edits_are_concurrent(a: Counters, one: Seq<char>, two: Seq<char>)
    requires
        one != two,
        count(a, one) < u64::MAX,
        count(a, two) < u64::MAX,
    ensures
        causality(bumped(a, one), bumped(a, two)) == Causality::Concurrent,
{
    assert(count(bumped(a, one), one) > count(bumped(a, two), one));
    assert(count(bumped(a, two), two) > count(bumped(a, one), two));
}

/// The counters of a merge are the per-device maximum.
pub proof fn merge_counts(a: Counters, b: Counters, device: Seq<char>)
    ensures
        count(joined(a, b), device) == larger(count(a, device), count(b, device)),
{
}

/// A merge dominates both of its sides.
pub proof fn merge_dominates(a: Counters, b: Counters)
    ensures
        within(a, joined(a, b)),
        within(b, joined(a, b)),
        causality(joined(a, b), a) == Causality::After || causality(joined(a, b), a)
            == Causality::Equal,
        causality(joined(a, b), b) == Causality::After || causality(joined(a, b), b)
            == Causality::Equal,
{
    assert forall|d: Seq<char>| #[trigger] count(a, d) <= count(joined(a, b), d) by {}
    assert forall|d: Seq<char>| #[trigger] count(b, d) <= count(joined(a, b), d) by {}
}

/// A merge of concurrent clocks is strictly after each of them.
pub proof fn merge_of_concurrent_is_after(a: Counters, b: Counters)
    requires
        causality(a, b) == Causality::Concurrent,
    ensures
        causality(joined(a, b), a) == Causality::After,
        causality(joined(a, b), b) == Causality::After,
{
    merge_dominates(a, b);
    let d = choose|d: Seq<char>| !(#[trigger] count(a, d) <= count(b, d));
    assert(count(joined(a, b), d) > count(b, d));
    let e = choose|e: Seq<char>| !(#[trigger] count(b, e) <= count(a, e));
    assert(count(joined(a, b), e) > count(a, e));
}

/// A merge is no further than anything that dominates both of its sides.
pub proof fn merge_is_least(a: Counters, b: Counters, c: Counters)
    requires
        within(a, c),
        within(b, c),
    ensures
        within(joined(a, b), c),
{
    assert forall|d: Seq<char>| #[trigger] count(joined(a, b), d) <= count(c, d) by {
        assert(count(a, d) <= count(c, d));
        assert(count(b, d) <= count(c, d));
    }
}

/// Merging does not depend on the order of the two sides.
pub proof fn merge_commutes(a: Counters, b: Counters)
    ensures
        joined(a, b) == joined(b, a),
{
    assert(joined(a, b) =~= joined(b, a));
}

/// Merging does not depend on how merges are grouped.
pub proof fn merge_associates(a: Counters, b: Counters, c: Counters)
    ensures
        joined(joined(a, b), c) == joined(a, joined(b, c)),
{
    assert(joined(joined(a, b), c) =~= joined(a, joined(b, c)));
}

/// Merging a clock into itself changes nothing.
pub proof fn merge_idempotent(a: Counters)
    ensures
        joined(a, a) == a,
{
    assert(joined(a, a) =~= a);
}

/// A device that is not in the clock counts as zero, any other as its counter.
pub proof fn counters_count(c: Counters, device: Seq<char>)
    ensures
        c.contains_key(device) ==> count(c, device) == c[device],
        !c.contains_key(device) ==> count(c, device) == 0,
{
}

/// A clock is after another if it is ahead for some device and behind for none, before it the
/// other way round, concurrent if it is ahead for one and behind for another, and equal if it is
/// neither.
pub proof fn order_is_by_counters(a: Counters, b: Counters)
    ensures
        ({
            let ahead = exists|d: Seq<char>| #[trigger] count(a, d) > count(b, d);
            let behind = exists|d: Seq<char>| #[trigger] count(a, d) < count(b, d);
            &&& causality(a, b) == Causality::After <==> ahead && !behind
            &&& causality(a, b) == Causality::Before <==> behind && !ahead
            &&& causality(a, b) == Causality::Concurrent <==> ahead && behind
            &&& causality(a, b) == Causality::Equal <==> !ahead && !behind
        }),
{
    if !within(a, b) {
        let d = choose|d: Seq<char>| #[trigger] count(a, d) > count(b, d);
        assert(count(a, d) > count(b, d));
    } else {
        assert forall|d: Seq<char>| !(#[trigger] count(a, d) > count(b, d)) by {}
    }
    if !within(b, a) {
        let d = choose|d: Seq<char>| #[trigger] count(b, d) > count(a, d);
        assert(count(a, d) < count(b, d));
    } else {
        assert forall|d: Seq<char>| !(#[trigger] count(a, d) < count(b, d)) by {
            assert(count(b, d) <= count(a, d));
        }
    }
}

/// A merged clock has the devices of both, each with the greater of its two counters.
pub proof fn merge_takes_the_greater(a: Counters, b: Counters, d: Seq<char>)
    ensures
        joined(a, b).contains_key(d) <==> a.contains_key(d) || b.contains_key(d),
        a.contains_key(d) && b.contains_key(d) ==> joined(a, b)[d] == (if a[d] < b[d] {
            b[d]
        } else {
            a[d]
        }),
        a.contains_key(d) && !b.contains_key(d) ==> joined(a, b)[d] == a[d],
        b.contains_key(d) && !a.contains_key(d) ==> joined(a, b)[d] == b[d],
{
}

/// One change moves one counter by one.
pub proof fn change_moves_one_counter(c: Counters, device: Seq<char>, other: Seq<char>)
    requires
        !c.contains_key(device) || c[device] < u64::MAX,
    ensures
        bumped(c, device).contains_key(device),
        c.contains_key(device) ==> bumped(c, device)[device] == c[device] + 1,
        !c.contains_key(device) ==> bumped(c, device)[device] == 1,
        other != device ==> (bumped(c, device).contains_key(other) <==> c.contains_key(other)),
        other != device && c.contains_key(other) ==> bumped(c, device)[other] == c[other],
{
}

/// Of a list of counters the last one that names a device counts, and a device that none names is
/// not in the clock.
pub proof fn last_entry_counts(entries: Seq<(String, u64)>, device: Seq<char>, i: int)
    requires
        -1 <= i < entries.len(),
        i >= 0 ==> entries[i].0@ == device,
        forall|j: int| i < j < entries.len() ==> (#[trigger] entries[j]).0@ != device,
    ensures
        i >= 0 ==> counters_of(entries).contains_key(device) && counters_of(entries)[device]
            == entries[i].1,
        i == -1 ==> !counters_of(entries).contains_key(device),
    decreases entries.len(),
{
    if entries.len() > 0 && i < entries.len() - 1 {
        let d = entries.drop_last();
        assert(entries[entries.len() - 1].0@ != device);
        assert forall|j: int| i < j < d.len() implies (#[trigger] d[j]).0@ != device by {
            assert(entries[j].0@ != device);
        }
        last_entry_counts(d, device, i);
    }
}

} // verus!
