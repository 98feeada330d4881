//! An ordered map keyed by text: entries stand in the code point order of their keys, and no
//! key stands twice.

use crate::text::{before, before_irreflexive, before_total, before_transitive, rank, Rank};
use vstd::prelude::*;

verus! {

/// Every earlier key stands before every later one.
pub open spec fn ascending(keys: Seq<Seq<char>>) -> bool {
    forall|i: int, j: int| 0 <= i < j < keys.len() ==> before(#[trigger] keys[i], #[trigger] keys[j])
}

/// The keys of a list of entries.
pub open spec fn keys_of<V>(entries: Seq<(String, V)>) -> Seq<Seq<char>> {
    Seq::new(entries.len(), |i: int| entries[i].0@)
}

/// The mapping that a list of entries stands for.
pub open spec fn mapping<V>(entries: Seq<(String, V)>) -> Map<Seq<char>, V> {
    Map::new(
        |k: Seq<char>| keys_of(entries).contains(k),
        |k: Seq<char>| entries[keys_of(entries).index_of(k)].1,
    )
}

/// In an ascending list no key stands twice, so each entry is what the mapping holds.
proof fn mapping_at<V>(entries: Seq<(String, V)>, i: int)
    requires
        ascending(keys_of(entries)),
        0 <= i < entries.len(),
    ensures
        mapping(entries).contains_key(entries[i].0@),
        mapping(entries)[entries[i].0@] == entries[i].1,
{
    let keys = keys_of(entries);
    let k = entries[i].0@;
    assert(keys[i] == k);
    assert(keys.contains(k));
    let j = keys.index_of(k);
    assert(keys[j] == k);
    before_irreflexive(k);
    if i < j {
        assert(before(keys[i], keys[j]));
    } else if j < i {
        assert(before(keys[j], keys[i]));
    }
}

/// An ascending list with an entry put in at its place.
proof fn mapping_insert<V>(entries: Seq<(String, V)>, at: int, e: (String, V))
    requires
        ascending(keys_of(entries)),
        0 <= at <= entries.len(),
        forall|i: int| 0 <= i < at ==> before(keys_of(entries)[i], e.0@),
        forall|i: int| at <= i < entries.len() ==> before(e.0@, keys_of(entries)[i]),
    ensures
        ascending(keys_of(entries.insert(at, e))),
        mapping(entries.insert(at, e)) == mapping(entries).insert(e.0@, e.1),
{
    let new = entries.insert(at, e);
    let keys = keys_of(entries);
    let nkeys = keys_of(new);
    assert forall|i: int, j: int| 0 <= i < j < nkeys.len() implies before(
        #[trigger] nkeys[i],
        #[trigger] nkeys[j],
    ) by {
        let oi = if i < at { i } else { i - 1 };
        let oj = if j < at { j } else { j - 1 };
        if i == at {
            assert(nkeys[j] == keys[oj]);
        } else if j == at {
            assert(nkeys[i] == keys[oi]);
        } else {
            assert(nkeys[i] == keys[oi]);
            assert(nkeys[j] == keys[oj]);
            assert(before(keys[oi], keys[oj]));
        }
    }
    let m = mapping(entries).insert(e.0@, e.1);
    let nm = mapping(new);
    assert forall|k: Seq<char>| #[trigger] nm.contains_key(k) implies m.contains_key(k) && m[k]
        == nm[k] by {
        let j = nkeys.index_of(k);
        assert(nkeys[j] == k);
        mapping_at(new, j);
        if j == at {
        } else {
            let oj = if j < at { j } else { j - 1 };
            assert(keys[oj] == k);
            mapping_at(entries, oj);
            before_irreflexive(k);
        }
    }
    assert forall|k: Seq<char>| #[trigger] m.contains_key(k) implies nm.contains_key(k) by {
        if k == e.0@ {
            assert(nkeys[at] == k);
            assert(nkeys.contains(k));
        } else {
            let oj = keys.index_of(k);
            assert(keys[oj] == k);
            let j = if oj < at { oj } else { oj + 1 };
            assert(nkeys[j] == k);
            assert(nkeys.contains(k));
        }
    }
    assert(nm.dom() =~= m.dom());
    assert(nm =~= m);
}

/// An ascending list with the value of an entry replaced.
proof fn mapping_update<V>(entries: Seq<(String, V)>, at: int, e: (String, V))
    requires
        ascending(keys_of(entries)),
        0 <= at < entries.len(),
        entries[at].0@ == e.0@,
    ensures
        ascending(keys_of(entries.update(at, e))),
        mapping(entries.update(at, e)) == mapping(entries).insert(e.0@, e.1),
{
    let new = entries.update(at, e);
    assert(keys_of(new) =~= keys_of(entries));
    let m = mapping(entries).insert(e.0@, e.1);
    let nm = mapping(new);
    assert forall|k: Seq<char>| nm.contains_key(k) implies m.contains_key(k) && m[k] == nm[k] by {
        let j = keys_of(new).index_of(k);
        assert(keys_of(new)[j] == k);
        mapping_at(new, j);
        mapping_at(entries, j);
        before_irreflexive(k);
        if k == e.0@ {
            mapping_at(new, at);
        }
    }
    assert(keys_of(new)[at] == e.0@);
    assert(nm =~= m);
}

/// A map from text to values, kept in key order.
#[derive(Debug, PartialEq, Eq)]
pub struct StrMap<V> {
    entries: Vec<(String, V)>,
}

impl<V> View for StrMap<V> {
    type V = Map<Seq<char>, V>;

    closed spec fn view(&self) -> Map<Seq<char>, V> {
        mapping(self.entries@)
    }
}

impl<V> StrMap<V> {
    #[verifier::type_invariant]
    spec fn ordered(self) -> bool {
        ascending(keys_of(self.entries@))
    }

    /// The keys in order.
    pub closed spec fn keys(self) -> Seq<Seq<char>> {
        keys_of(self.entries@)
    }

    /// An empty map.
    pub fn new() -> (r: StrMap<V>)
        ensures
            r@ == Map::<Seq<char>, V>::empty(),
            r.keys() == Seq::<Seq<char>>::empty(),
    {
        let r = StrMap { entries: Vec::new() };
        proof {
            assert(r@ =~= Map::<Seq<char>, V>::empty());
            assert(r.keys() =~= Seq::<Seq<char>>::empty());
        }
        r
    }

    /// How many keys there are; the keys stand in order, each once.
    pub fn len(&self) -> (n: usize)
        ensures
            n == self.keys().len(),
            ascending(self.keys()),
            forall|k: Seq<char>| self@.contains_key(k) <==> self.keys().contains(k),
    {
        proof {
            use_type_invariant(self);
        }
        self.entries.len()
    }

    /// The entry at a place in the order.
    pub fn entry(&self, i: usize) -> (e: (&str, &V))
        requires
            i < self.keys().len(),
        ensures
            e.0@ == self.keys()[i as int],
            self@.contains_key(e.0@),
            *e.1 == self@[e.0@],
    {
        proof {
            use_type_invariant(self);
            mapping_at(self.entries@, i as int);
        }
        (self.entries[i].0.as_str(), &self.entries[i].1)
    }

    /// Where a key stands, or where it would stand.
    fn locate(&self, k: &str) -> (r: (bool, usize))
        ensures
            r.1 <= self.entries@.len(),
            r.0 ==> r.1 < self.entries@.len() && self.entries@[r.1 as int].0@ == k@,
            !r.0 ==> forall|i: int|
                0 <= i < r.1 ==> before(#[trigger] keys_of(self.entries@)[i], k@),
            !r.0 ==> forall|i: int|
                r.1 <= i < self.entries@.len() ==> before(k@, #[trigger] keys_of(self.entries@)[i]),
    {
        proof {
            use_type_invariant(self);
        }
        let ghost keys = keys_of(self.entries@);
        let mut lo: usize = 0;
        let mut hi: usize = self.entries.len();
        while lo < hi
            invariant
                lo <= hi <= self.entries@.len(),
                keys == keys_of(self.entries@),
                ascending(keys),
                forall|i: int| 0 <= i < lo ==> before(#[trigger] keys[i], k@),
                forall|i: int| hi <= i < keys.len() ==> before(k@, #[trigger] keys[i]),
            decreases hi - lo,
        {
            let mid = lo + (hi - lo) / 2;
            proof {
                assert(keys[mid as int] == self.entries@[mid as int].0@);
                before_total(keys[mid as int], k@);
            }
            match rank(self.entries[mid].0.as_str(), k) {
                Rank::Same => {
                    return (true, mid);
                },
                Rank::Below => {
                    proof {
                        assert forall|i: int| 0 <= i < mid + 1 implies before(
                            #[trigger] keys[i],
                            k@,
                        ) by {
                            if i < mid {
                                before_transitive(keys[i], keys[mid as int], k@);
                            }
                        }
                    }
                    lo = mid + 1;
                },
                Rank::Above => {
                    proof {
                        assert forall|i: int| mid <= i < keys.len() implies before(
                            k@,
                            #[trigger] keys[i],
                        ) by {
                            if i > mid {
                                before_transitive(k@, keys[mid as int], keys[i]);
                            }
                        }
                    }
                    hi = mid;
                },
            }
        }
        (false, lo)
    }

    /// The value of a key, if it is there.
    pub fn get(&self, k: &str) -> (r: Option<&V>)
        ensures
            match r {
                Some(v) => self@.contains_key(k@) && *v == self@[k@],
                None => !self@.contains_key(k@),
            },
    {
        let (found, i) = self.locate(k);
        proof {
            use_type_invariant(self);
        }
        if found {
            proof {
                mapping_at(self.entries@, i as int);
            }
            Some(&self.entries[i].1)
        } else {
            proof {
                let keys = keys_of(self.entries@);
                if keys.contains(k@) {
                    let j = keys.index_of(k@);
                    assert(keys[j] == k@);
                    before_irreflexive(k@);
                }
            }
            None
        }
    }

    /// Sets the value of a key.
    pub fn insert(&mut self, k: String, v: V)
        ensures
            final(self)@ == old(self)@.insert(k@, v),
    {
        proof {
            use_type_invariant(&*self);
        }
        let (found, i) = self.locate(k.as_str());
        let mut e: Vec<(String, V)> = Vec::new();
        std::mem::swap(&mut e, &mut self.entries);
        let ghost was = e@;
        let ghost new = (k, v);
        if found {
            proof {
                mapping_update(was, i as int, new);
            }
            e.set(i, (k, v));
        } else {
            proof {
                mapping_insert(was, i as int, new);
            }
            e.insert(i, (k, v));
        }
        self.entries = e;
    }
}

} // verus!
