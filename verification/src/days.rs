//! A map keyed by day numbers whose entries are kept in ascending day order
//! (the order in which a `BTreeMap` keyed by dates is walked).
use vstd::prelude::*;
use crate::assoc::{WellFormed, pairs_to_map, distinct_keys, lemma_lookup, lemma_absent, lemma_remove, lemma_update, lemma_insert_new, lemma_dom_len};

verus! {

/// Keys ascend strictly.
pub open spec fn days_sorted<W>(ps: Seq<(i32, W)>) -> bool {
    forall|i: int, j: int| 0 <= i < j < ps.len() ==> #[trigger] ps[i].0 < #[trigger] ps[j].0
}

pub proof fn lemma_days_distinct<W>(ps: Seq<(i32, W)>)
    requires
        days_sorted(ps),
    ensures
        distinct_keys(ps),
{
    assert forall|i: int, j: int|
        0 <= i < ps.len() && 0 <= j < ps.len() && i != j implies #[trigger] ps[i].0 != #[trigger] ps[j].0 by {
    }
}

/// Entries of a day-keyed map, in ascending day order.
pub struct DayMap<V> {
    entries: Vec<(i32, V)>,
}

impl<V: View + WellFormed> View for DayMap<V> {
    type V = Map<i32, V::V>;

    open spec fn view(&self) -> Map<i32, V::V> {
        pairs_to_map(self.pairs())
    }
}

impl<V: View + WellFormed> WellFormed for DayMap<V> {
    open spec fn well_formed(&self) -> bool {
        self.wf()
    }
}

impl<V: View + WellFormed> DayMap<V> {
    /// The entries, key and value each taken by its view, in key order.
    pub closed spec fn pairs(&self) -> Seq<(i32, V::V)> {
        self.entries@.map_values(|e: (i32, V)| (e.0, e.1@))
    }

    /// The entries are in strictly ascending key order and every value
    /// keeps its own invariant.
    pub closed spec fn wf(&self) -> bool {
        &&& days_sorted(self.pairs())
        &&& forall|i: int| 0 <= i < self.entries@.len() ==> (#[trigger] self.entries@[i]).1.well_formed()
    }

    pub proof fn lemma_wf(&self)
        requires
            self.wf(),
        ensures
            days_sorted(self.pairs()),
            distinct_keys(self.pairs()),
            self@.dom().finite(),
            self@.dom().len() == self.pairs().len(),
            forall|i: int| 0 <= i < self.pairs().len() ==> #[trigger] self@.contains_key(self.pairs()[i].0)
                && self@[self.pairs()[i].0] == self.pairs()[i].1,
    {
        lemma_days_distinct(self.pairs());
        lemma_dom_len(self.pairs());
        assert forall|i: int| 0 <= i < self.pairs().len() implies #[trigger] self@.contains_key(self.pairs()[i].0)
            && self@[self.pairs()[i].0] == self.pairs()[i].1 by {
            lemma_lookup(self.pairs(), i);
        }
    }

    /// An empty map.
    pub fn new() -> (m: Self)
        ensures
            m.wf(),
            m.pairs().len() == 0,
            m@ == Map::<i32, V::V>::empty(),
    {
        let m = DayMap { entries: Vec::new() };
        assert(m.pairs() =~= Seq::empty());
        assert(m@ =~= Map::empty());
        m
    }

    /// The number of entries.
    pub fn len(&self) -> (n: usize)
        ensures
            n == self.pairs().len(),
    {
        self.entries.len()
    }

    /// The key of the `i`-th entry in key order.
    pub fn key_at(&self, i: usize) -> (k: i32)
        requires
            i < self.pairs().len(),
        ensures
            k == self.pairs()[i as int].0,
    {
        self.entries[i].0
    }

    /// The value of the `i`-th entry in key order.
    pub fn value_at(&self, i: usize) -> (v: &V)
        requires
            i < self.pairs().len(),
            self.wf(),
        ensures
            v@ == self.pairs()[i as int].1,
            v.well_formed(),
    {
        &self.entries[i].1
    }

    /// Finds `key`: its index when present, else the index at which it
    /// would be inserted to keep the order.
    fn locate(&self, key: i32) -> (r: (bool, usize))
        requires
            self.wf(),
        ensures
            r.1 <= self.pairs().len(),
            r.0 ==> r.1 < self.pairs().len() && self.pairs()[r.1 as int].0 == key,
            !r.0 ==> (forall|j: int| 0 <= j < r.1 ==> #[trigger] self.pairs()[j].0 < key),
            !r.0 ==> (forall|j: int| r.1 <= j < self.pairs().len() ==> key < #[trigger] self.pairs()[j].0),
    {
        let n = self.entries.len();
        let mut i: usize = 0;
        while i < n
            invariant
                self.wf(),
                n == self.pairs().len(),
                i <= n,
                forall|j: int| 0 <= j < i ==> #[trigger] self.pairs()[j].0 < key,
            decreases n - i,
        {
            let k = self.entries[i].0;
            assert(k == self.pairs()[i as int].0);
            if k == key {
                return (true, i);
            }
            if key < k {
                return (false, i);
            }
            i = i + 1;
        }
        (false, n)
    }

    /// The value stored under `key`, if any.
    pub fn get(&self, key: i32) -> (r: Option<&V>)
        requires
            self.wf(),
        ensures
            match r {
                Some(v) => self@.contains_key(key) && v@ == self@[key] && v.well_formed(),
                None => !self@.contains_key(key),
            },
    {
        let (found, i) = self.locate(key);
        proof {
            lemma_days_distinct(self.pairs());
        }
        if found {
            proof {
                lemma_lookup(self.pairs(), i as int);
            }
            Some(&self.entries[i].1)
        } else {
            proof {
                assert forall|j: int| 0 <= j < self.pairs().len() implies #[trigger] self.pairs()[j].0 != key by {
                }
                lemma_absent(self.pairs(), key);
            }
            None
        }
    }

    /// Removes the entry for `key` and hands its value back, if there was one.
    pub fn take(&mut self, key: i32) -> (r: Option<V>)
        requires
            old(self).wf(),
        ensures
            final(self).wf(),
            final(self)@ == old(self)@.remove(key),
            match r {
                Some(v) => old(self)@.contains_key(key) && v@ == old(self)@[key] && v.well_formed(),
                None => !old(self)@.contains_key(key),
            },
    {
        let (found, i) = self.locate(key);
        let ghost ps = self.pairs();
        proof {
            lemma_days_distinct(ps);
        }
        if found {
            let (_name, v) = self.entries.remove(i);
            proof {
                lemma_lookup(ps, i as int);
                lemma_remove(ps, i as int);
                assert(self.pairs() =~= ps.remove(i as int));
                assert forall|a: int, b: int| 0 <= a < b < self.pairs().len() implies #[trigger] self.pairs()[a].0 < #[trigger] self.pairs()[b].0 by {
                    let a2 = if a < i { a } else { a + 1 };
                    let b2 = if b < i { b } else { b + 1 };
                    assert(self.pairs()[a] == ps[a2]);
                    assert(self.pairs()[b] == ps[b2]);
                }
            }
            Some(v)
        } else {
            proof {
                assert forall|j: int| 0 <= j < ps.len() implies #[trigger] ps[j].0 != key by {
                }
                lemma_absent(ps, key);
                assert(old(self)@.remove(key) =~= old(self)@);
            }
            None
        }
    }

    /// Stores `v` under `key`, replacing any earlier value.
    pub fn insert(&mut self, key: i32, v: V)
        requires
            old(self).wf(),
            v.well_formed(),
        ensures
            final(self).wf(),
            final(self)@ == old(self)@.insert(key, v@),
    {
        let (found, i) = self.locate(key);
        let ghost ps = self.pairs();
        let ghost kv = key;
        let ghost vv = v@;
        proof {
            lemma_days_distinct(ps);
        }
        if found {
            self.entries.set(i, (key, v));
            proof {
                lemma_update(ps, i as int, vv);
                assert(self.pairs() =~= ps.update(i as int, (ps[i as int].0, vv)));
                assert forall|a: int, b: int| 0 <= a < b < self.pairs().len() implies #[trigger] self.pairs()[a].0 < #[trigger] self.pairs()[b].0 by {
                    assert(self.pairs()[a].0 == ps[a].0);
                    assert(self.pairs()[b].0 == ps[b].0);
                }
            }
        } else {
            self.entries.insert(i, (key, v));
            proof {
                assert forall|j: int| 0 <= j < ps.len() implies #[trigger] ps[j].0 != kv by {
                }
                lemma_insert_new(ps, i as int, kv, vv);
                assert(self.pairs() =~= ps.insert(i as int, (kv, vv)));
                assert forall|a: int, b: int| 0 <= a < b < self.pairs().len() implies #[trigger] self.pairs()[a].0 < #[trigger] self.pairs()[b].0 by {
                    if a < i && b < i {
                        assert(self.pairs()[a] == ps[a]);
                        assert(self.pairs()[b] == ps[b]);
                    } else if a < i && b == i {
                        assert(self.pairs()[a] == ps[a]);
                    } else if a < i {
                        assert(self.pairs()[a] == ps[a]);
                        assert(self.pairs()[b] == ps[b - 1]);
                    } else if a == i {
                        assert(self.pairs()[b] == ps[b - 1]);
                    } else {
                        assert(self.pairs()[a] == ps[a - 1]);
                        assert(self.pairs()[b] == ps[b - 1]);
                    }
                }
            }
        }
    }
}

} // verus!
