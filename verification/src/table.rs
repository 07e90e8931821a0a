//! A table from ids to values that keeps its ids in ascending order.

use vstd::prelude::*;
use crate::text::{lemma_text_lt_total, lemma_text_lt_transitive, text_lt, text_order, TextOrder};

verus! {

/// Whether every text in the sequence comes before all that follow it.
pub open spec fn ascending(ids: Seq<Seq<char>>) -> bool {
    forall|i: int, j: int| 0 <= i < j < ids.len() ==> text_lt(#[trigger] ids[i], #[trigger] ids[j])
}

/// An ascending sequence holds no text twice.
pub proof fn lemma_ascending_distinct(ids: Seq<Seq<char>>)
    requires
        ascending(ids),
    ensures
        ids.no_duplicates(),
{
    assert forall|i: int, j: int| 0 <= i < ids.len() && 0 <= j < ids.len() && i != j implies ids[i]
        != ids[j] by {
        lemma_text_lt_total(ids[i], ids[j]);
    }
}

/// Two ascending sequences that hold the same texts are the same
/// sequence: an ascending listing of a set of ids is determined by the set.
pub proof fn lemma_ascending_unique(a: Seq<Seq<char>>, b: Seq<Seq<char>>)
    requires
        ascending(a),
        ascending(b),
        forall|x: Seq<char>| a.contains(x) <==> b.contains(x),
    ensures
        a == b,
    decreases a.len(),
{
    if a.len() == 0 {
        if b.len() > 0 {
            assert(b.contains(b[0]));
        }
        assert(a =~= b);
    } else {
        assert(a.contains(a[0]));
        let j = choose|j: int| 0 <= j < b.len() && b[j] == a[0];
        assert(b.contains(b[0]));
        let i = choose|i: int| 0 <= i < a.len() && a[i] == b[0];
        if j > 0 {
            assert(text_lt(b[0], b[j]));
            if i > 0 {
                assert(text_lt(a[0], a[i]));
                lemma_text_lt_transitive(a[0], b[0], a[0]);
            }
            lemma_text_lt_total(a[0], a[0]);
        }
        assert(a[0] == b[0]);
        let ra = a.drop_first();
        let rb = b.drop_first();
        lemma_ascending_distinct(a);
        lemma_ascending_distinct(b);
        assert forall|x: Seq<char>| ra.contains(x) <==> rb.contains(x) by {
            if ra.contains(x) {
                let k = choose|k: int| 0 <= k < ra.len() && ra[k] == x;
                assert(a[k + 1] == x);
                assert(a.contains(x));
                let m = choose|m: int| 0 <= m < b.len() && b[m] == x;
                assert(m > 0);
                assert(rb[m - 1] == x);
            }
            if rb.contains(x) {
                let k = choose|k: int| 0 <= k < rb.len() && rb[k] == x;
                assert(b[k + 1] == x);
                assert(b.contains(x));
                let m = choose|m: int| 0 <= m < a.len() && a[m] == x;
                assert(m > 0);
                assert(ra[m - 1] == x);
            }
        }
        assert forall|p: int, q: int| 0 <= p < q < ra.len() implies text_lt(
            #[trigger] ra[p],
            #[trigger] ra[q],
        ) by {
            assert(ra[p] == a[p + 1] && ra[q] == a[q + 1]);
        }
        assert forall|p: int, q: int| 0 <= p < q < rb.len() implies text_lt(
            #[trigger] rb[p],
            #[trigger] rb[q],
        ) by {
            assert(rb[p] == b[p + 1] && rb[q] == b[q + 1]);
        }
        lemma_ascending_unique(ra, rb);
        assert(a =~= seq![a[0]] + ra);
        assert(b =~= seq![b[0]] + rb);
    }
}

/// An id-keyed table. Ids are unique and are held in ascending order, so a
/// listing of the table is always sorted.
#[derive(Debug)]
pub struct IdTable<V> {
    entries: Vec<(String, V)>,
}

impl<V> IdTable<V> {
    /// The ids of the table, in the order in which it lists them.
    pub closed spec fn ids(&self) -> Seq<Seq<char>> {
        Seq::new(self.entries@.len(), |i: int| self.entries@[i].0@)
    }

    /// The values of the table, each at the position of its id in `ids`.
    pub closed spec fn values(&self) -> Seq<V> {
        Seq::new(self.entries@.len(), |i: int| self.entries@[i].1)
    }

    /// The table's validity: its ids ascend, and each has one value.
    pub open spec fn wf(&self) -> bool {
        &&& ascending(self.ids())
        &&& self.values().len() == self.ids().len()
    }

    /// The table as a map from id to value.
    pub open spec fn view(&self) -> Map<Seq<char>, V> {
        Map::new(
            |k: Seq<char>| self.ids().contains(k),
            |k: Seq<char>| self.values()[self.ids().index_of(k)],
        )
    }

    /// In a valid table the `i`-th id maps to the `i`-th value.
    pub proof fn lemma_entry(&self, i: int)
        requires
            self.wf(),
            0 <= i < self.ids().len(),
        ensures
            self@.contains_key(self.ids()[i]),
            self@[self.ids()[i]] == self.values()[i],
    {
        lemma_ascending_distinct(self.ids());
        let k = self.ids()[i];
        assert(self.ids().contains(k));
        let j = self.ids().index_of(k);
        assert(0 <= j < self.ids().len() && self.ids()[j] == k);
    }

    /// A table with no entries.
    pub fn new() -> (t: Self)
        ensures
            t.wf(),
            t@ == Map::<Seq<char>, V>::empty(),
            t.ids() == Seq::<Seq<char>>::empty(),
    {
        let t = IdTable { entries: Vec::new() };
        assert(t.ids() =~= Seq::<Seq<char>>::empty());
        assert(t@ =~= Map::<Seq<char>, V>::empty());
        t
    }

    /// The number of entries.
    pub fn len(&self) -> (n: usize)
        ensures
            n == self.ids().len(),
    {
        self.entries.len()
    }

    /// Where `key` stands or would stand among the ids, and whether it is there.
    fn find(&self, key: &str) -> (r: (usize, bool))
        requires
            self.wf(),
        ensures
            r.0 <= self.ids().len(),
            forall|k: int| 0 <= k < r.0 ==> text_lt(#[trigger] self.ids()[k], key@),
            r.1 ==> r.0 < self.ids().len() && self.ids()[r.0 as int] == key@,
            !r.1 ==> forall|k: int| r.0 <= k < self.ids().len() ==> text_lt(key@, #[trigger] self.ids()[k]),
            r.1 == self.ids().contains(key@),
    {
        let mut i: usize = 0;
        let mut found = false;
        while i < self.entries.len()
            invariant_except_break
                !found,
            invariant
                0 <= i <= self.entries@.len(),
                self.wf(),
                forall|k: int| 0 <= k < i ==> text_lt(#[trigger] self.ids()[k], key@),
            ensures
                found ==> i < self.ids().len() && self.ids()[i as int] == key@,
                !found ==> forall|k: int| i <= k < self.ids().len() ==> text_lt(key@, #[trigger] self.ids()[k]),
            decreases self.entries@.len() - i,
        {
            match text_order(self.entries[i].0.as_str(), key) {
                TextOrder::Before => {
                    i = i + 1;
                },
                TextOrder::Same => {
                    found = true;
                    break;
                },
                TextOrder::After => {
                    proof {
                        assert forall|k: int| i <= k < self.ids().len() implies text_lt(
                            key@,
                            #[trigger] self.ids()[k],
                        ) by {
                            if k > i {
                                lemma_text_lt_transitive(key@, self.ids()[i as int], self.ids()[k]);
                            }
                        }
                    }
                    break;
                },
            }
        }
        proof {
            if !found {
                assert forall|k: int| 0 <= k < self.ids().len() implies self.ids()[k] != key@ by {
                    lemma_text_lt_total(self.ids()[k], key@);
                }
            }
        }
        (i, found)
    }

    /// Whether the table holds `key`.
    pub fn contains_key(&self, key: &str) -> (r: bool)
        requires
            self.wf(),
        ensures
            r == self@.contains_key(key@),
    {
        self.find(key).1
    }

    /// The value under `key`, if the table holds it.
    pub fn get(&self, key: &str) -> (r: Option<&V>)
        requires
            self.wf(),
        ensures
            match r {
                Some(v) => self@.contains_key(key@) && *v == self@[key@],
                None => !self@.contains_key(key@),
            },
    {
        let (i, found) = self.find(key);
        if found {
            proof {
                self.lemma_entry(i as int);
            }
            Some(&self.entries[i].1)
        } else {
            None
        }
    }

    /// Changing one value in place keeps the ids and touches no other value.
    proof fn lemma_value_changed(before: Self, after: Self, i: int)
        requires
            before.wf(),
            0 <= i < before.ids().len(),
            after.entries@ == before.entries@.update(i, (before.entries@[i].0, after.entries@[i].1)),
        ensures
            after.wf(),
            after.ids() == before.ids(),
            after@ == before@.insert(before.ids()[i], after.values()[i]),
    {
        let v = after.entries@[i].1;
        assert(after.ids() =~= before.ids());
        assert(after.values() =~= before.values().update(i, v));
        assert forall|k: Seq<char>| #[trigger] after.ids().contains(k) implies after@[k]
            == before@.insert(before.ids()[i], v)[k] by {
            let j = after.ids().index_of(k);
            assert(0 <= j < after.ids().len() && after.ids()[j] == k);
            after.lemma_entry(j);
            before.lemma_entry(j);
            lemma_ascending_distinct(before.ids());
        }
        assert(after@ =~= before@.insert(before.ids()[i], v));
    }

    /// The value under `key` for changing in place, if the table holds it.
    pub fn get_mut(&mut self, key: &str) -> (r: Option<&mut V>)
        requires
            old(self).wf(),
        ensures
            final(self).wf(),
            final(self).ids() == old(self).ids(),
            match r {
                Some(v) => old(self)@.contains_key(key@) && *v == old(self)@[key@] && final(self)@
                    == old(self)@.insert(key@, *final(v)),
                None => !old(self)@.contains_key(key@) && final(self)@ == old(self)@,
            },
    {
        let (i, found) = self.find(key);
        let ghost before = *self;
        if found {
            proof {
                self.lemma_entry(i as int);
                assert forall|after: Self|
                    #[trigger] after.entries@ == before.entries@.update(
                        i as int,
                        (before.entries@[i as int].0, after.entries@[i as int].1),
                    ) implies after.wf() && after.ids() == before.ids() && after@
                    == before@.insert(key@, after.entries@[i as int].1) by {
                    Self::lemma_value_changed(before, after, i as int);
                }
            }
            let entry = &mut self.entries[i];
            Some(&mut entry.1)
        } else {
            None
        }
    }

    /// Puts `value` under `key`, at the place that keeps the ids ascending,
    /// and hands back the value that `key` had before, if any.
    pub fn insert(&mut self, key: String, value: V) -> (previous: Option<V>)
        requires
            old(self).wf(),
        ensures
            final(self).wf(),
            final(self)@ == old(self)@.insert(key@, value),
            match previous {
                Some(v) => old(self)@.contains_key(key@) && v == old(self)@[key@] && final(self).ids()
                    == old(self).ids(),
                None => !old(self)@.contains_key(key@),
            },
    {
        let (i, found) = self.find(key.as_str());
        let ghost before_ids = self.ids();
        let ghost before_values = self.values();
        let ghost before = *self;
        if found {
            proof {
                self.lemma_entry(i as int);
            }
            let old_entry = self.entries.remove(i);
            self.entries.insert(i, (key, value));
            proof {
                assert(self.ids() =~= before_ids);
                assert(self.values() =~= before_values.update(i as int, value));
                assert forall|k: Seq<char>| #[trigger] self.ids().contains(k) implies self@[k]
                    == before@.insert(key@, value)[k] by {
                    let j = self.ids().index_of(k);
                    assert(0 <= j < self.ids().len() && self.ids()[j] == k);
                    self.lemma_entry(j);
                    before.lemma_entry(j);
                    if j == i {
                    } else {
                        lemma_ascending_distinct(before_ids);
                    }
                }
                assert(self@ =~= before@.insert(key@, value));
            }
            Some(old_entry.1)
        } else {
            self.entries.insert(i, (key, value));
            proof {
                let after = self.ids();
                assert(after =~= before_ids.insert(i as int, key@));
                assert(self.values() =~= before_values.insert(i as int, value));
                assert forall|a: int, b: int| 0 <= a < b < after.len() implies text_lt(
                    #[trigger] after[a],
                    #[trigger] after[b],
                ) by {
                    if b < i {
                        assert(after[a] == before_ids[a] && after[b] == before_ids[b]);
                    } else if b == i {
                        assert(after[a] == before_ids[a]);
                    } else if a == i {
                        assert(after[b] == before_ids[b - 1]);
                    } else if a < i {
                        assert(after[a] == before_ids[a] && after[b] == before_ids[b - 1]);
                        if a == b - 1 {
                            lemma_text_lt_transitive(before_ids[a], key@, before_ids[b - 1]);
                        }
                    } else {
                        assert(after[a] == before_ids[a - 1] && after[b] == before_ids[b - 1]);
                    }
                }
                assert(after[i as int] == key@);
                assert forall|k: Seq<char>| after.contains(k) <==> (before_ids.contains(k) || k
                    == key@) by {
                    if after.contains(k) {
                        let j = after.index_of(k);
                        assert(0 <= j < after.len() && after[j] == k);
                        if j < i {
                            assert(before_ids[j] == k);
                        } else if j > i {
                            assert(before_ids[j - 1] == k);
                        }
                    }
                    if before_ids.contains(k) {
                        let j = before_ids.index_of(k);
                        assert(0 <= j < before_ids.len() && before_ids[j] == k);
                        if j < i {
                            assert(after[j] == k);
                        } else {
                            assert(after[j + 1] == k);
                        }
                    }
                }
                assert forall|k: Seq<char>| #[trigger] after.contains(k) implies self@[k]
                    == before@.insert(key@, value)[k] by {
                    let j = after.index_of(k);
                    assert(0 <= j < after.len() && after[j] == k);
                    self.lemma_entry(j);
                    if j < i {
                        before.lemma_entry(j);
                    } else if j > i {
                        before.lemma_entry(j - 1);
                    }
                }
                assert(self@ =~= before@.insert(key@, value));
            }
            None
        }
    }

    /// Takes `key` and its value out of the table, if the table holds it.
    pub fn remove(&mut self, key: &str) -> (removed: Option<V>)
        requires
            old(self).wf(),
        ensures
            final(self).wf(),
            final(self)@ == old(self)@.remove(key@),
            match removed {
                Some(v) => old(self)@.contains_key(key@) && v == old(self)@[key@],
                None => !old(self)@.contains_key(key@) && final(self).ids() == old(self).ids(),
            },
    {
        let (i, found) = self.find(key);
        let ghost before_ids = self.ids();
        let ghost before_values = self.values();
        let ghost before = *self;
        if found {
            proof {
                self.lemma_entry(i as int);
                lemma_ascending_distinct(before_ids);
            }
            let entry = self.entries.remove(i);
            proof {
                let after = self.ids();
                assert(after =~= before_ids.remove(i as int));
                assert(self.values() =~= before_values.remove(i as int));
                assert forall|a: int, b: int| 0 <= a < b < after.len() implies text_lt(
                    #[trigger] after[a],
                    #[trigger] after[b],
                ) by {
                    let a0 = if a < i { a } else { a + 1 };
                    let b0 = if b < i { b } else { b + 1 };
                    assert(after[a] == before_ids[a0] && after[b] == before_ids[b0]);
                }
                assert forall|k: Seq<char>| after.contains(k) <==> (before_ids.contains(k) && k
                    != key@) by {
                    if after.contains(k) {
                        let j = after.index_of(k);
                        assert(0 <= j < after.len() && after[j] == k);
                        let j0 = if j < i { j } else { j + 1 };
                        assert(before_ids[j0] == k);
                    }
                    if before_ids.contains(k) && k != key@ {
                        let j = before_ids.index_of(k);
                        assert(0 <= j < before_ids.len() && before_ids[j] == k);
                        if j < i {
                            assert(after[j] == k);
                        } else {
                            assert(after[j - 1] == k);
                        }
                    }
                }
                assert forall|k: Seq<char>| #[trigger] after.contains(k) implies self@[k]
                    == before@[k] by {
                    let j = after.index_of(k);
                    assert(0 <= j < after.len() && after[j] == k);
                    self.lemma_entry(j);
                    let j0 = if j < i { j } else { j + 1 };
                    before.lemma_entry(j0);
                }
                assert(self@ =~= before@.remove(key@));
            }
            Some(entry.1)
        } else {
            proof {
                assert(self@ =~= before@.remove(key@));
            }
            None
        }
    }

    /// The `i`-th id and its value, counting in ascending order of id.
    pub fn entry_at(&self, i: usize) -> (r: Option<(&String, &V)>)
        requires
            self.wf(),
        ensures
            match r {
                Some((id, v)) => i < self.ids().len() && id@ == self.ids()[i as int] && *v
                    == self.values()[i as int] && self@.contains_key(id@) && self@[id@] == *v,
                None => i >= self.ids().len(),
            },
    {
        if i < self.entries.len() {
            proof {
                self.lemma_entry(i as int);
            }
            Some((&self.entries[i].0, &self.entries[i].1))
        } else {
            None
        }
    }

    /// The ids of the table in ascending order.
    pub fn keys(&self) -> (ids: Vec<String>)
        requires
            self.wf(),
        ensures
            ids.deep_view() == self.ids(),
    {
        let mut ids: Vec<String> = Vec::new();
        let mut i: usize = 0;
        while i < self.entries.len()
            invariant
                0 <= i <= self.entries@.len(),
                ids@.len() == i,
                forall|k: int| 0 <= k < i ==> #[trigger] ids@[k]@ == self.ids()[k],
            decreases self.entries@.len() - i,
        {
            ids.push(self.entries[i].0.clone());
            i = i + 1;
        }
        assert(ids.deep_view() =~= self.ids());
        ids
    }
}

} // verus!
