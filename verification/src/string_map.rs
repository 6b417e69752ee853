//! An insertion-ordered string-to-string map with last-write-wins
//! semantics.  It carries both the request headers and the resource map:
//! its view is a `Map` over character sequences, and its entry order is
//! exposed so the response builder can render headers deterministically.

use vstd::prelude::*;

verus! {

/// The map described by an entry sequence, later entries winning.
pub open spec fn map_of_entries(es: Seq<(Seq<char>, Seq<char>)>) -> Map<Seq<char>, Seq<char>>
    decreases es.len(),
{
    if es.len() == 0 {
        Map::empty()
    } else {
        map_of_entries(es.drop_last()).insert(es.last().0, es.last().1)
    }
}

/// The keys of an entry sequence are pairwise distinct.
pub open spec fn distinct_keys(es: Seq<(Seq<char>, Seq<char>)>) -> bool {
    forall|i: int, j: int| 0 <= i < j < es.len() ==> (#[trigger] es[i]).0 != (#[trigger] es[j]).0
}

/// An entry of a sequence with distinct keys is in its map, with its value.
pub proof fn lemma_entry_in_map(es: Seq<(Seq<char>, Seq<char>)>, i: int)
    requires
        distinct_keys(es),
        0 <= i < es.len(),
    ensures
        map_of_entries(es).dom().contains(es[i].0),
        map_of_entries(es)[es[i].0] == es[i].1,
    decreases es.len(),
{
    if i < es.len() - 1 {
        assert(es.drop_last()[i] == es[i]);
        assert(es[i].0 != es.last().0);
        lemma_entry_in_map(es.drop_last(), i);
    }
}

/// A key under none of the entries is not in the map.
pub proof fn lemma_absent_key(es: Seq<(Seq<char>, Seq<char>)>, k: Seq<char>)
    requires
        forall|i: int| 0 <= i < es.len() ==> (#[trigger] es[i]).0 != k,
    ensures
        !map_of_entries(es).dom().contains(k),
    decreases es.len(),
{
    if es.len() > 0 {
        assert(es[es.len() - 1].0 != k);
        assert(forall|i: int|
            0 <= i < es.drop_last().len() ==> (#[trigger] es.drop_last()[i]) == es[i]);
        lemma_absent_key(es.drop_last(), k);
    }
}

/// Replacing the value at an existing key updates the map at that key.
proof fn lemma_map_of_entries_update(es: Seq<(Seq<char>, Seq<char>)>, i: int, v: Seq<char>)
    requires
        distinct_keys(es),
        0 <= i < es.len(),
    ensures
        map_of_entries(es.update(i, (es[i].0, v))) == map_of_entries(es).insert(es[i].0, v),
    decreases es.len(),
{
    let k = es[i].0;
    let eu = es.update(i, (k, v));
    if i == es.len() - 1 {
        assert(eu.drop_last() =~= es.drop_last());
        assert(eu.last() == (k, v));
        assert(map_of_entries(es.drop_last()).insert(k, es.last().1).insert(k, v)
            =~= map_of_entries(es.drop_last()).insert(k, v));
    } else {
        assert(eu.drop_last() =~= es.drop_last().update(i, (k, v)));
        assert(es.drop_last()[i] == es[i]);
        assert(forall|a: int, b: int|
            0 <= a < b < es.drop_last().len() ==> (#[trigger] es.drop_last()[a]).0 != (
            #[trigger] es.drop_last()[b]).0);
        lemma_map_of_entries_update(es.drop_last(), i, v);
        assert(eu.last() == es.last());
        assert(k != es.last().0);
        assert(map_of_entries(es.drop_last()).insert(k, v).insert(es.last().0, es.last().1)
            =~= map_of_entries(es.drop_last()).insert(es.last().0, es.last().1).insert(k, v));
    }
}

/// A string-keyed map that keeps its entries in insertion order and lets a
/// later insert of a key overwrite the earlier value.
pub struct StringMap {
    items: Vec<(String, String)>,
}

impl View for StringMap {
    type V = Map<Seq<char>, Seq<char>>;

    closed spec fn view(&self) -> Map<Seq<char>, Seq<char>> {
        map_of_entries(self.entries())
    }
}

impl StringMap {
    /// The key/value pairs in the order they are held.
    pub closed spec fn entries(&self) -> Seq<(Seq<char>, Seq<char>)> {
        Seq::new(self.items@.len(), |i: int| (self.items@[i].0@, self.items@[i].1@))
    }

    /// Well-formedness: no two entries share a key.  `new` establishes
    /// it and `insert` preserves it.
    pub closed spec fn wf(&self) -> bool {
        distinct_keys(self.entries())
    }

    /// An empty map.
    pub fn new() -> (r: StringMap)
        ensures
            r@ == Map::<Seq<char>, Seq<char>>::empty(),
            r.entries() == Seq::<(Seq<char>, Seq<char>)>::empty(),
            r.wf(),
    {
        let r = StringMap { items: Vec::new() };
        proof {
            assert(r.entries() =~= Seq::<(Seq<char>, Seq<char>)>::empty());
        }
        r
    }

    /// How many entries the map holds.
    pub fn entry_count(&self) -> (n: usize)
        ensures
            n == self.entries().len(),
    {
        self.items.len()
    }

    /// The key of the entry at position `i`.
    pub fn key_at(&self, i: usize) -> (k: &String)
        requires
            i < self.entries().len(),
        ensures
            k@ == self.entries()[i as int].0,
    {
        &self.items[i].0
    }

    /// The value of the entry at position `i`.
    pub fn value_at(&self, i: usize) -> (v: &String)
        requires
            i < self.entries().len(),
        ensures
            v@ == self.entries()[i as int].1,
    {
        &self.items[i].1
    }

    /// Whether `k` is a key of the map.
    pub fn contains_key(&self, k: &String) -> (r: bool)
        requires
            self.wf(),
        ensures
            r == self@.dom().contains(k@),
    {
        let n = self.items.len();
        let mut i: usize = 0;
        while i < n
            invariant
                0 <= i <= n,
                n == self.entries().len(),
                distinct_keys(self.entries()),
                self@ == map_of_entries(self.entries()),
                forall|j: int| 0 <= j < i ==> (#[trigger] self.entries()[j]).0 != k@,
            decreases n - i,
        {
            if self.items[i].0 == *k {
                proof {
                    lemma_entry_in_map(self.entries(), i as int);
                }
                return true;
            }
            i = i + 1;
        }
        proof {
            lemma_absent_key(self.entries(), k@);
        }
        false
    }

    /// The value under `k`, if `k` is a key of the map.
    pub fn get(&self, k: &String) -> (r: Option<&String>)
        requires
            self.wf(),
        ensures
            match r {
                Some(v) => self@.dom().contains(k@) && v@ == self@[k@],
                None => !self@.dom().contains(k@),
            },
    {
        let n = self.items.len();
        let mut i: usize = 0;
        while i < n
            invariant
                0 <= i <= n,
                n == self.entries().len(),
                distinct_keys(self.entries()),
                self@ == map_of_entries(self.entries()),
                forall|j: int| 0 <= j < i ==> (#[trigger] self.entries()[j]).0 != k@,
            decreases n - i,
        {
            if self.items[i].0 == *k {
                proof {
                    lemma_entry_in_map(self.entries(), i as int);
                }
                return Some(&self.items[i].1);
            }
            i = i + 1;
        }
        proof {
            lemma_absent_key(self.entries(), k@);
        }
        None
    }

    /// Puts `v` under `k`.  A fresh key goes to the end of the entry
    /// order; an existing key keeps its place and takes the new value.
    pub fn insert(&mut self, k: String, v: String)
        requires
            old(self).wf(),
        ensures
            final(self).wf(),
            final(self)@ == old(self)@.insert(k@, v@),
            !old(self)@.dom().contains(k@) ==> final(self).entries() == old(self).entries().push(
                (k@, v@),
            ),
            old(self)@.dom().contains(k@) ==> final(self).entries().len() == old(
                self,
            ).entries().len(),
    {
        let ghost es = self.entries();
        let n = self.items.len();
        let mut i: usize = 0;
        while i < n
            invariant
                0 <= i <= n,
                n == es.len(),
                es == self.entries(),
                es == old(self).entries(),
                self == old(self),
                distinct_keys(es),
                self@ == map_of_entries(es),
                forall|j: int| 0 <= j < i ==> (#[trigger] es[j]).0 != k@,
            decreases n - i,
        {
            if self.items[i].0 == *&k {
                proof {
                    lemma_entry_in_map(es, i as int);
                    lemma_map_of_entries_update(es, i as int, v@);
                }
                self.items[i] = (k, v);
                proof {
                    assert(self.entries() =~= es.update(i as int, (es[i as int].0, v@)));
                    assert(distinct_keys(self.entries()));
                }
                return ;
            }
            i = i + 1;
        }
        proof {
            lemma_absent_key(es, k@);
        }
        self.items.push((k, v));
        proof {
            assert(self.entries() =~= es.push((k@, v@)));
            assert(self.entries().drop_last() =~= es);
            assert(distinct_keys(self.entries()));
        }
    }
}

} // verus!
