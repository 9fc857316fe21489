//! An ordered map keyed by [`Id`].
//!
//! The entries are kept in one vector in strictly ascending key order, so a
//! lookup is a binary search and a walk visits the keys in order.

use vstd::prelude::*;

use crate::ids::{id_before, lemma_rank_injective, rank, same_id, Id};

verus! {

/// A map from [`Id`] to `V`, walked in ascending key order.
#[derive(Debug)]
pub struct IdMap<V> {
    entries: Vec<(Id, V)>,
}

/// Strictly ascending key order.
pub open spec fn keys_ascend<V>(s: Seq<(Id, V)>) -> bool {
    forall|i: int, j: int| 0 <= i < j < s.len() ==> rank(#[trigger] s[i].0@) < rank(#[trigger] s[j].0@)
}

/// Whether the entry at `i` has key `k`.
pub open spec fn key_at<V>(s: Seq<(Id, V)>, i: int, k: Seq<u8>) -> bool {
    0 <= i < s.len() && s[i].0@ == k
}

/// The map that a sequence of entries with distinct keys stands for.
pub open spec fn map_of<V>(s: Seq<(Id, V)>) -> Map<Seq<u8>, V> {
    Map::new(
        |k: Seq<u8>| exists|i: int| key_at(s, i, k),
        |k: Seq<u8>| s[choose|i: int| key_at(s, i, k)].1,
    )
}

/// Looking up the key of the entry at `i` gives the value of that entry.
pub proof fn lemma_map_of_at<V>(s: Seq<(Id, V)>, i: int)
    requires
        keys_ascend(s),
        0 <= i < s.len(),
    ensures
        map_of(s).contains_key(s[i].0@),
        map_of(s)[s[i].0@] == s[i].1,
{
    let k = s[i].0@;
    assert(key_at(s, i, k));
    let c = choose|c: int| key_at(s, c, k);
    assert(key_at(s, c, k));
    if c < i {
        assert(rank(s[c].0@) < rank(s[i].0@));
    } else if i < c {
        assert(rank(s[i].0@) < rank(s[c].0@));
    }
}

/// Two maps of entries agree when each entry of one side is found in the other
/// and no key is left over.
proof fn lemma_map_of_eq<V>(s: Seq<(Id, V)>, m: Map<Seq<u8>, V>)
    requires
        keys_ascend(s),
        forall|i: int| 0 <= i < s.len() ==> m.contains_key(#[trigger] s[i].0@) && m[s[i].0@] == s[i].1,
        forall|k: Seq<u8>| #[trigger] m.contains_key(k) ==> exists|i: int| key_at(s, i, k),
    ensures
        map_of(s) == m,
{
    assert forall|k: Seq<u8>| map_of(s).contains_key(k) implies m.contains_key(k) && map_of(s)[k] == m[k] by {
        let i = choose|i: int| key_at(s, i, k);
        lemma_map_of_at(s, i);
    }
    assert(map_of(s) =~= m);
}

/// The number of keys is the number of entries.
pub proof fn lemma_map_of_len<V>(s: Seq<(Id, V)>)
    requires
        keys_ascend(s),
    ensures
        map_of(s).dom().finite(),
        map_of(s).len() == s.len(),
{
    let keys = Seq::new(s.len(), |i: int| s[i].0@);
    assert forall|i: int, j: int| 0 <= i < keys.len() && 0 <= j < keys.len() && i != j implies keys[i]
        != keys[j] by {
        if i < j {
            assert(rank(s[i].0@) < rank(s[j].0@));
        } else {
            assert(rank(s[j].0@) < rank(s[i].0@));
        }
    }
    assert(keys.no_duplicates());
    keys.unique_seq_to_set();
    assert forall|k: Seq<u8>| keys.to_set().contains(k) == map_of(s).dom().contains(k) by {
        if keys.to_set().contains(k) {
            let i = choose|i: int| 0 <= i < keys.len() && keys[i] == k;
            assert(key_at(s, i, k));
        }
        if map_of(s).dom().contains(k) {
            let i = choose|i: int| key_at(s, i, k);
            assert(keys[i] == k);
        }
    }
    assert(keys.to_set() =~= map_of(s).dom());
}

impl<V> View for IdMap<V> {
    type V = Map<Seq<u8>, V>;

    closed spec fn view(&self) -> Map<Seq<u8>, V> {
        map_of(self.entries@)
    }
}

impl<V> IdMap<V> {
    /// The entries in walking order.
    pub closed spec fn items(&self) -> Seq<(Id, V)> {
        self.entries@
    }

    /// Keys are distinct and in ascending order.
    pub closed spec fn wf(&self) -> bool {
        keys_ascend(self.entries@)
    }

    /// The walking order lists each key of the map once, in ascending order.
    pub proof fn lemma_items(&self)
        requires
            self.wf(),
        ensures
            keys_ascend(self.items()),
            self@ == map_of(self.items()),
    {
    }

    /// An empty map.
    pub fn new() -> (r: Self)
        ensures
            r.wf(),
            r@ == Map::<Seq<u8>, V>::empty(),
            r.items() == Seq::<(Id, V)>::empty(),
    {
        let r = IdMap { entries: Vec::new() };
        proof {
            lemma_map_of_eq(r.entries@, Map::<Seq<u8>, V>::empty());
        }
        r
    }

    /// The position of `id` and whether it is there; where it is not, the
    /// position at which it would stand.
    fn find(&self, id: &Id) -> (r: (bool, usize))
        requires
            self.wf(),
        ensures
            r.1 <= self.entries@.len(),
            forall|j: int| 0 <= j < r.1 ==> rank(#[trigger] self.entries@[j].0@) < rank(id@),
            forall|j: int| r.1 <= j < self.entries@.len() ==> rank(id@) <= rank(
                #[trigger] self.entries@[j].0@,
            ),
            r.0 ==> key_at(self.entries@, r.1 as int, id@),
            !r.0 ==> forall|j: int| !key_at(self.entries@, j, id@),
            r.0 == self@.contains_key(id@),
    {
        let mut lo: usize = 0;
        let mut hi: usize = self.entries.len();
        while lo < hi
            invariant
                self.wf(),
                lo <= hi <= self.entries@.len(),
                forall|j: int| 0 <= j < lo ==> rank(#[trigger] self.entries@[j].0@) < rank(id@),
                forall|j: int| hi <= j < self.entries@.len() ==> rank(id@) <= rank(
                    #[trigger] self.entries@[j].0@,
                ),
            decreases hi - lo,
        {
            let mid: usize = lo + (hi - lo) / 2;
            if id_before(&self.entries[mid].0, id) {
                lo = mid + 1;
            } else {
                hi = mid;
            }
        }
        let found = lo < self.entries.len() && same_id(&self.entries[lo].0, id);
        proof {
            if found {
                assert(key_at(self.entries@, lo as int, id@));
            } else {
                assert forall|j: int| !key_at(self.entries@, j, id@) by {
                    if key_at(self.entries@, j, id@) {
                        if lo < j {
                            assert(rank(self.entries@[lo as int].0@) < rank(self.entries@[j].0@));
                        }
                    }
                }
            }
        }
        (found, lo)
    }

    /// The value at `id`.
    pub fn get(&self, id: &Id) -> (r: Option<&V>)
        requires
            self.wf(),
        ensures
            match r {
                Some(v) => self@.contains_key(id@) && *v == self@[id@],
                None => !self@.contains_key(id@),
            },
    {
        let (found, at) = self.find(id);
        if found {
            proof {
                lemma_map_of_at(self.entries@, at as int);
            }
            Some(&self.entries[at].1)
        } else {
            None
        }
    }

    /// Whether `id` has a value.
    pub fn contains_key(&self, id: &Id) -> (r: bool)
        requires
            self.wf(),
        ensures
            r == self@.contains_key(id@),
    {
        self.find(id).0
    }

    /// Set the value at `id`.
    pub fn insert(&mut self, id: Id, value: V)
        requires
            old(self).wf(),
        ensures
            final(self).wf(),
            final(self)@ == old(self)@.insert(id@, value),
    {
        let ghost before = self.entries@;
        let (found, at) = self.find(&id);
        if found {
            self.entries[at] = (id, value);
        } else {
            self.entries.insert(at, (id, value));
        }
        proof {
            let after = self.entries@;
            let m = map_of(before).insert(id@, value);
            if found {
                assert(after == before.update(at as int, (id, value)));
                assert forall|k: Seq<u8>| #[trigger] m.contains_key(k) implies exists|i: int|
                    key_at(after, i, k) by {
                    if k == id@ {
                        assert(key_at(after, at as int, k));
                    } else {
                        let i = choose|i: int| key_at(before, i, k);
                        assert(key_at(after, i, k));
                    }
                }
                assert forall|i: int| 0 <= i < after.len() implies m.contains_key(#[trigger] after[i].0@)
                    && m[after[i].0@] == after[i].1 by {
                    lemma_map_of_at(before, i);
                    if i != at {
                        if i < at {
                            assert(rank(before[i].0@) < rank(before[at as int].0@));
                        } else {
                            assert(rank(before[at as int].0@) < rank(before[i].0@));
                        }
                    }
                }
            } else {
                assert(after == before.insert(at as int, (id, value)));
                assert forall|i: int, j: int| 0 <= i < j < after.len() implies rank(#[trigger] after[i].0@)
                    < rank(#[trigger] after[j].0@) by {
                    let bi = if i < at { i } else { i - 1 };
                    let bj = if j < at { j } else { j - 1 };
                    if i == at {
                        assert(rank(id@) <= rank(before[bj].0@));
                        if rank(id@) == rank(before[bj].0@) {
                            lemma_rank_injective(id@, before[bj].0@);
                            assert(key_at(before, bj, id@));
                        }
                    } else if j == at {
                        assert(rank(before[bi].0@) < rank(id@));
                    } else {
                        assert(rank(before[bi].0@) < rank(before[bj].0@));
                    }
                }
                assert forall|k: Seq<u8>| #[trigger] m.contains_key(k) implies exists|i: int|
                    key_at(after, i, k) by {
                    if k == id@ {
                        assert(key_at(after, at as int, k));
                    } else {
                        let i = choose|i: int| key_at(before, i, k);
                        assert(key_at(after, if i < at { i } else { i + 1 }, k));
                    }
                }
                assert forall|i: int| 0 <= i < after.len() implies m.contains_key(#[trigger] after[i].0@)
                    && m[after[i].0@] == after[i].1 by {
                    if i != at {
                        let b = if i < at { i } else { i - 1 };
                        lemma_map_of_at(before, b);
                        assert(!key_at(before, b, id@));
                    }
                }
            }
            lemma_map_of_eq(after, m);
        }
    }

    /// Drop the value at `id`, if there is one.
    pub fn remove(&mut self, id: &Id)
        requires
            old(self).wf(),
        ensures
            final(self).wf(),
            final(self)@ == old(self)@.remove(id@),
    {
        let ghost before = self.entries@;
        let (found, at) = self.find(id);
        if found {
            self.entries.remove(at);
            proof {
                let after = self.entries@;
                let m = map_of(before).remove(id@);
                assert(after == before.remove(at as int));
                assert forall|i: int, j: int| 0 <= i < j < after.len() implies rank(#[trigger] after[i].0@)
                    < rank(#[trigger] after[j].0@) by {
                    let bi = if i < at { i } else { i + 1 };
                    let bj = if j < at { j } else { j + 1 };
                    assert(rank(before[bi].0@) < rank(before[bj].0@));
                }
                assert forall|k: Seq<u8>| #[trigger] m.contains_key(k) implies exists|i: int|
                    key_at(after, i, k) by {
                    let i = choose|i: int| key_at(before, i, k);
                    assert(key_at(after, if i < at { i } else { i - 1 }, k));
                }
                assert forall|i: int| 0 <= i < after.len() implies m.contains_key(#[trigger] after[i].0@)
                    && m[after[i].0@] == after[i].1 by {
                    let b = if i < at { i } else { i + 1 };
                    lemma_map_of_at(before, b);
                    if b < at {
                        assert(rank(before[b].0@) < rank(before[at as int].0@));
                    } else {
                        assert(rank(before[at as int].0@) < rank(before[b].0@));
                    }
                }
                lemma_map_of_eq(after, m);
            }
        } else {
            assert(self@ =~= old(self)@.remove(id@));
        }
    }

    /// How many keys there are.
    pub fn len(&self) -> (r: usize)
        requires
            self.wf(),
        ensures
            self@.dom().finite(),
            r == self@.len(),
            r == self.items().len(),
    {
        proof {
            lemma_map_of_len(self.entries@);
        }
        self.entries.len()
    }

    /// The entries, in ascending key order.
    pub fn as_slice(&self) -> (r: &[(Id, V)])
        ensures
            r@ == self.items(),
    {
        self.entries.as_slice()
    }
}

} // verus!
