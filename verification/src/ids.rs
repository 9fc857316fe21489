//! Device and network identifiers.
//!
//! An [`Id`] is 32 raw bytes: an ed25519 public key or a content hash. Ids are
//! ordered byte by byte from the left, which is the order of the big-endian
//! numbers that they spell; [`rank`] is that number.

use vstd::prelude::*;

verus! {

/// An ed25519 public key: a device's node id, or the originator master key.
pub type Id = [u8; 32];

/// The big-endian number that a byte string spells.
pub open spec fn rank(s: Seq<u8>) -> nat
    decreases s.len(),
{
    if s.len() == 0 {
        0
    } else {
        rank(s.drop_last()) * 256 + s.last() as nat
    }
}

/// Byte strings of one length that differ first at `i` are ordered by that byte.
pub proof fn lemma_rank_first_difference(a: Seq<u8>, b: Seq<u8>, i: int)
    requires
        a.len() == b.len(),
        0 <= i < a.len(),
        forall|j: int| 0 <= j < i ==> a[j] == b[j],
        a[i] < b[i],
    ensures
        rank(a) < rank(b),
    decreases a.len(),
{
    if i == a.len() - 1 {
        assert(a.drop_last() =~= b.drop_last());
    } else {
        lemma_rank_first_difference(a.drop_last(), b.drop_last(), i);
    }
}

/// Byte strings of one length with equal rank are equal.
pub proof fn lemma_rank_injective(a: Seq<u8>, b: Seq<u8>)
    requires
        a.len() == b.len(),
        rank(a) == rank(b),
    ensures
        a == b,
    decreases a.len(),
{
    if a.len() > 0 {
        lemma_rank_injective(a.drop_last(), b.drop_last());
        assert(a =~= a.drop_last().push(a.last()));
        assert(b =~= b.drop_last().push(b.last()));
    } else {
        assert(a =~= b);
    }
}

/// Whether two ids are the same.
pub fn same_id(a: &Id, b: &Id) -> (r: bool)
    ensures
        r == (a@ == b@),
{
    let mut i: usize = 0;
    while i < 32
        invariant
            i <= 32,
            forall|j: int| 0 <= j < i ==> a@[j] == b@[j],
        decreases 32 - i,
    {
        if a[i] != b[i] {
            return false;
        }
        i = i + 1;
    }
    assert(a@ =~= b@);
    true
}

/// Whether `a` comes before `b` in id order.
pub fn id_before(a: &Id, b: &Id) -> (r: bool)
    ensures
        r == (rank(a@) < rank(b@)),
{
    let mut i: usize = 0;
    while i < 32
        invariant
            i <= 32,
            forall|j: int| 0 <= j < i ==> a@[j] == b@[j],
        decreases 32 - i,
    {
        if a[i] < b[i] {
            proof {
                lemma_rank_first_difference(a@, b@, i as int);
            }
            return true;
        }
        if b[i] < a[i] {
            proof {
                lemma_rank_first_difference(b@, a@, i as int);
            }
            return false;
        }
        i = i + 1;
    }
    assert(a@ =~= b@);
    false
}

} // verus!
