//! Keys: 256-bit byte strings, ordered as unsigned big-endian numbers.

use vstd::prelude::*;

verus! {

/// Number of bytes in a key.
pub const KEY_LEN: usize = 32;

/// How one key stands to another in the order of keys.
#[derive(Debug, Clone, Copy, PartialEq, Eq)]
pub enum Rank {
    Less,
    Equal,
    Greater,
}

/// The number that a byte string denotes when read big-endian: the first byte
/// is the most significant one.
pub open spec fn key_value(k: Seq<u8>) -> nat
    decreases k.len(),
{
    if k.len() == 0 {
        0
    } else {
        key_value(k.drop_last()) * 256 + k.last() as nat
    }
}

/// Two byte strings of one length that agree up to a position, where the
/// first has the smaller byte, denote numbers in the same order.
pub proof fn lemma_first_difference_decides(a: Seq<u8>, b: Seq<u8>, i: int)
    requires
        a.len() == b.len(),
        0 <= i < a.len(),
        forall|j: int| 0 <= j < i ==> a[j] == b[j],
        a[i] < b[i],
    ensures
        key_value(a) < key_value(b),
    decreases a.len(),
{
    let n = a.len() as int;
    if i == n - 1 {
        assert(a.drop_last() =~= b.drop_last());
    } else {
        lemma_first_difference_decides(a.drop_last(), b.drop_last(), i);
    }
}

/// Compares two keys as big-endian numbers.
pub fn rank(a: &[u8; 32], b: &[u8; 32]) -> (r: Rank)
    ensures
        r == Rank::Less <==> key_value(a@) < key_value(b@),
        r == Rank::Equal <==> key_value(a@) == key_value(b@),
        r == Rank::Greater <==> key_value(a@) > key_value(b@),
        r == Rank::Equal <==> a@ == b@,
{
    let mut i: usize = 0;
    while i < KEY_LEN
        invariant
            i <= KEY_LEN,
            forall|j: int| 0 <= j < i ==> a@[j] == b@[j],
        decreases KEY_LEN - i,
    {
        if a[i] < b[i] {
            proof {
                lemma_first_difference_decides(a@, b@, i as int);
            }
            return Rank::Less;
        }
        if a[i] > b[i] {
            proof {
                lemma_first_difference_decides(b@, a@, i as int);
            }
            return Rank::Greater;
        }
        i += 1;
    }
    assert(a@ =~= b@);
    Rank::Equal
}

/// Whether two keys are the same key.
pub fn same_key(a: &[u8; 32], b: &[u8; 32]) -> (r: bool)
    ensures
        r == (a@ == b@),
        r == (key_value(a@) == key_value(b@)),
{
    matches!(rank(a, b), Rank::Equal)
}

/// The key that stands in `bytes` from `offset` on.
pub fn key_at(bytes: &[u8], offset: usize) -> (k: [u8; 32])
    requires
        offset + KEY_LEN <= bytes.len(),
    ensures
        k@ == bytes@.subrange(offset as int, offset + KEY_LEN),
{
    let mut k = [0u8; 32];
    let mut i: usize = 0;
    while i < KEY_LEN
        invariant
            i <= KEY_LEN,
            offset + KEY_LEN <= bytes.len(),
            forall|j: int| 0 <= j < i ==> k@[j] == bytes@[offset + j],
        decreases KEY_LEN - i,
    {
        k[i] = bytes[offset + i];
        i += 1;
    }
    k
}

} // verus!
