//! The hash of a byte string, and values that carry their hash with them.

use vstd::prelude::*;

verus! {

/// The hash of the empty byte string.
pub const HASH_BASIS: u64 = 0xcbf2_9ce4_8422_2325;

/// What the hash is multiplied by for each byte.
pub const HASH_PRIME: u64 = 0x0000_0100_0000_01b3;

/// One step of the hash: `byte` is mixed into `hash`.
pub open spec fn hash_step(hash: u64, byte: u8) -> u64 {
    (((hash ^ (byte as u64)) * HASH_PRIME) % 0x1_0000_0000_0000_0000) as u64
}

/// The hash of a byte string: starting from `HASH_BASIS`, each byte in turn
/// is combined with the hash by exclusive or, and the result multiplied by
/// `HASH_PRIME`, modulo `2^64`.
pub open spec fn hash_of(bytes: Seq<u8>) -> u64
    decreases bytes.len(),
{
    if bytes.len() == 0 {
        HASH_BASIS
    } else {
        hash_step(hash_of(bytes.drop_last()), bytes.last())
    }
}

/// The hash of `bytes`.
pub fn hash_bytes(bytes: &[u8]) -> (hash: u64)
    ensures
        hash == hash_of(bytes@),
{
    let mut hash: u64 = HASH_BASIS;
    let mut i: usize = 0;
    while i < bytes.len()
        invariant
            i <= bytes@.len(),
            hash == hash_of(bytes@.subrange(0, i as int)),
        decreases bytes@.len() - i,
    {
        assert(bytes@.subrange(0, i + 1).drop_last() =~= bytes@.subrange(0, i as int));
        hash = (hash ^ (bytes[i] as u64)).wrapping_mul(HASH_PRIME);
        i = i + 1;
    }
    assert(bytes@.subrange(0, bytes@.len() as int) =~= bytes@);
    hash
}

/// A value together with a hash that was computed for it earlier.
#[derive(Clone, Copy, Debug, PartialEq, Eq)]
pub struct PreHashed<T> {
    pub value: T,
    pub hash: u64,
}

impl<T> PreHashed<T> {
    /// `value` with the hash `hash`.
    pub fn new(value: T, hash: u64) -> (r: Self)
        ensures
            r.value == value,
            r.hash == hash,
    {
        PreHashed { value, hash }
    }

    /// The hash that the value carries.
    pub fn hash(&self) -> (r: u64)
        ensures
            r == self.hash,
    {
        self.hash
    }
}

} // verus!
