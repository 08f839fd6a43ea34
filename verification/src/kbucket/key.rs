//! Keys of the DHT keyspace and the XOR distance between them.

use vstd::arithmetic::power2::pow2;
use vstd::prelude::*;

use crate::kbucket::key_laws::digits_are_those_of_the_number;

verus! {

/// The number of bits in a key, which is also the number of buckets in a
/// routing table.
pub const NUM_BUCKETS: usize = 256;

/// The bytes of a key: a 256-bit number, held in two halves.
#[derive(Clone, Copy, Debug, PartialEq, Eq, Structural)]
pub struct KeyBytes {
    /// The most significant half.
    pub hi: u128,
    /// The least significant half.
    pub lo: u128,
}

/// The distance between two keys: a 256-bit number, held in two halves.
#[derive(Clone, Copy, Debug, PartialEq, Eq, Structural)]
pub struct Distance {
    /// The most significant half.
    pub hi: u128,
    /// The least significant half.
    pub lo: u128,
}

/// The XOR distance between two keys.
pub open spec fn xor_distance(a: KeyBytes, b: KeyBytes) -> Distance {
    Distance { hi: a.hi ^ b.hi, lo: a.lo ^ b.lo }
}

impl KeyBytes {
    /// Computes the XOR distance to another key.
    pub fn distance(&self, other: &KeyBytes) -> (d: Distance)
        ensures
            d == xor_distance(*self, *other),
    {
        Distance { hi: self.hi ^ other.hi, lo: self.lo ^ other.lo }
    }
}

impl Distance {
    /// The distance as a number.
    pub open spec fn value(self) -> nat {
        (self.hi * 0x1_0000_0000_0000_0000_0000_0000_0000_0000 + self.lo) as nat
    }

    /// Whether the binary digit of weight `2^i` is set.
    pub open spec fn bit(self, i: int) -> bool {
        if i < 128 {
            (self.lo >> (i as u128)) & 1 == 1
        } else {
            (self.hi >> ((i - 128) as u128)) & 1 == 1
        }
    }

    /// Tests a binary digit.
    pub fn has_bit(&self, i: usize) -> (b: bool)
        requires
            i < NUM_BUCKETS,
        ensures
            b == self.bit(i as int),
            b == ((self.value() / pow2(i as nat)) % 2 == 1),
    {
        proof {
            digits_are_those_of_the_number(*self, i as nat);
        }
        if i < 128 {
            (self.lo >> (i as u128)) & 1 == 1
        } else {
            (self.hi >> ((i - 128) as u128)) & 1 == 1
        }
    }

    /// Whether this distance is at most `other`.
    pub fn at_most(&self, other: &Distance) -> (b: bool)
        ensures
            b == (self.value() <= other.value()),
    {
        self.hi < other.hi || (self.hi == other.hi && self.lo <= other.lo)
    }
}

/// What identifies a node: anything that holds the bytes of a key.
pub trait AsKeyBytes {
    /// The bytes of the key.
    spec fn key_bytes(&self) -> KeyBytes;

    /// Gets the bytes of the key.
    fn as_key_bytes(&self) -> (r: &KeyBytes)
        ensures
            *r == self.key_bytes(),
    ;
}

impl AsKeyBytes for KeyBytes {
    open spec fn key_bytes(&self) -> KeyBytes {
        *self
    }

    fn as_key_bytes(&self) -> (r: &KeyBytes) {
        self
    }
}

/// A key of the DHT keyspace together with the value that it was made from.
#[derive(Clone, Copy, Debug)]
pub struct Key<T> {
    /// The value that the key was made from.
    pub preimage: T,
    /// The bytes of the key.
    pub bytes: KeyBytes,
}

impl<T> Key<T> {
    /// Consumes the key for the value that it was made from.
    pub fn into_preimage(self) -> (t: T)
        ensures
            t == self.preimage,
    {
        self.preimage
    }
}

impl<T> AsKeyBytes for Key<T> {
    open spec fn key_bytes(&self) -> KeyBytes {
        self.bytes
    }

    fn as_key_bytes(&self) -> (r: &KeyBytes) {
        &self.bytes
    }
}

/// Two keys are at the same distance from each other, whichever comes first.
pub proof fn distance_symmetric(a: KeyBytes, b: KeyBytes)
    ensures
        xor_distance(a, b) == xor_distance(b, a),
{
    let (ah, al, bh, bl) = (a.hi, a.lo, b.hi, b.lo);
    assert(ah ^ bh == bh ^ ah && al ^ bl == bl ^ al) by (bit_vector);
}

/// Seen from one key, no two other keys lie at the same distance.
pub proof fn distance_injective(from: KeyBytes, a: KeyBytes, b: KeyBytes)
    requires
        xor_distance(from, a) == xor_distance(from, b),
    ensures
        a == b,
{
    let (fh, fl, ah, al, bh, bl) = (from.hi, from.lo, a.hi, a.lo, b.hi, b.lo);
    assert(ah == bh && al == bl) by (bit_vector)
        requires
            fh ^ ah == fh ^ bh,
            fl ^ al == fl ^ bl,
    ;
}

} // verus!
