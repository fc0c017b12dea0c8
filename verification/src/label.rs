//! Wire labels of garbled circuits.

use crate::bytes::{
    from_be, lemma_from_to_be, lemma_pow256_16, to_be, u128_from_be_bytes, u128_to_be_bytes,
};
use vstd::prelude::*;

verus! {

/// The number of bytes of a label.
pub const S_SIZE: usize = 16;

/// A label: a word of 128 bits.
#[derive(Clone, Copy, Debug, PartialEq, Eq, Structural)]
pub struct S(pub u128);

impl S {
    pub fn from_u128(x: u128) -> (r: S)
        ensures
            r.0 == x,
    {
        S(x)
    }

    pub fn to_u128(self) -> (r: u128)
        ensures
            r == self.0,
    {
        self.0
    }

    /// The bytes of the word, highest first.
    pub fn to_bytes(self) -> (r: [u8; 16])
        ensures
            r@ == to_be(self.0 as nat, 16),
            from_be(r@) == self.0,
    {
        proof {
            lemma_pow256_16();
            lemma_from_to_be(self.0 as nat, 16);
        }
        u128_to_be_bytes(self.0)
    }

    pub fn from_bytes(b: [u8; 16]) -> (r: S)
        ensures
            r.0 == from_be(b@),
    {
        S(u128_from_be_bytes(&b))
    }

    /// The labels' sum.
    pub fn bitxor(self, other: S) -> (r: S)
        ensures
            r.0 == self.0 ^ other.0,
    {
        S(self.0 ^ other.0)
    }
}

/// Adding a word twice changes nothing.
pub proof fn lemma_xor_twice(a: u128, b: u128)
    ensures
        (a ^ b) ^ b == a,
        a ^ (a ^ b) == b,
        b ^ (a ^ b) == a,
{
    assert((a ^ b) ^ b == a) by (bit_vector);
    assert(a ^ (a ^ b) == b) by (bit_vector);
    assert(b ^ (a ^ b) == a) by (bit_vector);
}

/// Adding different words to a label gives different words.
pub proof fn lemma_xor_differs(a: u128, b: u128, c: u128)
    requires
        a ^ b == a ^ c,
    ensures
        b == c,
{
    lemma_xor_twice(a, b);
    lemma_xor_twice(a, c);
}

/// The two labels of a wire.
#[derive(Clone, Copy, Debug, PartialEq, Eq, Structural)]
pub struct GarbledWire {
    pub label0: S,
    pub label1: S,
}

impl GarbledWire {
    /// The label that stands for a value.
    pub open spec fn label(&self, bit: bool) -> S {
        if bit {
            self.label1
        } else {
            self.label0
        }
    }

    pub fn select(&self, bit: bool) -> (r: S)
        ensures
            r == self.label(bit),
            bit ==> r == self.label1,
            !bit ==> r == self.label0,
    {
        if bit {
            self.label1
        } else {
            self.label0
        }
    }
}

} // verus!
