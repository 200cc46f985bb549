//! Elements of the KoalaBear field, the prime field of order `2^31 - 2^24 + 1`.
//!
//! An element is held by its canonical representative, the one integer below the
//! order that stands for it. Everything the library decides about an element
//! (its place in an ordered set, whether two are equal) is decided on that
//! representative.

use crate::order::{Keyed, StrictOrder};
use vstd::prelude::*;

verus! {

/// The order of the field: `2^31 - 2^24 + 1`.
pub const KOALA_BEAR_PRIME: u32 = 0x7f00_0001;

/// The degree of the extension field over the base field.
pub const D: usize = 4;

/// The number of field elements in the digest of a verification key.
pub const DIGEST_SIZE: usize = 8;

/// An element of the KoalaBear field.
#[derive(Clone, Copy, Debug, PartialEq, Eq, Structural, PartialOrd, Ord, Hash)]
pub struct KoalaBear {
    value: u32,
}

/// An element of the extension field, by its coefficients over the base field.
pub type ExtensionElement = [KoalaBear; D];

/// The digest of a verification key.
pub type VkDigest = [KoalaBear; DIGEST_SIZE];

impl View for KoalaBear {
    type V = u32;

    /// The canonical representative.
    closed spec fn view(&self) -> u32 {
        self.value
    }
}

impl KoalaBear {
    #[verifier::type_invariant]
    spec fn is_canonical(self) -> bool {
        self.value < KOALA_BEAR_PRIME
    }

    /// Two elements with the same canonical representative are the same element.
    pub proof fn lemma_equal_by_representative(a: KoalaBear, b: KoalaBear)
        ensures
            a@ == b@ <==> a == b,
    {
    }

    /// The additive identity.
    pub fn zero() -> (r: KoalaBear)
        ensures
            r@ == 0,
    {
        KoalaBear { value: 0 }
    }

    /// The element whose canonical representative is `n`.
    pub fn from_canonical_u32(n: u32) -> (r: KoalaBear)
        requires
            n < KOALA_BEAR_PRIME,
        ensures
            r@ == n,
    {
        KoalaBear { value: n }
    }

    /// The element whose canonical representative is `n`.
    pub fn from_canonical_usize(n: usize) -> (r: KoalaBear)
        requires
            n < KOALA_BEAR_PRIME,
        ensures
            r@ == n,
    {
        KoalaBear { value: n as u32 }
    }

    /// The canonical representative, which is below the order of the field.
    pub fn as_canonical_u32(&self) -> (n: u32)
        ensures
            n == self@,
            n < KOALA_BEAR_PRIME,
    {
        proof {
            use_type_invariant(self);
        }
        self.value
    }
}

/// Elements are ordered by their canonical representatives.
impl Keyed for KoalaBear {
    type Key = u32;

    open spec fn key(&self) -> u32 {
        self@
    }

    fn precedes(&self, other: &KoalaBear) -> (r: bool) {
        assert(self.key().before(other.key()) == (self.value < other.value));
        self.value < other.value
    }
}

} // verus!
