//! The set of verification-key digests: each digest once, in canonical order.

use crate::canonical::{collect_canonical, find_slot, insert_canonical, is_canonical, strictly_increasing};
use crate::field::VkDigest;
use crate::order::{keys, Keyed};
use vstd::prelude::*;

verus! {

/// A digest as a mathematical value: the canonical representatives of its
/// elements.
pub type DigestKey = Seq<u32>;

/// A set of digests, sorted and without repetition. Digests are ordered element
/// by element, by the canonical representatives of their elements.
#[derive(Debug)]
pub struct VkSet {
    digests: Vec<VkDigest>,
}

impl View for VkSet {
    type V = Seq<DigestKey>;

    /// The digests in ascending order.
    closed spec fn view(&self) -> Seq<DigestKey> {
        keys(self.digests@)
    }
}

impl VkSet {
    #[verifier::type_invariant]
    spec fn well_formed(self) -> bool {
        is_canonical(self.digests@)
    }

    /// The empty set.
    pub fn new() -> (set: VkSet)
        ensures
            set@ == Seq::<DigestKey>::empty(),
    {
        let digests: Vec<VkDigest> = Vec::new();
        assert(keys(digests@) =~= Seq::<DigestKey>::empty());
        VkSet { digests }
    }

    /// The set of the given digests, whatever their order and however often each
    /// occurs.
    pub fn collect(digests: Vec<VkDigest>) -> (set: VkSet)
        ensures
            strictly_increasing(set@),
            set@.to_set() == keys(digests@).to_set(),
            set@.len() == keys(digests@).to_set().len(),
    {
        VkSet { digests: collect_canonical(digests) }
    }

    /// Adds a digest; says whether it was new.
    pub fn insert(&mut self, digest: VkDigest) -> (fresh: bool)
        ensures
            strictly_increasing(final(self)@),
            fresh == !old(self)@.contains(digest.key()),
            !fresh ==> final(self)@ == old(self)@,
            final(self)@.to_set() == old(self)@.to_set().insert(digest.key()),
    {
        let mut taken = VkSet::new();
        core::mem::swap(self, &mut taken);
        proof {
            use_type_invariant(&taken);
        }
        let mut digests = taken.digests;
        let fresh = insert_canonical(&mut digests, digest);
        *self = VkSet { digests };
        fresh
    }

    /// Whether the digest is in the set.
    pub fn contains(&self, digest: &VkDigest) -> (r: bool)
        ensures
            r == self@.contains(digest.key()),
    {
        proof {
            use_type_invariant(self);
        }
        find_slot(&self.digests, digest).1
    }

    /// The number of digests.
    pub fn len(&self) -> (n: usize)
        ensures
            n == self@.len(),
            strictly_increasing(self@),
    {
        proof {
            use_type_invariant(self);
        }
        self.digests.len()
    }

    /// The digests in ascending order.
    pub fn into_digests(self) -> (digests: Vec<VkDigest>)
        ensures
            keys(digests@) == self@,
            strictly_increasing(self@),
    {
        proof {
            use_type_invariant(&self);
        }
        self.digests
    }
}

} // verus!
