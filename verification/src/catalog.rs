//! The catalog of proof shapes: every shape of a key derivation, once, in
//! canonical order. A shape's place in the catalog is its index in the
//! derivation.

use crate::canonical::{collect_canonical, is_canonical, strictly_increasing};
use crate::merkle::{ceil_log2, merkle_tree_height};
use crate::order::keys;
use crate::shape::{ProofShapeKey, ZKMProofShape};
use vstd::prelude::*;

verus! {

/// The shapes of a key derivation, sorted and without repetition.
#[derive(Debug)]
pub struct ShapeCatalog {
    shapes: Vec<ZKMProofShape>,
}

impl View for ShapeCatalog {
    type V = Seq<ProofShapeKey>;

    /// The shapes in the order of their indices.
    closed spec fn view(&self) -> Seq<ProofShapeKey> {
        keys(self.shapes@)
    }
}

impl ShapeCatalog {
    #[verifier::type_invariant]
    spec fn well_formed(self) -> bool {
        is_canonical(self.shapes@)
    }

    /// The catalog of the enumerated shapes: each shape once, whatever the order
    /// of enumeration and however often it was enumerated.
    pub fn collect(shapes: Vec<ZKMProofShape>) -> (catalog: ShapeCatalog)
        ensures
            strictly_increasing(catalog@),
            catalog@.to_set() == keys(shapes@).to_set(),
            catalog@.len() == keys(shapes@).to_set().len(),
            catalog@.len() <= shapes@.len(),
    {
        ShapeCatalog { shapes: collect_canonical(shapes) }
    }

    /// The number of shapes.
    pub fn len(&self) -> (n: usize)
        ensures
            n == self@.len(),
            strictly_increasing(self@),
    {
        proof {
            use_type_invariant(self);
        }
        self.shapes.len()
    }

    /// The height of the Merkle tree over the keys of all shapes of the catalog.
    pub fn merkle_tree_height(&self) -> (height: usize)
        ensures
            height == ceil_log2(self@.len()),
    {
        merkle_tree_height(self.shapes.len())
    }

    /// The shapes, in the order of their indices.
    pub fn into_shapes(self) -> (shapes: Vec<ZKMProofShape>)
        ensures
            keys(shapes@) == self@,
            strictly_increasing(self@),
    {
        proof {
            use_type_invariant(&self);
        }
        self.shapes
    }
}

} // verus!
