//! The shapes of the programs that verify proofs: a proof shape together with
//! the height of the Merkle tree over the verification keys, where the program
//! checks a Merkle proof.

use crate::order::{keys, Keyed};
use crate::shape::{OrderedShape, ProofShapeKey, ZKMProofShape};
use std::hash::{DefaultHasher, Hash, Hasher};
use vstd::prelude::*;

verus! {

/// The shape of a program that verifies one leaf proof.
#[derive(Debug, Clone, Hash)]
pub struct ZKMRecursionShape {
    /// The shapes of the proofs that the program verifies.
    pub proof_shapes: Vec<OrderedShape>,
}

/// The shapes of the proofs that a compressing program verifies, one for each
/// proof of the batch.
#[derive(Debug, Clone, Hash)]
pub struct ZKMCompressShape {
    pub proof_shapes: Vec<OrderedShape>,
}

/// The shape of a compressing program that also checks its inputs' keys against
/// the Merkle tree of verification keys.
#[derive(Debug, Clone, Hash)]
pub struct ZKMCompressWithVkeyShape {
    pub compress_shape: ZKMCompressShape,
    pub merkle_tree_height: usize,
}

/// The shape of a program that verifies one deferred proof.
#[derive(Debug, Clone, Hash)]
pub struct ZKMDeferredShape {
    pub inner: ZKMCompressShape,
    pub height: usize,
}

impl ZKMDeferredShape {
    /// The deferred shape over `inner` for a key tree of the given height.
    pub fn new(inner: ZKMCompressShape, height: usize) -> (shape: ZKMDeferredShape)
        ensures
            shape.inner == inner,
            shape.height == height,
    {
        ZKMDeferredShape { inner, height }
    }
}

/// The shape of a program to compile.
#[derive(Debug, Clone, Hash)]
pub enum ZKMCompressProgramShape {
    Recursion(ZKMRecursionShape),
    Compress(ZKMCompressWithVkeyShape),
    Deferred(ZKMDeferredShape),
    Shrink(ZKMCompressWithVkeyShape),
}

/// `program` is the program shape for the proof shape `shape` and a key tree of
/// the given height.
pub open spec fn program_shape_of(
    shape: ProofShapeKey,
    height: usize,
    program: ZKMCompressProgramShape,
) -> bool {
    match shape {
        ProofShapeKey::Recursion(proof_shape) => {
            &&& program matches ZKMCompressProgramShape::Recursion(r)
            &&& keys(r.proof_shapes@) == seq![proof_shape]
        },
        ProofShapeKey::Deferred(proof_shape) => {
            &&& program matches ZKMCompressProgramShape::Deferred(d)
            &&& keys(d.inner.proof_shapes@) == seq![proof_shape]
            &&& d.height == height
        },
        ProofShapeKey::Compress(proof_shapes) => {
            &&& program matches ZKMCompressProgramShape::Compress(c)
            &&& keys(c.compress_shape.proof_shapes@) == proof_shapes
            &&& c.merkle_tree_height == height
        },
        ProofShapeKey::Shrink(proof_shape) => {
            &&& program matches ZKMCompressProgramShape::Shrink(c)
            &&& keys(c.compress_shape.proof_shapes@) == seq![proof_shape]
            &&& c.merkle_tree_height == height
        },
    }
}

impl ZKMCompressProgramShape {
    /// The program shape for a proof shape: the shape itself for a leaf proof;
    /// for the others the shapes of the proofs to verify together with `height`,
    /// the height of the Merkle tree over the verification keys.
    pub fn from_proof_shape(shape: ZKMProofShape, height: usize) -> (program:
        ZKMCompressProgramShape)
        ensures
            program_shape_of(shape@, height, program),
    {
        match shape {
            ZKMProofShape::Recursion(proof_shape) => {
                let mut proof_shapes: Vec<OrderedShape> = Vec::new();
                proof_shapes.push(proof_shape);
                assert(keys(proof_shapes@) =~= seq![proof_shape.key()]);
                ZKMCompressProgramShape::Recursion(ZKMRecursionShape { proof_shapes })
            },
            ZKMProofShape::Deferred(proof_shape) => {
                let mut proof_shapes: Vec<OrderedShape> = Vec::new();
                proof_shapes.push(proof_shape);
                assert(keys(proof_shapes@) =~= seq![proof_shape.key()]);
                ZKMCompressProgramShape::Deferred(
                    ZKMDeferredShape::new(ZKMCompressShape { proof_shapes }, height),
                )
            },
            ZKMProofShape::Compress(proof_shapes) => ZKMCompressProgramShape::Compress(
                ZKMCompressWithVkeyShape {
                    compress_shape: ZKMCompressShape { proof_shapes },
                    merkle_tree_height: height,
                },
            ),
            ZKMProofShape::Shrink(proof_shape) => {
                let mut proof_shapes: Vec<OrderedShape> = Vec::new();
                proof_shapes.push(proof_shape);
                assert(keys(proof_shapes@) =~= seq![proof_shape.key()]);
                ZKMCompressProgramShape::Shrink(
                    ZKMCompressWithVkeyShape {
                        compress_shape: ZKMCompressShape { proof_shapes },
                        merkle_tree_height: height,
                    },
                )
            },
        }
    }

    /// Whether the program is the final, shrinking step, whose key is set up
    /// apart from those of the other programs.
    pub fn is_shrink(&self) -> (r: bool)
        ensures
            r == (self is Shrink),
    {
        match self {
            ZKMCompressProgramShape::Shrink(_) => true,
            _ => false,
        }
    }

    /// An identifier of the shape for logs and traces: the hash of the shape under
    /// std's default hasher. No decision of the library rests on it.
    pub fn hash_u64(&self) -> u64 {
        let mut hasher = DefaultHasher::new();
        hash_shape(self, &mut hasher);
        hasher.finish()
    }
}

/// Feeds a shape into a hasher with `std::hash::Hash::hash`, through the impl
/// that `derive` wrote for the shape. Nothing is claimed of the hasher's state
/// afterwards.
#[verifier::external_body]
fn hash_shape(shape: &ZKMCompressProgramShape, hasher: &mut DefaultHasher) {
    Hash::hash(shape, hasher)
}

} // verus!
