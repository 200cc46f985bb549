//! Shape-driven derivation of verification-key sets for a recursive proving
//! stack: the recursion instruction set, the catalog of proof shapes, and the
//! aggregation of per-shape key digests into a canonical set committed in a
//! Merkle tree of fixed height.

pub mod order;
pub mod canonical;
pub mod merkle;
pub mod field;
pub mod instruction;
pub mod shape;
pub mod program_shape;
pub mod catalog;
pub mod vk_set;
pub mod vk_map;
pub mod vk_file;
