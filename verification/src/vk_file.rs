//! The key map as it is stored: the name of its file and the bytes in it.

use crate::canonical::strictly_increasing;
use crate::field::{VkDigest, DIGEST_SIZE};
use crate::order::keys;
use crate::vk_map::{vk_map, vk_map_file_name, vk_map_file_name_spec};
use crate::vk_set::{DigestKey, VkSet};
use p3_field::AbstractField;
use std::collections::BTreeMap;
use vstd::bytes::{spec_u32_to_le_bytes, spec_u64_to_le_bytes};
use vstd::prelude::*;

verus! {

/// The error of `bincode`, as that crate defines it. Nothing is known of what
/// it holds.
#[verifier::external_type_specification]
#[verifier::external_body]
pub struct ExBincodeErrorKind(bincode::ErrorKind);

/// The error of an input or output operation, as std defines it. Nothing is
/// known of what it holds.
#[verifier::external_type_specification]
#[verifier::external_body]
pub struct ExIoError(std::io::Error);

/// Why a key map could not be stored.
#[derive(Debug)]
pub enum VkBuildError {
    /// The file could not be written.
    IO(std::io::Error),
    /// The key map could not be encoded.
    Bincode(Box<bincode::ErrorKind>),
}

/// A key map ready to be stored.
#[derive(Debug)]
pub struct VkMapFile {
    /// The name of the file, within the directory of the build.
    pub name: String,
    /// The encoded key map.
    pub bytes: Vec<u8>,
}

/// The words of a digest, each as four bytes, the least significant byte first.
pub open spec fn digest_bytes(digest: Seq<u32>) -> Seq<u8> {
    Seq::new(digest.len(), |i: int| spec_u32_to_le_bytes(digest[i])).flatten()
}

/// One entry of a key map as bytes: the digest, then the index as eight bytes,
/// the least significant byte first.
pub open spec fn entry_bytes(entry: (Seq<u32>, usize)) -> Seq<u8> {
    digest_bytes(entry.0) + spec_u64_to_le_bytes(entry.1 as u64)
}

/// The bytes that `bincode` encodes a key map into: the number of entries as
/// eight bytes, the least significant byte first, then the entries one after
/// the other. The entries are pairs of a digest, given by the canonical
/// representatives of its elements, and its index, by ascending digest.
pub open spec fn bincode_vk_map(entries: Seq<(Seq<u32>, usize)>) -> Seq<u8> {
    spec_u64_to_le_bytes(entries.len() as u64) + Seq::new(
        entries.len(),
        |i: int| entry_bytes(entries[i]),
    ).flatten()
}

/// The digests of the entries of a key map.
pub open spec fn entry_digests(entries: Seq<(Seq<u32>, usize)>) -> Seq<DigestKey> {
    Seq::new(entries.len(), |i: int| entries[i].0)
}

/// The entries of the key map of a key set: each digest with its rank.
pub open spec fn vk_map_entries(vk_set: Seq<DigestKey>) -> Seq<(Seq<u32>, usize)> {
    Seq::new(vk_set.len(), |i: int| (vk_set[i], i as usize))
}

/// Encodes a key map with `bincode::serialize_into`, into a buffer in memory.
/// The map is handed over as an ordered map from digests, as arrays of
/// `p3_koala_bear::KoalaBear`, to indices. The contract claims two things of the
/// call. It succeeds: no size limit is set, the map knows its length, and
/// writing into a buffer in memory does not fail. And the bytes are those of
/// the fixed-width little-endian layout: the length of the map and each index
/// as a `u64`, each element of a digest as the `u32` that is its canonical
/// representative, the entries by ascending digest.
#[verifier::external_body]
fn encode_vk_map(map: &Vec<(VkDigest, usize)>) -> (r: Result<Vec<u8>, Box<bincode::ErrorKind>>)
    requires
        strictly_increasing(entry_digests(keys(map@))),
    ensures
        r is Ok,
        r matches Ok(bytes) ==> bytes@ == bincode_vk_map(keys(map@)),
{
    let tree: BTreeMap<[p3_koala_bear::KoalaBear; DIGEST_SIZE], usize> = map.iter().map(
        |(digest, index)|
            (
                digest.map(|e| p3_koala_bear::KoalaBear::from_canonical_u32(e.as_canonical_u32())),
                *index,
            ),
    ).collect();
    let mut bytes: Vec<u8> = Vec::new();
    bincode::serialize_into(&mut bytes, &tree)?;
    Ok(bytes)
}

/// The file of a key map from the outcome of its encoding: the encoded bytes
/// under the name that the kind of derivation asks for, or the error of the
/// encoding.
pub fn vk_map_file(dummy: bool, encoded: Result<Vec<u8>, Box<bincode::ErrorKind>>) -> (r: Result<
    VkMapFile,
    VkBuildError,
>)
    ensures
        match encoded {
            Ok(bytes) => r matches Ok(file) && file.name@ == vk_map_file_name_spec(dummy)
                && file.bytes == bytes,
            Err(error) => r matches Err(VkBuildError::Bincode(e)) && e == error,
        },
{
    match encoded {
        Ok(bytes) => {
            let name = vk_map_file_name(dummy).to_string();
            Ok(VkMapFile { name, bytes })
        },
        Err(error) => Err(VkBuildError::Bincode(error)),
    }
}

/// Prepares the key map of a key set for storing: every digest is mapped to its
/// rank in the set, and the map is encoded. The file is named after the kind of
/// derivation. Writing the file is left to the caller.
pub fn build_vk_map_to_file(vk_set: VkSet, dummy: bool) -> (r: Result<VkMapFile, VkBuildError>)
    ensures
        r matches Ok(file) && file.name@ == vk_map_file_name_spec(dummy) && file.bytes@
            == bincode_vk_map(vk_map_entries(vk_set@)),
{
    let map = vk_map(vk_set);
    proof {
        assert(keys(map@) =~= vk_map_entries(vk_set@));
        assert(entry_digests(keys(map@)) =~= vk_set@);
    }
    let encoded = encode_vk_map(&map);
    vk_map_file(dummy, encoded)
}

} // verus!
