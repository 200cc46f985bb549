//! Derivation of the set of verification keys.
//!
//! A derivation enumerates the shapes, hands each selected shape out to be
//! compiled and set up, and collects what comes back: the digest of a key, or
//! the fault that stopped the shape. Compilation and setup are done elsewhere,
//! by any number of workers and in any order; what is decided here does not
//! depend on that order.

use crate::canonical::{
    collect_canonical, find_slot, lemma_strictly_increasing_len, lemma_strictly_increasing_unique,
    strictly_increasing,
};
use crate::catalog::ShapeCatalog;
use crate::field::{KoalaBear, VkDigest, DIGEST_SIZE, KOALA_BEAR_PRIME};
use crate::merkle::ceil_log2;
use crate::order::{keys, Keyed, StrictOrder};
use crate::program_shape::{program_shape_of, ZKMCompressProgramShape};
use crate::shape::{all_nonempty, generated_shapes, OrderedShape, ProofShapeKey, ZKMProofShape};
use crate::vk_set::{DigestKey, VkSet};
use vstd::prelude::*;

verus! {

/// What became of one shape.
#[derive(Debug, Clone, Copy)]
pub enum ShapeOutcome {
    /// The shape was compiled and set up; this is the digest of its key.
    Key(VkDigest),
    /// The shape could not be compiled into a program.
    CompilationFault,
    /// The program was compiled, but no key could be set up for it.
    SetupFault,
}

/// The digests that were reported, in the order in which they arrived.
pub open spec fn reported_digests(outcomes: Seq<(usize, ShapeOutcome)>) -> Seq<DigestKey>
    decreases outcomes.len(),
{
    if outcomes.len() == 0 {
        Seq::empty()
    } else {
        let earlier = reported_digests(outcomes.drop_last());
        match outcomes.last().1 {
            ShapeOutcome::Key(digest) => earlier.push(digest.key()),
            _ => earlier,
        }
    }
}

/// The indices of the shapes that faulted, in the order in which the faults
/// arrived.
pub open spec fn fault_indices(outcomes: Seq<(usize, ShapeOutcome)>) -> Seq<usize>
    decreases outcomes.len(),
{
    if outcomes.len() == 0 {
        Seq::empty()
    } else {
        let earlier = fault_indices(outcomes.drop_last());
        match outcomes.last().1 {
            ShapeOutcome::Key(_) => earlier,
            _ => earlier.push(outcomes.last().0),
        }
    }
}

/// `outcome` reports the digest `digest`.
pub open spec fn reports_digest(outcome: (usize, ShapeOutcome), digest: DigestKey) -> bool {
    outcome.1 matches ShapeOutcome::Key(d) && d.key() == digest
}

/// `outcome` reports a fault of the shape of index `index`.
pub open spec fn reports_fault(outcome: (usize, ShapeOutcome), index: usize) -> bool {
    outcome.0 == index && !(outcome.1 is Key)
}

/// A digest is among the reported ones exactly if some outcome reports it, and
/// an index is among the faulted ones exactly if some outcome reports a fault of
/// it. Every outcome is counted once: as a digest or as a fault.
pub proof fn lemma_outcomes_sorted_out(outcomes: Seq<(usize, ShapeOutcome)>)
    ensures
        forall|digest: DigestKey|
            reported_digests(outcomes).contains(digest) <==> exists|k: int|
                0 <= k < outcomes.len() && reports_digest(#[trigger] outcomes[k], digest),
        forall|index: usize|
            fault_indices(outcomes).contains(index) <==> exists|k: int|
                0 <= k < outcomes.len() && reports_fault(#[trigger] outcomes[k], index),
        reported_digests(outcomes).len() + fault_indices(outcomes).len() == outcomes.len(),
    decreases outcomes.len(),
{
    if outcomes.len() == 0 {
    } else {
        let earlier = outcomes.drop_last();
        let last = outcomes.last();
        lemma_outcomes_sorted_out(earlier);
        let digests = reported_digests(outcomes);
        let faults = fault_indices(outcomes);
        assert forall|digest: DigestKey|
            digests.contains(digest) <==> exists|k: int|
                0 <= k < outcomes.len() && reports_digest(#[trigger] outcomes[k], digest) by {
            if digests.contains(digest) {
                let p = choose|p: int| 0 <= p < digests.len() && digests[p] == digest;
                if p < reported_digests(earlier).len() {
                    assert(reported_digests(earlier)[p] == digest);
                    assert(reported_digests(earlier).contains(digest));
                    let k = choose|k: int|
                        0 <= k < earlier.len() && reports_digest(#[trigger] earlier[k], digest);
                    assert(reports_digest(outcomes[k], digest));
                } else {
                    assert(reports_digest(outcomes[outcomes.len() - 1], digest));
                }
            }
            if exists|k: int|
                0 <= k < outcomes.len() && reports_digest(#[trigger] outcomes[k], digest) {
                let k = choose|k: int|
                    0 <= k < outcomes.len() && reports_digest(#[trigger] outcomes[k], digest);
                if k < earlier.len() {
                    assert(reports_digest(earlier[k], digest));
                    assert(reported_digests(earlier).contains(digest));
                    let p = choose|p: int|
                        0 <= p < reported_digests(earlier).len() && reported_digests(earlier)[p]
                            == digest;
                    assert(digests[p] == digest);
                } else {
                    assert(digests[digests.len() - 1] == digest);
                }
            }
        }
        assert forall|index: usize|
            faults.contains(index) <==> exists|k: int|
                0 <= k < outcomes.len() && reports_fault(#[trigger] outcomes[k], index) by {
            if faults.contains(index) {
                let p = choose|p: int| 0 <= p < faults.len() && faults[p] == index;
                if p < fault_indices(earlier).len() {
                    assert(fault_indices(earlier)[p] == index);
                    assert(fault_indices(earlier).contains(index));
                    let k = choose|k: int|
                        0 <= k < earlier.len() && reports_fault(#[trigger] earlier[k], index);
                    assert(reports_fault(outcomes[k], index));
                } else {
                    assert(reports_fault(outcomes[outcomes.len() - 1], index));
                }
            }
            if exists|k: int|
                0 <= k < outcomes.len() && reports_fault(#[trigger] outcomes[k], index) {
                let k = choose|k: int|
                    0 <= k < outcomes.len() && reports_fault(#[trigger] outcomes[k], index);
                if k < earlier.len() {
                    assert(reports_fault(earlier[k], index));
                    assert(fault_indices(earlier).contains(index));
                    let p = choose|p: int|
                        0 <= p < fault_indices(earlier).len() && fault_indices(earlier)[p]
                            == index;
                    assert(faults[p] == index);
                } else {
                    assert(faults[faults.len() - 1] == index);
                }
            }
        }
    }
}

/// The key set does not depend on the order in which the outcomes arrived, and
/// so not on the number of workers nor on their scheduling: two key sets built
/// from the same outcomes in different orders are equal, digest for digest.
pub proof fn lemma_vk_set_independent_of_arrival_order(
    first: Seq<(usize, ShapeOutcome)>,
    second: Seq<(usize, ShapeOutcome)>,
    first_set: Seq<DigestKey>,
    second_set: Seq<DigestKey>,
)
    requires
        first.to_multiset() == second.to_multiset(),
        strictly_increasing(first_set),
        first_set.to_set() == reported_digests(first).to_set(),
        strictly_increasing(second_set),
        second_set.to_set() == reported_digests(second).to_set(),
    ensures
        first_set == second_set,
{
    lemma_outcomes_sorted_out(first);
    lemma_outcomes_sorted_out(second);
    assert forall|digest: DigestKey|
        reported_digests(first).to_set().contains(digest) <==> reported_digests(
            second,
        ).to_set().contains(digest) by {
        if reported_digests(first).contains(digest) {
            let k = choose|k: int|
                0 <= k < first.len() && reports_digest(#[trigger] first[k], digest);
            lemma_same_outcomes(first, second, first[k]);
            let j = choose|j: int| 0 <= j < second.len() && second[j] == first[k];
            assert(reports_digest(second[j], digest));
        }
        if reported_digests(second).contains(digest) {
            let k = choose|k: int|
                0 <= k < second.len() && reports_digest(#[trigger] second[k], digest);
            lemma_same_outcomes(second, first, second[k]);
            let j = choose|j: int| 0 <= j < first.len() && first[j] == second[k];
            assert(reports_digest(first[j], digest));
        }
    }
    assert(first_set.to_set() =~= second_set.to_set());
    lemma_strictly_increasing_unique(first_set, second_set);
}

/// Which shapes have faulted does not depend on the order in which the outcomes
/// arrived: the same indices are listed, if in another order.
pub proof fn lemma_faults_independent_of_arrival_order(
    first: Seq<(usize, ShapeOutcome)>,
    second: Seq<(usize, ShapeOutcome)>,
)
    requires
        first.to_multiset() == second.to_multiset(),
    ensures
        fault_indices(first).to_set() == fault_indices(second).to_set(),
{
    lemma_outcomes_sorted_out(first);
    lemma_outcomes_sorted_out(second);
    assert forall|index: usize|
        fault_indices(first).to_set().contains(index) <==> fault_indices(second).to_set().contains(
            index,
        ) by {
        if fault_indices(first).contains(index) {
            let k = choose|k: int| 0 <= k < first.len() && reports_fault(#[trigger] first[k], index);
            lemma_same_outcomes(first, second, first[k]);
            let j = choose|j: int| 0 <= j < second.len() && second[j] == first[k];
            assert(reports_fault(second[j], index));
        }
        if fault_indices(second).contains(index) {
            let k = choose|k: int|
                0 <= k < second.len() && reports_fault(#[trigger] second[k], index);
            lemma_same_outcomes(second, first, second[k]);
            let j = choose|j: int| 0 <= j < first.len() && first[j] == second[k];
            assert(reports_fault(first[j], index));
        }
    }
    assert(fault_indices(first).to_set() =~= fault_indices(second).to_set());
}

/// What occurs in a sequence occurs in each of its rearrangements.
proof fn lemma_same_outcomes(
    a: Seq<(usize, ShapeOutcome)>,
    b: Seq<(usize, ShapeOutcome)>,
    outcome: (usize, ShapeOutcome),
)
    requires
        a.to_multiset() == b.to_multiset(),
        a.contains(outcome),
    ensures
        b.contains(outcome),
{
    vstd::seq_lib::to_multiset_contains(a, outcome);
    vstd::seq_lib::to_multiset_contains(b, outcome);
}

/// A fault stays with its shape: the list of faulted indices holds exactly the
/// indices for which a fault was reported, and every digest that was reported
/// is in the key set, whatever else has faulted.
pub proof fn lemma_fault_isolation(
    outcomes: Seq<(usize, ShapeOutcome)>,
    vk_set: Seq<DigestKey>,
    panic_indices: Seq<usize>,
)
    requires
        vk_set.to_set() == reported_digests(outcomes).to_set(),
        panic_indices == fault_indices(outcomes),
    ensures
        forall|index: usize|
            panic_indices.contains(index) <==> exists|k: int|
                0 <= k < outcomes.len() && reports_fault(#[trigger] outcomes[k], index),
        forall|k: int, digest: DigestKey|
            0 <= k < outcomes.len() && #[trigger] reports_digest(outcomes[k], digest)
                ==> vk_set.contains(digest),
{
    lemma_outcomes_sorted_out(outcomes);
    assert forall|k: int, digest: DigestKey|
        0 <= k < outcomes.len() && #[trigger] reports_digest(
            outcomes[k],
            digest,
        ) implies vk_set.contains(digest) by {
        assert(reported_digests(outcomes).contains(digest));
        assert(reported_digests(outcomes).to_set().contains(digest));
        assert(vk_set.to_set().contains(digest));
    }
}

/// The number of shapes in the catalog of an enumeration: the number of
/// different shapes among the enumerated ones.
pub open spec fn catalog_size(shapes: Seq<ZKMProofShape>) -> nat {
    keys(shapes).to_set().len()
}

/// The digest that stands for the shape of index `i` in a dummy derivation: the
/// field element `i` in every place.
pub open spec fn dummy_digest(i: int) -> DigestKey {
    Seq::new(DIGEST_SIZE as nat, |k: int| i as u32)
}

/// The dummy digests of the first `n` indices, in order.
pub open spec fn dummy_digests(n: nat) -> Seq<DigestKey> {
    Seq::new(n, |i: int| dummy_digest(i))
}

/// The dummy digests of different indices differ, and they ascend with the
/// index.
pub proof fn lemma_dummy_digests_ascend(n: nat)
    requires
        n <= KOALA_BEAR_PRIME,
    ensures
        strictly_increasing(dummy_digests(n)),
        dummy_digests(n).to_set().len() == n,
{
    let all = dummy_digests(n);
    assert forall|i: int, j: int| 0 <= i < j < all.len() implies (#[trigger] all[i]).before(
        #[trigger] all[j],
    ) by {
        assert(all[i][0] == i as u32);
        assert(all[j][0] == j as u32);
    }
    lemma_strictly_increasing_len(all);
}

/// What a dummy derivation over a catalog of `n` shapes gives: the dummy digest
/// of every index of the catalog, no fault, and the height of a tree over `n`
/// leaves.
pub open spec fn is_dummy_derivation(
    vk_set: Seq<DigestKey>,
    panic_indices: Seq<usize>,
    height: usize,
    n: nat,
) -> bool {
    &&& vk_set == dummy_digests(n)
    &&& panic_indices == Seq::<usize>::empty()
    &&& height == ceil_log2(n)
}

/// A dummy derivation gives one digest for each shape of the catalog: its key
/// set has as many digests as the enumeration has different shapes, no two of
/// them equal, and no shape has faulted.
pub proof fn lemma_dummy_derivation_covers_the_catalog(
    shapes: Seq<ZKMProofShape>,
    vk_set: Seq<DigestKey>,
    panic_indices: Seq<usize>,
    height: usize,
)
    requires
        catalog_size(shapes) <= KOALA_BEAR_PRIME,
        is_dummy_derivation(vk_set, panic_indices, height, catalog_size(shapes)),
    ensures
        vk_set.len() == catalog_size(shapes),
        vk_set.no_duplicates(),
        vk_set.to_set().len() == catalog_size(shapes),
        panic_indices.len() == 0,
        height == ceil_log2(catalog_size(shapes)),
{
    lemma_dummy_digests_ascend(catalog_size(shapes));
    lemma_strictly_increasing_len(vk_set);
}

impl ZKMProofShape {
    /// The key map of a dummy derivation: for each shape of the catalog, by its
    /// index, the dummy digest of the index, mapped to the index. A shape that is
    /// enumerated several times is in the catalog once. No shape is compiled and
    /// no key is set up.
    pub fn dummy_vk_map(
        core_shapes: Vec<OrderedShape>,
        compress_combinations: Vec<Vec<Vec<OrderedShape>>>,
        deferred_combinations: Vec<Vec<OrderedShape>>,
        shrink_combinations: Vec<Vec<OrderedShape>>,
    ) -> (map: Vec<(VkDigest, usize)>)
        requires
            all_nonempty(deferred_combinations@),
            all_nonempty(shrink_combinations@),
            catalog_size(
                generated_shapes(
                    core_shapes@,
                    compress_combinations@,
                    deferred_combinations@,
                    shrink_combinations@,
                ),
            ) <= KOALA_BEAR_PRIME,
        ensures
            is_dummy_vk_map(
                map@,
                catalog_size(
                    generated_shapes(
                        core_shapes@,
                        compress_combinations@,
                        deferred_combinations@,
                        shrink_combinations@,
                    ),
                ),
            ),
    {
        let shapes = ZKMProofShape::generate(
            core_shapes,
            compress_combinations,
            deferred_combinations,
            shrink_combinations,
        );
        let catalog = ShapeCatalog::collect(shapes);
        dummy_vk_map_of(catalog.len())
    }
}

/// `map` is the key map of a dummy derivation over `n` shapes.
pub open spec fn is_dummy_vk_map(map: Seq<(VkDigest, usize)>, n: nat) -> bool {
    &&& map.len() == n
    &&& forall|i: int| 0 <= i < n ==> (#[trigger] map[i]).1 == i && map[i].0.key() == dummy_digest(i)
}

/// The key map of a dummy derivation over `n` shapes.
pub fn dummy_vk_map_of(n: usize) -> (map: Vec<(VkDigest, usize)>)
    requires
        n <= KOALA_BEAR_PRIME,
    ensures
        is_dummy_vk_map(map@, n as nat),
{
    let mut map: Vec<(VkDigest, usize)> = Vec::new();
    let mut i: usize = 0;
    while i < n
        invariant
            n <= KOALA_BEAR_PRIME,
            i <= n,
            is_dummy_vk_map(map@, i as nat),
        decreases n - i,
    {
        let element = KoalaBear::from_canonical_usize(i);
        let digest: VkDigest = [element; DIGEST_SIZE];
        assert(digest.key() =~= dummy_digest(i as int));
        map.push((digest, i));
        i = i + 1;
    }
    map
}

/// The digests of a key map, in the order of the map.
fn digests_of(map: Vec<(VkDigest, usize)>) -> (digests: Vec<VkDigest>)
    ensures
        digests@.len() == map@.len(),
        forall|i: int| 0 <= i < map@.len() ==> #[trigger] digests@[i] == map@[i].0,
{
    let mut digests: Vec<VkDigest> = Vec::new();
    let mut i: usize = 0;
    while i < map.len()
        invariant
            i <= map@.len(),
            digests@.len() == i,
            forall|j: int| 0 <= j < i ==> #[trigger] digests@[j] == map@[j].0,
        decreases map@.len() - i,
    {
        digests.push(map[i].0);
        i = i + 1;
    }
    digests
}

/// Sorts out what the workers reported: the digests into a set, the indices of
/// the faulted shapes into a list.
fn aggregate(outcomes: Vec<(usize, ShapeOutcome)>) -> (r: (VkSet, Vec<usize>))
    ensures
        strictly_increasing(r.0@),
        r.0@.to_set() == reported_digests(outcomes@).to_set(),
        r.1@ == fault_indices(outcomes@),
{
    let mut vk_set = VkSet::new();
    let mut panic_indices: Vec<usize> = Vec::new();
    let mut k: usize = 0;
    assert(outcomes@.take(0) =~= Seq::empty());
    while k < outcomes.len()
        invariant
            k <= outcomes@.len(),
            strictly_increasing(vk_set@),
            vk_set@.to_set() == reported_digests(outcomes@.take(k as int)).to_set(),
            panic_indices@ == fault_indices(outcomes@.take(k as int)),
        decreases outcomes@.len() - k,
    {
        let (index, outcome) = outcomes[k];
        proof {
            let next = outcomes@.take(k + 1);
            assert(next.drop_last() =~= outcomes@.take(k as int));
            assert(next.last() == outcomes@[k as int]);
        }
        match outcome {
            ShapeOutcome::Key(digest) => {
                let ghost earlier = reported_digests(outcomes@.take(k as int));
                vk_set.insert(digest);
                proof {
                    earlier.lemma_push_to_set_commute(digest.key());
                }
            },
            _ => {
                panic_indices.push(index);
            },
        }
        k = k + 1;
    }
    assert(outcomes@.take(outcomes@.len() as int) =~= outcomes@);
    (vk_set, panic_indices)
}

/// Builds the set of verification keys from the enumerated shapes and from what
/// the workers reported of them.
///
/// In a dummy derivation nothing was compiled: the set holds the dummy digest of
/// each shape of the catalog and no shape has faulted, whatever was reported.
/// Otherwise the set holds the reported digests, each once and in ascending
/// order, and the list holds the indices of the shapes that faulted, in the order
/// of arrival. The height is that of a tree over the whole catalog in either
/// case, whichever part of it was worked on.
pub fn build_vk_map(
    shapes: Vec<ZKMProofShape>,
    dummy: bool,
    outcomes: Vec<(usize, ShapeOutcome)>,
) -> (r: (VkSet, Vec<usize>, usize))
    requires
        dummy ==> catalog_size(shapes@) <= KOALA_BEAR_PRIME,
    ensures
        r.2 == ceil_log2(catalog_size(shapes@)),
        dummy ==> is_dummy_derivation(r.0@, r.1@, r.2, catalog_size(shapes@)),
        !dummy ==> strictly_increasing(r.0@) && r.0@.to_set() == reported_digests(
            outcomes@,
        ).to_set() && r.1@ == fault_indices(outcomes@),
{
    let catalog = ShapeCatalog::collect(shapes);
    let height = catalog.merkle_tree_height();
    if dummy {
        let n = catalog.len();
        let digests = digests_of(dummy_vk_map_of(n));
        let dummy_set = VkSet::collect(digests);
        proof {
            assert(keys(digests@) =~= dummy_digests(n as nat));
            lemma_dummy_digests_ascend(n as nat);
            lemma_strictly_increasing_unique(dummy_set@, dummy_digests(n as nat));
        }
        (dummy_set, Vec::new(), height)
    } else {
        let (vk_set, panic_indices) = aggregate(outcomes);
        (vk_set, panic_indices, height)
    }
}

/// Whether the shape of index `i` is to be worked on: every shape where no
/// indices were given, else those whose index is among them.
pub open spec fn is_selected(indices: Option<Vec<usize>>, i: int) -> bool {
    match indices {
        None => true,
        Some(list) => exists|k: int| 0 <= k < list@.len() && #[trigger] list@[k] == i,
    }
}

/// The shapes to compile and set up.
#[derive(Debug)]
pub struct VkWork {
    /// The number of shapes in the catalog.
    pub num_shapes: usize,
    /// The height of the Merkle tree over the keys of the whole catalog.
    pub height: usize,
    /// The number of shapes asked for: none in a dummy derivation; else the
    /// number of different indices where indices were given, and the number of
    /// shapes in the catalog where none were.
    pub chunk_size: usize,
    /// The selected shapes, each with its index in the catalog.
    pub items: Vec<(usize, ZKMCompressProgramShape)>,
}

/// `items` are the program shapes of exactly the selected shapes of the catalog,
/// each once, by ascending index.
pub open spec fn is_work_for(
    items: Seq<(usize, ZKMCompressProgramShape)>,
    catalog: Seq<ProofShapeKey>,
    indices: Option<Vec<usize>>,
    height: usize,
) -> bool {
    &&& forall|k: int|
        0 <= k < items.len() ==> {
            &&& (#[trigger] items[k]).0 < catalog.len()
            &&& is_selected(indices, items[k].0 as int)
            &&& program_shape_of(catalog[items[k].0 as int], height, items[k].1)
        }
    &&& forall|j: int, k: int|
        0 <= j < k < items.len() ==> (#[trigger] items[j]).0 < (#[trigger] items[k]).0
    &&& forall|i: int|
        0 <= i < catalog.len() && is_selected(indices, i) ==> exists|k: int|
            0 <= k < items.len() && (#[trigger] items[k]).0 == i
}

/// The work covers exactly the selection: a shape is among the items exactly if
/// it is in the catalog and selected, and no shape is there twice, so that there
/// are at most as many items as the catalog has shapes.
pub proof fn lemma_work_covers_exactly_the_selection(
    items: Seq<(usize, ZKMCompressProgramShape)>,
    catalog: Seq<ProofShapeKey>,
    indices: Option<Vec<usize>>,
    height: usize,
)
    requires
        is_work_for(items, catalog, indices, height),
    ensures
        forall|i: int|
            (exists|k: int| 0 <= k < items.len() && (#[trigger] items[k]).0 == i) <==> (0 <= i
                < catalog.len() && is_selected(indices, i)),
        items.len() <= catalog.len(),
{
    assert forall|k: int| 0 <= k < items.len() implies k <= (#[trigger] items[k]).0 by {
        lemma_ascending_indices(items, k);
    }
    if items.len() > 0 {
        assert(items[items.len() - 1].0 < catalog.len());
    }
}

/// The `k`-th of strictly ascending indices is at least `k`.
proof fn lemma_ascending_indices(items: Seq<(usize, ZKMCompressProgramShape)>, k: int)
    requires
        0 <= k < items.len(),
        forall|i: int, j: int|
            0 <= i < j < items.len() ==> (#[trigger] items[i]).0 < (#[trigger] items[j]).0,
    ensures
        k <= items[k].0,
    decreases k,
{
    if k > 0 {
        lemma_ascending_indices(items, k - 1);
        assert(items[k - 1].0 < items[k].0);
    }
}

/// The number of different indices where indices were given, else `n`.
pub open spec fn selection_size(indices: Option<Vec<usize>>, n: nat) -> nat {
    match indices {
        None => n,
        Some(list) => list@.to_set().len(),
    }
}

/// Selects the shapes of the catalog to work on and turns each into the shape of
/// its program. A dummy derivation selects none: nothing is compiled and no key
/// is set up. Otherwise, where indices are given, only the shapes with those
/// indices are selected. The height of the key tree is that over the whole
/// catalog in any case, so that a shape's program does not depend on what else
/// was selected.
pub fn vk_work(catalog: ShapeCatalog, dummy: bool, indices: Option<Vec<usize>>) -> (work: VkWork)
    ensures
        work.num_shapes == catalog@.len(),
        work.height == ceil_log2(catalog@.len()),
        dummy ==> work.items@ == Seq::<(usize, ZKMCompressProgramShape)>::empty()
            && work.chunk_size == 0,
        !dummy ==> work.chunk_size == selection_size(indices, catalog@.len()) && is_work_for(
            work.items@,
            catalog@,
            indices,
            work.height,
        ),
{
    let num_shapes = catalog.len();
    let height = catalog.merkle_tree_height();
    if dummy {
        return VkWork { num_shapes, height, chunk_size: 0, items: Vec::new() };
    }
    let ghost all = catalog@;
    let (selection, chunk_size) = match indices {
        Some(list) => {
            let set = collect_canonical(list);
            assert(keys(list@) =~= list@);
            let size = set.len();
            (Some(set), size)
        },
        None => (None, num_shapes),
    };
    let shapes = catalog.into_shapes();
    let mut items: Vec<(usize, ZKMCompressProgramShape)> = Vec::new();
    let mut i: usize = 0;
    for shape in it: shapes
        invariant
            it.seq() == shapes@,
            keys(shapes@) == all,
            shapes@.len() == num_shapes,
            i == it.index(),
            indices is Some <==> selection is Some,
            selection matches Some(set) ==> strictly_increasing(keys(set@)) && keys(set@).to_set()
                == indices->Some_0@.to_set(),
            forall|k: int|
                0 <= k < items@.len() ==> {
                    &&& (#[trigger] items@[k]).0 < i
                    &&& is_selected(indices, items@[k].0 as int)
                    &&& program_shape_of(all[items@[k].0 as int], height, items@[k].1)
                },
            forall|j: int, k: int|
                0 <= j < k < items@.len() ==> (#[trigger] items@[j]).0 < (#[trigger] items@[k]).0,
            forall|j: int|
                0 <= j < i && is_selected(indices, j) ==> exists|k: int|
                    0 <= k < items@.len() && (#[trigger] items@[k]).0 == j,
    {
        assert(all[i as int] == shape.key());
        let selected = match &selection {
            Some(set) => find_slot(set, &i).1,
            None => true,
        };
        proof {
            if selection is Some {
                let set = selection->Some_0;
                let list = indices->Some_0@;
                assert(keys(set@).contains(i) <==> keys(set@).to_set().contains(i));
                assert(list.contains(i) <==> list.to_set().contains(i));
                if list.contains(i) {
                    let k = choose|k: int| 0 <= k < list.len() && list[k] == i;
                    assert(list[k] == i as int);
                }
            }
            assert(selected == is_selected(indices, i as int));
        }
        if selected {
            let ghost before = items@;
            items.push((i, ZKMCompressProgramShape::from_proof_shape(shape, height)));
            proof {
                assert forall|j: int| 0 <= j < i + 1 && is_selected(indices, j) implies exists|
                    k: int,
                |
                    0 <= k < items@.len() && (#[trigger] items@[k]).0 == j by {
                    if j < i {
                        let k = choose|k: int| 0 <= k < before.len() && (#[trigger] before[k]).0 == j;
                        assert(items@[k].0 == j);
                    } else {
                        assert(items@[before.len() as int].0 == j);
                    }
                }
            }
        }
        i = i + 1;
    }
    VkWork { num_shapes, height, chunk_size, items }
}

/// What a compiler worker reports of one shape where the shapes are only
/// checked.
#[derive(Debug, Clone, Copy, PartialEq, Eq, Structural)]
pub enum CompileOutcome {
    /// The shape was compiled into a program.
    Compiled,
    /// The shape could not be compiled.
    Fault,
}

/// Whether all shapes compile: no worker has reported a fault.
pub fn check_shapes(outcomes: &Vec<CompileOutcome>) -> (compress_ok: bool)
    ensures
        compress_ok == (forall|k: int|
            0 <= k < outcomes@.len() ==> #[trigger] outcomes@[k] == CompileOutcome::Compiled),
{
    let mut k: usize = 0;
    while k < outcomes.len()
        invariant
            k <= outcomes@.len(),
            forall|j: int| 0 <= j < k ==> #[trigger] outcomes@[j] == CompileOutcome::Compiled,
        decreases outcomes@.len() - k,
    {
        if outcomes[k] == CompileOutcome::Fault {
            return false;
        }
        k = k + 1;
    }
    true
}

/// The key map of a key set: each digest mapped to its rank in the set.
pub fn vk_map(vk_set: VkSet) -> (map: Vec<(VkDigest, usize)>)
    ensures
        map@.len() == vk_set@.len(),
        forall|i: int|
            0 <= i < map@.len() ==> (#[trigger] map@[i]).1 == i && map@[i].0.key() == vk_set@[i],
        strictly_increasing(vk_set@),
{
    let digests = vk_set.into_digests();
    let mut map: Vec<(VkDigest, usize)> = Vec::new();
    let mut i: usize = 0;
    while i < digests.len()
        invariant
            i <= digests@.len(),
            map@.len() == i,
            forall|j: int|
                0 <= j < i ==> (#[trigger] map@[j]).1 == j && map@[j].0 == digests@[j],
        decreases digests@.len() - i,
    {
        map.push((digests[i], i));
        i = i + 1;
    }
    assert forall|j: int| 0 <= j < map@.len() implies (#[trigger] map@[j]).1 == j && map@[j].0.key()
        == vk_set@[j] by {
        assert(keys(digests@)[j] == digests@[j].key());
    }
    map
}

/// The indices from `start` up to, not including, `end`.
pub open spec fn index_range(start: usize, end: usize) -> Seq<usize> {
    Seq::new(if start <= end { (end - start) as nat } else { 0 }, |k: int| (start + k) as usize)
}

/// The indices that a range restricts a derivation to: those from the start up
/// to, not including, the end where both are given; no restriction otherwise.
pub fn range_indices(range_start: Option<usize>, range_end: Option<usize>) -> (indices: Option<
    Vec<usize>,
>)
    ensures
        match (range_start, range_end) {
            (Some(start), Some(end)) => indices matches Some(list) && list@ == index_range(
                start,
                end,
            ),
            _ => indices is None,
        },
{
    match (range_start, range_end) {
        (Some(start), Some(end)) => {
            let mut list: Vec<usize> = Vec::new();
            let mut i: usize = start;
            while i < end
                invariant
                    start <= i,
                    i <= end || list@.len() == 0,
                    list@ == index_range(start, i),
                decreases end - i,
            {
                list.push(i);
                i = i + 1;
                assert(list@ =~= index_range(start, i));
            }
            assert(list@ =~= index_range(start, end));
            Some(list)
        },
        _ => None,
    }
}

/// The name of the file that holds the key map of a derivation.
pub open spec fn vk_map_file_name_spec(dummy: bool) -> Seq<char> {
    if dummy {
        "dummy_vk_map.bin"@
    } else {
        "vk_map.bin"@
    }
}

/// The name of the file that holds the key map: one name for a dummy derivation,
/// another for a real one.
pub fn vk_map_file_name(dummy: bool) -> (name: &'static str)
    ensures
        name@ == vk_map_file_name_spec(dummy),
{
    if dummy {
        "dummy_vk_map.bin"
    } else {
        "vk_map.bin"
    }
}

} // verus!
