use recursion_shapes::catalog::ShapeCatalog;
use recursion_shapes::field::{KoalaBear, VkDigest, DIGEST_SIZE};
use recursion_shapes::merkle::merkle_tree_height;
use recursion_shapes::program_shape::ZKMCompressProgramShape;
use recursion_shapes::shape::{OrderedShape, ZKMProofShape};
use recursion_shapes::vk_map::{
    build_vk_map, check_shapes, dummy_vk_map_of, range_indices, vk_map, vk_map_file_name, vk_work,
    CompileOutcome, ShapeOutcome,
};
use recursion_shapes::vk_set::VkSet;

fn shape(name: &str, height: usize) -> OrderedShape {
    OrderedShape::from_entries(vec![(name.to_string(), height)])
}

fn digest(values: [u32; DIGEST_SIZE]) -> VkDigest {
    values.map(KoalaBear::from_canonical_u32)
}

fn plain(digest: &VkDigest) -> [u32; DIGEST_SIZE] {
    digest.map(|e| e.as_canonical_u32())
}

fn plain_set(set: VkSet) -> Vec<[u32; DIGEST_SIZE]> {
    set.into_digests().iter().map(plain).collect()
}

fn five_leaves() -> Vec<ZKMProofShape> {
    (0..5).map(|k| ZKMProofShape::Recursion(shape("Cpu", 16 + k))).collect()
}

fn outcomes_of_five() -> Vec<(usize, ShapeOutcome)> {
    vec![
        (0, ShapeOutcome::Key(digest([9, 0, 0, 0, 0, 0, 0, 1]))),
        (1, ShapeOutcome::Key(digest([3, 5, 0, 0, 0, 0, 0, 0]))),
        (2, ShapeOutcome::Key(digest([3, 4, 9, 9, 9, 9, 9, 9]))),
        (3, ShapeOutcome::Key(digest([0, 0, 0, 0, 0, 0, 0, 2]))),
        (4, ShapeOutcome::Key(digest([0, 0, 0, 0, 0, 0, 0, 1]))),
    ]
}

#[test]
fn the_key_set_is_sorted_digest_by_digest() {
    let (vk_set, panic_indices, height) = build_vk_map(five_leaves(), false, outcomes_of_five());
    assert_eq!(
        plain_set(vk_set),
        vec![
            [0, 0, 0, 0, 0, 0, 0, 1],
            [0, 0, 0, 0, 0, 0, 0, 2],
            [3, 4, 9, 9, 9, 9, 9, 9],
            [3, 5, 0, 0, 0, 0, 0, 0],
            [9, 0, 0, 0, 0, 0, 0, 1],
        ]
    );
    assert!(panic_indices.is_empty());
    assert_eq!(height, 3);
}

#[test]
fn the_key_set_does_not_depend_on_the_order_of_arrival() {
    let reference = plain_set(build_vk_map(five_leaves(), false, outcomes_of_five()).0);
    let mut outcomes = outcomes_of_five();
    for round in 0..outcomes.len() {
        outcomes.rotate_left(1);
        if round % 2 == 1 {
            outcomes.swap(0, 3);
        }
        let (vk_set, panic_indices, height) = build_vk_map(five_leaves(), false, outcomes.clone());
        assert_eq!(plain_set(vk_set), reference);
        assert!(panic_indices.is_empty());
        assert_eq!(height, 3);
    }
    outcomes.reverse();
    assert_eq!(plain_set(build_vk_map(five_leaves(), false, outcomes).0), reference);
}

#[test]
fn a_digest_reported_twice_is_held_once() {
    let d = digest([1, 2, 3, 4, 5, 6, 7, 8]);
    let outcomes = vec![(0, ShapeOutcome::Key(d)), (1, ShapeOutcome::Key(d))];
    let (vk_set, _, _) = build_vk_map(five_leaves(), false, outcomes);
    assert_eq!(plain_set(vk_set), vec![[1, 2, 3, 4, 5, 6, 7, 8]]);
}

#[test]
fn a_fault_is_recorded_and_the_others_are_kept() {
    let mut outcomes = outcomes_of_five();
    outcomes[2] = (2, ShapeOutcome::CompilationFault);
    let (vk_set, panic_indices, height) = build_vk_map(five_leaves(), false, outcomes);
    assert_eq!(panic_indices, vec![2]);
    assert_eq!(
        plain_set(vk_set),
        vec![
            [0, 0, 0, 0, 0, 0, 0, 1],
            [0, 0, 0, 0, 0, 0, 0, 2],
            [3, 5, 0, 0, 0, 0, 0, 0],
            [9, 0, 0, 0, 0, 0, 0, 1],
        ]
    );
    assert_eq!(height, 3);
}

#[test]
fn faults_of_both_stages_are_listed_in_order_of_arrival() {
    let outcomes = vec![
        (4, ShapeOutcome::SetupFault),
        (0, ShapeOutcome::Key(digest([1; DIGEST_SIZE]))),
        (1, ShapeOutcome::CompilationFault),
        (3, ShapeOutcome::Key(digest([2; DIGEST_SIZE]))),
        (2, ShapeOutcome::CompilationFault),
    ];
    let (vk_set, panic_indices, _) = build_vk_map(five_leaves(), false, outcomes);
    assert_eq!(panic_indices, vec![4, 1, 2]);
    assert_eq!(plain_set(vk_set), vec![[1; DIGEST_SIZE], [2; DIGEST_SIZE]]);
}

#[test]
fn nothing_reported_gives_an_empty_set() {
    let (vk_set, panic_indices, height) = build_vk_map(five_leaves(), false, vec![]);
    assert_eq!(vk_set.len(), 0);
    assert!(panic_indices.is_empty());
    assert_eq!(height, 3);
}

#[test]
fn the_height_counts_each_shape_of_the_catalog_once() {
    let mut shapes = five_leaves();
    shapes.extend(five_leaves());
    let (_, _, height) = build_vk_map(shapes, false, vec![]);
    assert_eq!(height, merkle_tree_height(5));
    let (_, _, none) = build_vk_map(vec![], false, vec![]);
    assert_eq!(none, 0);
}

#[test]
fn a_dummy_derivation_has_one_digest_for_each_shape() {
    let (vk_set, panic_indices, height) = build_vk_map(five_leaves(), true, vec![]);
    assert_eq!(
        plain_set(vk_set),
        vec![[0; DIGEST_SIZE], [1; DIGEST_SIZE], [2; DIGEST_SIZE], [3; DIGEST_SIZE], [4; DIGEST_SIZE]]
    );
    assert!(panic_indices.is_empty());
    assert_eq!(height, 3);
}

#[test]
fn a_dummy_derivation_ignores_what_was_reported() {
    let (vk_set, panic_indices, _) = build_vk_map(five_leaves(), true, outcomes_of_five());
    assert_eq!(vk_set.len(), 5);
    assert!(vk_set.contains(&digest([4; DIGEST_SIZE])));
    assert!(!vk_set.contains(&digest([9, 0, 0, 0, 0, 0, 0, 1])));
    assert!(panic_indices.is_empty());
}

#[test]
fn a_dummy_derivation_counts_each_shape_of_the_catalog_once() {
    let mut shapes = five_leaves();
    shapes.extend(five_leaves());
    let (vk_set, panic_indices, height) = build_vk_map(shapes, true, vec![]);
    assert_eq!(
        plain_set(vk_set),
        vec![[0; DIGEST_SIZE], [1; DIGEST_SIZE], [2; DIGEST_SIZE], [3; DIGEST_SIZE], [4; DIGEST_SIZE]]
    );
    assert!(panic_indices.is_empty());
    assert_eq!(height, 3);
}

#[test]
fn a_dummy_derivation_of_one_shape_enumerated_twice_has_one_digest() {
    let leaf = ZKMProofShape::Recursion(shape("Cpu", 20));
    let (vk_set, panic_indices, height) = build_vk_map(vec![leaf.clone(), leaf], true, vec![]);
    assert_eq!(plain_set(vk_set), vec![[0; DIGEST_SIZE]]);
    assert!(panic_indices.is_empty());
    assert_eq!(height, 0);
}

#[test]
fn a_dummy_derivation_of_no_shape_is_empty() {
    let (vk_set, panic_indices, height) = build_vk_map(vec![], true, vec![]);
    assert_eq!(vk_set.len(), 0);
    assert!(panic_indices.is_empty());
    assert_eq!(height, 0);
}

#[test]
fn a_dummy_derivation_records_no_fault_whatever_is_reported() {
    let outcomes = vec![(0, ShapeOutcome::CompilationFault), (1, ShapeOutcome::SetupFault)];
    let (vk_set, panic_indices, height) = build_vk_map(five_leaves(), true, outcomes);
    assert_eq!(vk_set.len(), 5);
    assert!(panic_indices.is_empty());
    assert_eq!(height, 3);
}

#[test]
fn a_dummy_derivation_hands_out_no_work() {
    let work = vk_work(ShapeCatalog::collect(five_leaves()), true, None);
    assert!(work.items.is_empty());
    assert_eq!(work.chunk_size, 0);
    assert_eq!(work.num_shapes, 5);
    assert_eq!(work.height, 3);
    let work = vk_work(ShapeCatalog::collect(five_leaves()), true, Some(vec![1, 2]));
    assert!(work.items.is_empty());
    assert_eq!(work.chunk_size, 0);
    assert_eq!(work.height, 3);
}

#[test]
fn the_heights_of_work_and_key_set_agree() {
    let mut shapes = five_leaves();
    shapes.extend(five_leaves());
    for dummy in [true, false] {
        let work = vk_work(ShapeCatalog::collect(shapes.clone()), dummy, None);
        let (_, _, height) = build_vk_map(shapes.clone(), dummy, vec![]);
        assert_eq!(work.height, height);
        assert_eq!(height, 3);
    }
}

#[test]
fn the_dummy_key_map_maps_each_digest_to_its_index() {
    let map = dummy_vk_map_of(3);
    assert_eq!(map.len(), 3);
    for (i, (d, index)) in map.iter().enumerate() {
        assert_eq!(*index, i);
        assert_eq!(plain(d), [i as u32; DIGEST_SIZE]);
    }
    assert!(dummy_vk_map_of(0).is_empty());
}

#[test]
fn the_dummy_key_map_of_a_configuration_counts_a_repeated_shape_once() {
    let r = shape("BaseAlu", 16);
    let map = ZKMProofShape::dummy_vk_map(
        vec![shape("Cpu", 20), shape("Cpu", 20), shape("Cpu", 21)],
        vec![vec![vec![r.clone()], vec![r.clone()]]],
        vec![vec![r.clone()]],
        vec![vec![r.clone()]],
    );
    assert_eq!(map.len(), 5);
    for (i, (d, index)) in map.iter().enumerate() {
        assert_eq!(*index, i);
        assert_eq!(plain(d), [i as u32; DIGEST_SIZE]);
    }
}

#[test]
fn the_dummy_key_map_of_a_configuration_has_one_entry_for_each_shape() {
    let r = shape("BaseAlu", 16);
    let map = ZKMProofShape::dummy_vk_map(
        vec![shape("Cpu", 20), shape("Cpu", 21)],
        vec![vec![vec![r.clone()]]],
        vec![vec![r.clone()]],
        vec![vec![r.clone()]],
    );
    assert_eq!(map.len(), 5);
    assert_eq!(plain(&map[4].0), [4; DIGEST_SIZE]);
    assert_eq!(map[4].1, 4);
}

#[test]
fn work_covers_the_whole_catalog_without_indices() {
    let catalog = ShapeCatalog::collect(five_leaves());
    let work = vk_work(catalog, false, None);
    assert_eq!(work.num_shapes, 5);
    assert_eq!(work.height, 3);
    assert_eq!(work.chunk_size, 5);
    let indices: Vec<usize> = work.items.iter().map(|(i, _)| *i).collect();
    assert_eq!(indices, vec![0, 1, 2, 3, 4]);
}

#[test]
fn work_covers_exactly_the_given_indices() {
    let catalog = ShapeCatalog::collect(five_leaves());
    let work = vk_work(catalog, false, Some(vec![3, 1]));
    assert_eq!(work.num_shapes, 5);
    assert_eq!(work.height, 3);
    assert_eq!(work.chunk_size, 2);
    let indices: Vec<usize> = work.items.iter().map(|(i, _)| *i).collect();
    assert_eq!(indices, vec![1, 3]);
    match &work.items[0].1 {
        ZKMCompressProgramShape::Recursion(r) => assert_eq!(r.proof_shapes, vec![shape("Cpu", 17)]),
        other => panic!("not a recursion shape: {:?}", other),
    }
    match &work.items[1].1 {
        ZKMCompressProgramShape::Recursion(r) => assert_eq!(r.proof_shapes, vec![shape("Cpu", 19)]),
        other => panic!("not a recursion shape: {:?}", other),
    }
}

#[test]
fn the_height_of_a_subset_is_that_of_the_whole_catalog() {
    let r = shape("BaseAlu", 16);
    let mut shapes = five_leaves();
    shapes.push(ZKMProofShape::Shrink(r.clone()));
    shapes.push(ZKMProofShape::Deferred(r.clone()));
    shapes.push(ZKMProofShape::Compress(vec![r.clone(), r.clone()]));
    shapes.push(ZKMProofShape::Compress(vec![r.clone()]));
    let work = vk_work(ShapeCatalog::collect(shapes), false, Some(vec![6]));
    assert_eq!(work.num_shapes, 9);
    assert_eq!(work.height, 4);
    assert_eq!(work.items.len(), 1);
    assert_eq!(work.items[0].0, 6);
    match &work.items[0].1 {
        ZKMCompressProgramShape::Compress(c) => {
            assert_eq!(c.compress_shape.proof_shapes, vec![r.clone(), r]);
            assert_eq!(c.merkle_tree_height, 4);
        }
        other => panic!("not a compress shape: {:?}", other),
    }
}

#[test]
fn indices_beyond_the_catalog_select_nothing() {
    let work = vk_work(ShapeCatalog::collect(five_leaves()), false, Some(vec![7, 5, 4, 7]));
    let indices: Vec<usize> = work.items.iter().map(|(i, _)| *i).collect();
    assert_eq!(indices, vec![4]);
    assert_eq!(work.chunk_size, 3);
    assert_eq!(work.height, 3);
}

#[test]
fn an_empty_list_of_indices_selects_nothing() {
    let work = vk_work(ShapeCatalog::collect(five_leaves()), false, Some(vec![]));
    assert!(work.items.is_empty());
    assert_eq!(work.chunk_size, 0);
    assert_eq!(work.height, 3);
}

#[test]
fn the_indices_of_the_work_are_those_of_the_catalog() {
    let r = shape("BaseAlu", 16);
    let shapes = vec![
        ZKMProofShape::Shrink(r.clone()),
        ZKMProofShape::Deferred(r.clone()),
        ZKMProofShape::Recursion(shape("Cpu", 20)),
        ZKMProofShape::Compress(vec![r.clone()]),
    ];
    let work = vk_work(ShapeCatalog::collect(shapes), false, None);
    assert!(matches!(work.items[0], (0, ZKMCompressProgramShape::Recursion(_))));
    assert!(matches!(work.items[1], (1, ZKMCompressProgramShape::Compress(_))));
    assert!(matches!(work.items[2], (2, ZKMCompressProgramShape::Deferred(_))));
    assert!(matches!(work.items[3], (3, ZKMCompressProgramShape::Shrink(_))));
    assert!(work.items[3].1.is_shrink());
    assert_eq!(work.height, 2);
}

#[test]
fn a_check_passes_when_nothing_faulted() {
    assert!(check_shapes(&vec![CompileOutcome::Compiled, CompileOutcome::Compiled]));
    assert!(check_shapes(&vec![]));
}

#[test]
fn a_check_fails_on_one_fault() {
    assert!(!check_shapes(&vec![
        CompileOutcome::Compiled,
        CompileOutcome::Fault,
        CompileOutcome::Compiled
    ]));
    assert!(!check_shapes(&vec![CompileOutcome::Fault]));
}

#[test]
fn the_key_map_gives_each_digest_its_rank() {
    let (vk_set, _, _) = build_vk_map(five_leaves(), false, outcomes_of_five());
    let map = vk_map(vk_set);
    assert_eq!(map.len(), 5);
    assert_eq!((plain(&map[0].0), map[0].1), ([0, 0, 0, 0, 0, 0, 0, 1], 0));
    assert_eq!((plain(&map[2].0), map[2].1), ([3, 4, 9, 9, 9, 9, 9, 9], 2));
    assert_eq!((plain(&map[4].0), map[4].1), ([9, 0, 0, 0, 0, 0, 0, 1], 4));
}

#[test]
fn a_range_gives_the_indices_up_to_its_end() {
    assert_eq!(range_indices(Some(2), Some(5)), Some(vec![2, 3, 4]));
    assert_eq!(range_indices(Some(0), Some(1)), Some(vec![0]));
}

#[test]
fn an_empty_or_reversed_range_gives_no_index() {
    assert_eq!(range_indices(Some(4), Some(4)), Some(vec![]));
    assert_eq!(range_indices(Some(5), Some(2)), Some(vec![]));
}

#[test]
fn a_range_with_one_end_missing_is_no_restriction() {
    assert_eq!(range_indices(Some(2), None), None);
    assert_eq!(range_indices(None, Some(5)), None);
    assert_eq!(range_indices(None, None), None);
}

#[test]
fn the_file_is_named_after_the_kind_of_derivation() {
    assert_eq!(vk_map_file_name(true), "dummy_vk_map.bin");
    assert_eq!(vk_map_file_name(false), "vk_map.bin");
}

#[test]
fn a_key_set_sorts_what_is_inserted() {
    let mut set = VkSet::new();
    assert!(set.insert(digest([2; DIGEST_SIZE])));
    assert!(set.insert(digest([1; DIGEST_SIZE])));
    assert!(!set.insert(digest([2; DIGEST_SIZE])));
    assert!(set.insert(digest([1, 1, 1, 1, 1, 1, 1, 0])));
    assert_eq!(set.len(), 3);
    assert!(set.contains(&digest([1; DIGEST_SIZE])));
    assert!(!set.contains(&digest([3; DIGEST_SIZE])));
    assert_eq!(
        plain_set(set),
        vec![[1, 1, 1, 1, 1, 1, 1, 0], [1; DIGEST_SIZE], [2; DIGEST_SIZE]]
    );
}

#[test]
fn a_key_set_is_ordered_as_the_proving_stack_orders_digests() {
    let digests = [
        [5u32, 0, 0, 0, 0, 0, 0, 0],
        [0, 0, 0, 0, 0, 0, 0, 5],
        [2130706432, 0, 0, 0, 0, 0, 0, 0],
        [0, 2130706432, 0, 0, 0, 0, 0, 0],
        [1, 2, 3, 4, 5, 6, 7, 8],
        [1, 2, 3, 4, 5, 6, 7, 7],
    ];
    let set = VkSet::collect(digests.iter().map(|d| digest(*d)).collect());
    let mut outside: Vec<[p3_koala_bear::KoalaBear; DIGEST_SIZE]> = digests
        .iter()
        .map(|d| d.map(<p3_koala_bear::KoalaBear as p3_field::AbstractField>::from_canonical_u32))
        .collect();
    outside.sort();
    let expected: Vec<[u32; DIGEST_SIZE]> = outside
        .iter()
        .map(|d| d.map(|e| p3_field::PrimeField32::as_canonical_u32(&e)))
        .collect();
    assert_eq!(plain_set(set), expected);
}
