//! Proof shapes: which tables a proof's trace holds, and how high each is.

use crate::canonical::{collect_canonical, is_canonical, lemma_strictly_increasing_unique, strictly_increasing};
use crate::order::{keys, Keyed, StrictOrder};
use vstd::prelude::*;

verus! {

/// The tables of a shape with their log-heights, as mathematical values: pairs of
/// a table's identifier and its log-height.
pub type TableHeights = Seq<(Seq<char>, usize)>;

/// The log-heights of a set of tables, kept in canonical order.
#[derive(Debug, Clone, PartialEq, Eq, PartialOrd, Ord, Hash)]
pub struct OrderedShape {
    /// Pairs of a table's identifier and its log-height.
    pub inner: Vec<(String, usize)>,
}

impl View for OrderedShape {
    type V = TableHeights;

    open spec fn view(&self) -> TableHeights {
        self.key()
    }
}

impl Keyed for OrderedShape {
    type Key = TableHeights;

    open spec fn key(&self) -> TableHeights {
        keys(self.inner@)
    }

    fn precedes(&self, other: &OrderedShape) -> (r: bool) {
        assert(self.key().before(other.key()) == self.inner.key().before(other.inner.key()));
        self.inner.precedes(&other.inner)
    }
}

/// The identifiers of the tables, in the order of the entries.
pub open spec fn table_names(heights: TableHeights) -> Seq<Seq<char>> {
    Seq::new(heights.len(), |i: int| heights[i].0)
}

impl OrderedShape {
    /// The entries are in canonical order: sorted by table identifier, then by
    /// log-height, and none occurs twice.
    pub open spec fn is_ordered(&self) -> bool {
        strictly_increasing(self@)
    }

    /// The shape is a mapping in canonical order: the table identifiers strictly
    /// increase, so each table has one log-height.
    pub open spec fn is_mapping(&self) -> bool {
        strictly_increasing(table_names(self@))
    }

    /// The shape of the given entries, whatever their order: sorted by table
    /// identifier (and by log-height where an identifier repeats), an entry that
    /// occurs several times being kept once. Where the entries give each table
    /// one log-height, the shape is a mapping.
    pub fn from_entries(entries: Vec<(String, usize)>) -> (shape: OrderedShape)
        ensures
            shape.is_ordered(),
            shape@.to_set() == keys(entries@).to_set(),
            shape@.len() <= entries@.len(),
            one_height_per_table(keys(entries@)) ==> shape.is_mapping(),
    {
        let shape = OrderedShape { inner: collect_canonical(entries) };
        proof {
            if one_height_per_table(keys(entries@)) {
                lemma_ordered_mapping(shape@, keys(entries@));
            }
        }
        shape
    }

    /// The number of tables.
    pub fn len(&self) -> (n: usize)
        ensures
            n == self@.len(),
    {
        self.inner.len()
    }
}

/// No table is given two different log-heights.
pub open spec fn one_height_per_table(heights: TableHeights) -> bool {
    forall|i: int, j: int|
        0 <= i < heights.len() && 0 <= j < heights.len() && (#[trigger] heights[i]).0
            == (#[trigger] heights[j]).0 ==> heights[i].1 == heights[j].1
}

/// Entries in canonical order that give each table one log-height are sorted by
/// table identifier alone.
proof fn lemma_ordered_mapping(ordered: TableHeights, entries: TableHeights)
    requires
        strictly_increasing(ordered),
        ordered.to_set() == entries.to_set(),
        one_height_per_table(entries),
    ensures
        strictly_increasing(table_names(ordered)),
{
    let names = table_names(ordered);
    assert forall|i: int, j: int| 0 <= i < j < names.len() implies (#[trigger] names[i]).before(
        #[trigger] names[j],
    ) by {
        assert(ordered[i].before(ordered[j]));
        if ordered[i].0 == ordered[j].0 {
            assert(ordered.contains(ordered[i]));
            assert(ordered.contains(ordered[j]));
            assert(ordered.to_set().contains(ordered[i]));
            assert(ordered.to_set().contains(ordered[j]));
            assert(entries.contains(ordered[i]));
            assert(entries.contains(ordered[j]));
            let p = choose|p: int| 0 <= p < entries.len() && entries[p] == ordered[i];
            let q = choose|q: int| 0 <= q < entries.len() && entries[q] == ordered[j];
            assert(entries[p].0 == entries[q].0);
            usize::lemma_irreflexive(ordered[i].1);
        }
    }
}

/// A shape does not depend on the order in which its entries were given: two
/// ordered shapes with the same entries are equal.
pub proof fn lemma_shape_independent_of_construction_order(a: OrderedShape, b: OrderedShape)
    requires
        a.is_ordered(),
        b.is_ordered(),
        a@.to_set() == b@.to_set(),
    ensures
        a@ == b@,
{
    lemma_strictly_increasing_unique(a@, b@);
}

/// A mapping in canonical order is ordered.
pub proof fn lemma_mapping_is_ordered(a: OrderedShape)
    requires
        a.is_mapping(),
    ensures
        a.is_ordered(),
{
    let names = table_names(a@);
    assert forall|i: int, j: int| 0 <= i < j < a@.len() implies (#[trigger] a@[i]).before(
        #[trigger] a@[j],
    ) by {
        assert(names[i].before(names[j]));
    }
}

/// The shape of one proof that the universal verifier accepts.
#[derive(Debug, Clone, PartialEq, Eq, PartialOrd, Ord, Hash)]
pub enum ZKMProofShape {
    /// A leaf proof over one core shard.
    Recursion(OrderedShape),
    /// A proof that verifies a batch of inner proofs, one shape for each.
    Compress(Vec<OrderedShape>),
    /// A proof over one deferred item.
    Deferred(OrderedShape),
    /// The final, shrinking step.
    Shrink(OrderedShape),
}

/// A proof shape as a mathematical value.
pub enum ProofShapeKey {
    Recursion(TableHeights),
    Compress(Seq<TableHeights>),
    Deferred(TableHeights),
    Shrink(TableHeights),
}

impl ProofShapeKey {
    /// The place of the category among the four.
    pub open spec fn rank(self) -> int {
        match self {
            ProofShapeKey::Recursion(_) => 0,
            ProofShapeKey::Compress(_) => 1,
            ProofShapeKey::Deferred(_) => 2,
            ProofShapeKey::Shrink(_) => 3,
        }
    }
}

/// Proof shapes are ordered by category (recursion, compress, deferred, shrink),
/// and within a category by their tables.
impl StrictOrder for ProofShapeKey {
    open spec fn before(self, other: ProofShapeKey) -> bool {
        match (self, other) {
            (ProofShapeKey::Recursion(a), ProofShapeKey::Recursion(b)) => a.before(b),
            (ProofShapeKey::Compress(a), ProofShapeKey::Compress(b)) => a.before(b),
            (ProofShapeKey::Deferred(a), ProofShapeKey::Deferred(b)) => a.before(b),
            (ProofShapeKey::Shrink(a), ProofShapeKey::Shrink(b)) => a.before(b),
            _ => self.rank() < other.rank(),
        }
    }

    proof fn lemma_irreflexive(a: ProofShapeKey) {
        match a {
            ProofShapeKey::Recursion(x) => TableHeights::lemma_irreflexive(x),
            ProofShapeKey::Compress(x) => Seq::<TableHeights>::lemma_irreflexive(x),
            ProofShapeKey::Deferred(x) => TableHeights::lemma_irreflexive(x),
            ProofShapeKey::Shrink(x) => TableHeights::lemma_irreflexive(x),
        }
    }

    proof fn lemma_transitive(a: ProofShapeKey, b: ProofShapeKey, c: ProofShapeKey) {
        match (a, b, c) {
            (
                ProofShapeKey::Recursion(x),
                ProofShapeKey::Recursion(y),
                ProofShapeKey::Recursion(z),
            ) => TableHeights::lemma_transitive(x, y, z),
            (
                ProofShapeKey::Compress(x),
                ProofShapeKey::Compress(y),
                ProofShapeKey::Compress(z),
            ) => Seq::<TableHeights>::lemma_transitive(x, y, z),
            (
                ProofShapeKey::Deferred(x),
                ProofShapeKey::Deferred(y),
                ProofShapeKey::Deferred(z),
            ) => TableHeights::lemma_transitive(x, y, z),
            (ProofShapeKey::Shrink(x), ProofShapeKey::Shrink(y), ProofShapeKey::Shrink(z)) => {
                TableHeights::lemma_transitive(x, y, z)
            },
            _ => {},
        }
    }

    proof fn lemma_connected(a: ProofShapeKey, b: ProofShapeKey) {
        match (a, b) {
            (ProofShapeKey::Recursion(x), ProofShapeKey::Recursion(y)) => {
                TableHeights::lemma_connected(x, y)
            },
            (ProofShapeKey::Compress(x), ProofShapeKey::Compress(y)) => {
                Seq::<TableHeights>::lemma_connected(x, y)
            },
            (ProofShapeKey::Deferred(x), ProofShapeKey::Deferred(y)) => {
                TableHeights::lemma_connected(x, y)
            },
            (ProofShapeKey::Shrink(x), ProofShapeKey::Shrink(y)) => {
                TableHeights::lemma_connected(x, y)
            },
            _ => {},
        }
    }
}

impl View for ZKMProofShape {
    type V = ProofShapeKey;

    open spec fn view(&self) -> ProofShapeKey {
        self.key()
    }
}

impl Keyed for ZKMProofShape {
    type Key = ProofShapeKey;

    open spec fn key(&self) -> ProofShapeKey {
        match self {
            ZKMProofShape::Recursion(s) => ProofShapeKey::Recursion(s.key()),
            ZKMProofShape::Compress(s) => ProofShapeKey::Compress(keys(s@)),
            ZKMProofShape::Deferred(s) => ProofShapeKey::Deferred(s.key()),
            ZKMProofShape::Shrink(s) => ProofShapeKey::Shrink(s.key()),
        }
    }

    fn precedes(&self, other: &ZKMProofShape) -> (r: bool) {
        assert(self.key().before(other.key()) == (match (self, other) {
            (ZKMProofShape::Recursion(a), ZKMProofShape::Recursion(b)) => a.key().before(b.key()),
            (ZKMProofShape::Compress(a), ZKMProofShape::Compress(b)) => a.key().before(b.key()),
            (ZKMProofShape::Deferred(a), ZKMProofShape::Deferred(b)) => a.key().before(b.key()),
            (ZKMProofShape::Shrink(a), ZKMProofShape::Shrink(b)) => a.key().before(b.key()),
            _ => self.key().rank() < other.key().rank(),
        }));
        match (self, other) {
            (ZKMProofShape::Recursion(a), ZKMProofShape::Recursion(b)) => a.precedes(b),
            (ZKMProofShape::Compress(a), ZKMProofShape::Compress(b)) => a.precedes(b),
            (ZKMProofShape::Deferred(a), ZKMProofShape::Deferred(b)) => a.precedes(b),
            (ZKMProofShape::Shrink(a), ZKMProofShape::Shrink(b)) => a.precedes(b),
            _ => self.category_rank() < other.category_rank(),
        }
    }
}

impl ZKMProofShape {
    /// The place of the shape's category among the four.
    pub fn category_rank(&self) -> (r: u8)
        ensures
            r == self@.rank(),
    {
        match self {
            ZKMProofShape::Recursion(_) => 0,
            ZKMProofShape::Compress(_) => 1,
            ZKMProofShape::Deferred(_) => 2,
            ZKMProofShape::Shrink(_) => 3,
        }
    }
}

/// The leaf shapes: each core shape as a recursion shape.
pub open spec fn recursion_shapes(core: Seq<OrderedShape>) -> Seq<ZKMProofShape> {
    Seq::new(core.len(), |i: int| ZKMProofShape::Recursion(core[i]))
}

/// Each combination as a compress shape.
pub open spec fn compress_shapes(combinations: Seq<Vec<OrderedShape>>) -> Seq<ZKMProofShape> {
    Seq::new(combinations.len(), |i: int| ZKMProofShape::Compress(combinations[i]))
}

/// The last shape of each combination as a deferred shape.
pub open spec fn deferred_shapes(combinations: Seq<Vec<OrderedShape>>) -> Seq<ZKMProofShape> {
    Seq::new(combinations.len(), |i: int| ZKMProofShape::Deferred(combinations[i]@.last()))
}

/// The last shape of each combination as a shrink shape.
pub open spec fn shrink_shapes(combinations: Seq<Vec<OrderedShape>>) -> Seq<ZKMProofShape> {
    Seq::new(combinations.len(), |i: int| ZKMProofShape::Shrink(combinations[i]@.last()))
}

/// The combinations of all batch sizes, those of the first batch size first.
pub open spec fn all_combinations(by_batch_size: Seq<Vec<Vec<OrderedShape>>>) -> Seq<
    Vec<OrderedShape>,
> {
    Seq::new(by_batch_size.len(), |i: int| by_batch_size[i]@).flatten()
}

/// Every shape of a key derivation, in the order of enumeration: the leaf shapes,
/// the compress shapes of every batch size, the deferred shapes, the shrink shapes.
pub open spec fn generated_shapes(
    core: Seq<OrderedShape>,
    compress: Seq<Vec<Vec<OrderedShape>>>,
    deferred: Seq<Vec<OrderedShape>>,
    shrink: Seq<Vec<OrderedShape>>,
) -> Seq<ZKMProofShape> {
    recursion_shapes(core) + compress_shapes(all_combinations(compress)) + deferred_shapes(
        deferred,
    ) + shrink_shapes(shrink)
}

/// Every shape of a key derivation as a mathematical value, from the contents of
/// the configurations: the leaf shapes, the compress shapes of every batch size,
/// the deferred shapes, the shrink shapes.
pub open spec fn generated_keys(
    core: Seq<TableHeights>,
    compress: Seq<Seq<Seq<TableHeights>>>,
    deferred: Seq<Seq<TableHeights>>,
    shrink: Seq<Seq<TableHeights>>,
) -> Seq<ProofShapeKey> {
    Seq::new(core.len(), |i: int| ProofShapeKey::Recursion(core[i])) + Seq::new(
        compress.flatten().len(),
        |i: int| ProofShapeKey::Compress(compress.flatten()[i]),
    ) + Seq::new(deferred.len(), |i: int| ProofShapeKey::Deferred(deferred[i].last())) + Seq::new(
        shrink.len(),
        |i: int| ProofShapeKey::Shrink(shrink[i].last()),
    )
}

/// The keys of a concatenation are the keys of its parts, concatenated.
proof fn lemma_keys_of_concatenation<T: Keyed>(a: Seq<T>, b: Seq<T>)
    ensures
        keys(a + b) == keys(a) + keys(b),
{
    assert(keys(a + b) =~= keys(a) + keys(b));
}

/// The combinations of all batch sizes, as mathematical values, are the
/// combinations of each batch size, one batch size after the other.
proof fn lemma_keys_of_all_combinations(by_batch_size: Seq<Vec<Vec<OrderedShape>>>)
    ensures
        keys(all_combinations(by_batch_size)) == keys(by_batch_size).flatten(),
    decreases by_batch_size.len(),
{
    let views = Seq::new(by_batch_size.len(), |i: int| by_batch_size[i]@);
    let contents = keys(by_batch_size);
    if by_batch_size.len() == 0 {
        assert(keys(all_combinations(by_batch_size)) =~= contents.flatten());
    } else {
        let rest = by_batch_size.drop_first();
        let rest_views = Seq::new(rest.len(), |i: int| rest[i]@);
        lemma_keys_of_all_combinations(rest);
        assert(views.drop_first() =~= rest_views);
        assert(contents.drop_first() =~= keys(rest));
        assert(contents.first() == keys(views.first()));
        lemma_keys_of_concatenation(views.first(), rest_views.flatten());
    }
}

/// The enumeration as mathematical values depends on the contents of the
/// configurations alone.
pub proof fn lemma_generated_keys(
    core: Seq<OrderedShape>,
    compress: Seq<Vec<Vec<OrderedShape>>>,
    deferred: Seq<Vec<OrderedShape>>,
    shrink: Seq<Vec<OrderedShape>>,
)
    requires
        all_nonempty(deferred),
        all_nonempty(shrink),
    ensures
        keys(generated_shapes(core, compress, deferred, shrink)) == generated_keys(
            keys(core),
            keys(compress),
            keys(deferred),
            keys(shrink),
        ),
{
    let a = recursion_shapes(core);
    let b = compress_shapes(all_combinations(compress));
    let c = deferred_shapes(deferred);
    let d = shrink_shapes(shrink);
    lemma_keys_of_all_combinations(compress);
    let flat = keys(compress).flatten();
    assert(keys(a) =~= Seq::new(keys(core).len(), |i: int| ProofShapeKey::Recursion(keys(core)[i])));
    assert(keys(b) =~= Seq::new(flat.len(), |i: int| ProofShapeKey::Compress(flat[i]))) by {
        assert forall|i: int| 0 <= i < b.len() implies keys(b)[i] == ProofShapeKey::Compress(
            flat[i],
        ) by {
            assert(keys(all_combinations(compress))[i] == all_combinations(compress)[i].key());
        }
    }
    assert(keys(c) =~= Seq::new(
        keys(deferred).len(),
        |i: int| ProofShapeKey::Deferred(keys(deferred)[i].last()),
    )) by {
        assert forall|i: int| 0 <= i < c.len() implies keys(c)[i] == ProofShapeKey::Deferred(
            keys(deferred)[i].last(),
        ) by {
            assert(deferred[i]@.len() > 0);
            assert(keys(deferred)[i] == keys(deferred[i]@));
        }
    }
    assert(keys(d) =~= Seq::new(
        keys(shrink).len(),
        |i: int| ProofShapeKey::Shrink(keys(shrink)[i].last()),
    )) by {
        assert forall|i: int| 0 <= i < d.len() implies keys(d)[i] == ProofShapeKey::Shrink(
            keys(shrink)[i].last(),
        ) by {
            assert(shrink[i]@.len() > 0);
            assert(keys(shrink)[i] == keys(shrink[i]@));
        }
    }
    lemma_keys_of_concatenation(a, b);
    lemma_keys_of_concatenation(a + b, c);
    lemma_keys_of_concatenation(a + b + c, d);
}

/// No combination is empty.
pub open spec fn all_nonempty(combinations: Seq<Vec<OrderedShape>>) -> bool {
    forall|i: int| 0 <= i < combinations.len() ==> (#[trigger] combinations[i])@.len() > 0
}

/// Adds the recursion shape of each core shape.
fn push_recursion_shapes(shapes: &mut Vec<ZKMProofShape>, core: Vec<OrderedShape>)
    ensures
        final(shapes)@ == old(shapes)@ + recursion_shapes(core@),
{
    let ghost start = shapes@;
    for shape in it: core
        invariant
            shapes@ == start + recursion_shapes(it.seq().take(it.index())),
    {
        proof {
            let done = it.seq().take(it.index());
            let next = it.seq().take(it.index() + 1);
            assert(recursion_shapes(next) =~= recursion_shapes(done).push(
                ZKMProofShape::Recursion(shape),
            ));
        }
        shapes.push(ZKMProofShape::Recursion(shape));
    }
    assert(core@.take(core@.len() as int) =~= core@);
}

/// Adds the compress shape of each combination.
fn push_compress_shapes(shapes: &mut Vec<ZKMProofShape>, combinations: Vec<Vec<OrderedShape>>)
    ensures
        final(shapes)@ == old(shapes)@ + compress_shapes(combinations@),
{
    let ghost start = shapes@;
    for combination in it: combinations
        invariant
            shapes@ == start + compress_shapes(it.seq().take(it.index())),
    {
        proof {
            let done = it.seq().take(it.index());
            let next = it.seq().take(it.index() + 1);
            assert(compress_shapes(next) =~= compress_shapes(done).push(
                ZKMProofShape::Compress(combination),
            ));
        }
        shapes.push(ZKMProofShape::Compress(combination));
    }
    assert(combinations@.take(combinations@.len() as int) =~= combinations@);
}

/// Adds the deferred shape of each combination.
fn push_deferred_shapes(shapes: &mut Vec<ZKMProofShape>, combinations: Vec<Vec<OrderedShape>>)
    requires
        all_nonempty(combinations@),
    ensures
        final(shapes)@ == old(shapes)@ + deferred_shapes(combinations@),
{
    let ghost start = shapes@;
    for combination in it: combinations
        invariant
            it.seq() == combinations@,
            all_nonempty(combinations@),
            shapes@ == start + deferred_shapes(it.seq().take(it.index())),
    {
        let mut rest = combination;
        assert(combination == combinations@[it.index()]);
        let last = rest.pop().unwrap();
        proof {
            let done = it.seq().take(it.index());
            let next = it.seq().take(it.index() + 1);
            assert(deferred_shapes(next) =~= deferred_shapes(done).push(
                ZKMProofShape::Deferred(last),
            ));
        }
        shapes.push(ZKMProofShape::Deferred(last));
    }
    assert(combinations@.take(combinations@.len() as int) =~= combinations@);
}

/// Adds the shrink shape of each combination.
fn push_shrink_shapes(shapes: &mut Vec<ZKMProofShape>, combinations: Vec<Vec<OrderedShape>>)
    requires
        all_nonempty(combinations@),
    ensures
        final(shapes)@ == old(shapes)@ + shrink_shapes(combinations@),
{
    let ghost start = shapes@;
    for combination in it: combinations
        invariant
            it.seq() == combinations@,
            all_nonempty(combinations@),
            shapes@ == start + shrink_shapes(it.seq().take(it.index())),
    {
        let mut rest = combination;
        assert(combination == combinations@[it.index()]);
        let last = rest.pop().unwrap();
        proof {
            let done = it.seq().take(it.index());
            let next = it.seq().take(it.index() + 1);
            assert(shrink_shapes(next) =~= shrink_shapes(done).push(ZKMProofShape::Shrink(last)));
        }
        shapes.push(ZKMProofShape::Shrink(last));
    }
    assert(combinations@.take(combinations@.len() as int) =~= combinations@);
}

/// Adds the compress shapes of every batch size.
fn push_all_compress_shapes(
    shapes: &mut Vec<ZKMProofShape>,
    by_batch_size: Vec<Vec<Vec<OrderedShape>>>,
)
    ensures
        final(shapes)@ == old(shapes)@ + compress_shapes(all_combinations(by_batch_size@)),
{
    let ghost start = shapes@;
    assert(all_combinations(by_batch_size@.take(0)) =~= Seq::empty());
    for combinations in it: by_batch_size
        invariant
            shapes@ == start + compress_shapes(all_combinations(it.seq().take(it.index()))),
    {
        proof {
            let done = it.seq().take(it.index());
            let next = it.seq().take(it.index() + 1);
            let done_views = Seq::new(done.len(), |i: int| done[i]@);
            let next_views = Seq::new(next.len(), |i: int| next[i]@);
            assert(next_views =~= done_views.push(combinations@));
            done_views.lemma_flatten_push(combinations@);
            assert(compress_shapes(all_combinations(next)) =~= compress_shapes(
                all_combinations(done),
            ) + compress_shapes(combinations@));
        }
        push_compress_shapes(shapes, combinations);
    }
    assert(by_batch_size@.take(by_batch_size@.len() as int) =~= by_batch_size@);
}

impl ZKMProofShape {
    /// Enumerates every shape of a key derivation from what the shape
    /// configurations yield: the core shapes, the combinations of recursion shapes
    /// for each batch size (those of batch size one first), and the one-way
    /// combinations from which the deferred and the shrink shapes are taken.
    pub fn generate(
        core_shapes: Vec<OrderedShape>,
        compress_combinations: Vec<Vec<Vec<OrderedShape>>>,
        deferred_combinations: Vec<Vec<OrderedShape>>,
        shrink_combinations: Vec<Vec<OrderedShape>>,
    ) -> (shapes: Vec<ZKMProofShape>)
        requires
            all_nonempty(deferred_combinations@),
            all_nonempty(shrink_combinations@),
        ensures
            shapes@ == generated_shapes(
                core_shapes@,
                compress_combinations@,
                deferred_combinations@,
                shrink_combinations@,
            ),
            keys(shapes@) == generated_keys(
                keys(core_shapes@),
                keys(compress_combinations@),
                keys(deferred_combinations@),
                keys(shrink_combinations@),
            ),
    {
        proof {
            lemma_generated_keys(
                core_shapes@,
                compress_combinations@,
                deferred_combinations@,
                shrink_combinations@,
            );
        }
        let mut shapes: Vec<ZKMProofShape> = Vec::new();
        push_recursion_shapes(&mut shapes, core_shapes);
        push_all_compress_shapes(&mut shapes, compress_combinations);
        push_deferred_shapes(&mut shapes, deferred_combinations);
        push_shrink_shapes(&mut shapes, shrink_combinations);
        shapes
    }

    /// Enumerates the maximal shapes: as `generate`, but the leaf shapes are the
    /// maximal core shapes, each given by its tables and their log-heights in any
    /// order and brought into canonical order here.
    pub fn generate_maximal_shapes(
        maximal_core_shapes: Vec<Vec<(String, usize)>>,
        compress_combinations: Vec<Vec<Vec<OrderedShape>>>,
        deferred_combinations: Vec<Vec<OrderedShape>>,
        shrink_combinations: Vec<Vec<OrderedShape>>,
    ) -> (shapes: Vec<ZKMProofShape>)
        requires
            all_nonempty(deferred_combinations@),
            all_nonempty(shrink_combinations@),
        ensures
            shapes@.len() >= maximal_core_shapes@.len(),
            forall|i: int|
                0 <= i < maximal_core_shapes@.len() ==> is_leaf_shape_of(
                    #[trigger] shapes@[i],
                    maximal_core_shapes@[i]@,
                ),
            shapes@.skip(maximal_core_shapes@.len() as int) == generated_shapes(
                Seq::empty(),
                compress_combinations@,
                deferred_combinations@,
                shrink_combinations@,
            ),
    {
        let core_shapes = ordered_shapes(maximal_core_shapes);
        let shapes = ZKMProofShape::generate(
            core_shapes,
            compress_combinations,
            deferred_combinations,
            shrink_combinations,
        );
        proof {
            let none = Seq::<OrderedShape>::empty();
            assert(recursion_shapes(none) =~= Seq::empty());
            assert(shapes@.skip(maximal_core_shapes@.len() as int) =~= generated_shapes(
                none,
                compress_combinations@,
                deferred_combinations@,
                shrink_combinations@,
            ));
        }
        shapes
    }
}

/// `shape` is the recursion shape of the tables in `entries`, in canonical order.
pub open spec fn is_leaf_shape_of(shape: ZKMProofShape, entries: Seq<(String, usize)>) -> bool {
    &&& shape matches ZKMProofShape::Recursion(tables)
    &&& tables.is_ordered()
    &&& tables@.to_set() == keys(entries).to_set()
}

/// Brings each list of tables and log-heights into canonical order.
pub fn ordered_shapes(raw: Vec<Vec<(String, usize)>>) -> (shapes: Vec<OrderedShape>)
    ensures
        shapes@.len() == raw@.len(),
        forall|i: int|
            0 <= i < raw@.len() ==> (#[trigger] shapes@[i]).is_ordered() && shapes@[i]@.to_set()
                == keys(raw@[i]@).to_set(),
{
    let mut shapes: Vec<OrderedShape> = Vec::new();
    for entries in it: raw
        invariant
            it.seq() == raw@,
            shapes@.len() == it.index(),
            forall|i: int|
                0 <= i < shapes@.len() ==> (#[trigger] shapes@[i]).is_ordered()
                    && shapes@[i]@.to_set() == keys(raw@[i]@).to_set(),
    {
        shapes.push(OrderedShape::from_entries(entries));
    }
    shapes
}

/// The batch sizes for which compress shapes are enumerated: every size from one
/// up to `reduce_batch_size`.
pub fn compress_batch_sizes(reduce_batch_size: usize) -> (sizes: Vec<usize>)
    ensures
        sizes@.len() == reduce_batch_size,
        forall|k: int| 0 <= k < reduce_batch_size ==> #[trigger] sizes@[k] == k + 1,
{
    let mut sizes: Vec<usize> = Vec::new();
    let mut size: usize = 0;
    while size < reduce_batch_size
        invariant
            size <= reduce_batch_size,
            sizes@.len() == size,
            forall|k: int| 0 <= k < size ==> #[trigger] sizes@[k] == k + 1,
        decreases reduce_batch_size - size,
    {
        size = size + 1;
        sizes.push(size);
    }
    sizes
}

/// The batch size of the combinations from which the deferred and the shrink
/// shapes are taken.
pub const SINGLE_BATCH_SIZE: usize = 1;

/// Which maximal core shapes a check of the shapes asks of the core shape
/// configuration.
#[derive(Debug, Clone, Copy, PartialEq, Eq, Structural)]
pub enum MaximalCoreRequest {
    /// The maximal shapes of the core tables alone.
    Core { max_log_shard_size: usize },
    /// The maximal shapes of the core tables together with the precompile tables.
    CorePlusPrecompiles { max_log_shard_size: usize },
}

/// The largest log-height for which maximal core shapes are asked.
pub const MAXIMAL_LOG_SHARD_SIZE: usize = 21;

/// The maximal core shapes to ask for: without the precompile tables where
/// `no_precompiles` is set, with them otherwise.
pub fn maximal_core_request(no_precompiles: bool) -> (request: MaximalCoreRequest)
    ensures
        request == (if no_precompiles {
            MaximalCoreRequest::Core { max_log_shard_size: MAXIMAL_LOG_SHARD_SIZE }
        } else {
            MaximalCoreRequest::CorePlusPrecompiles { max_log_shard_size: MAXIMAL_LOG_SHARD_SIZE }
        }),
{
    if no_precompiles {
        MaximalCoreRequest::Core { max_log_shard_size: MAXIMAL_LOG_SHARD_SIZE }
    } else {
        MaximalCoreRequest::CorePlusPrecompiles { max_log_shard_size: MAXIMAL_LOG_SHARD_SIZE }
    }
}

/// Shape generation is repeatable: two configurations with the same contents
/// give the same enumeration, and any two catalogs collected from them are
/// equal, shape for shape.
pub proof fn lemma_generation_repeatable(
    first: (
        Seq<OrderedShape>,
        Seq<Vec<Vec<OrderedShape>>>,
        Seq<Vec<OrderedShape>>,
        Seq<Vec<OrderedShape>>,
    ),
    second: (
        Seq<OrderedShape>,
        Seq<Vec<Vec<OrderedShape>>>,
        Seq<Vec<OrderedShape>>,
        Seq<Vec<OrderedShape>>,
    ),
    first_catalog: Seq<ProofShapeKey>,
    second_catalog: Seq<ProofShapeKey>,
)
    requires
        all_nonempty(first.2),
        all_nonempty(first.3),
        all_nonempty(second.2),
        all_nonempty(second.3),
        keys(first.0) == keys(second.0),
        keys(first.1) == keys(second.1),
        keys(first.2) == keys(second.2),
        keys(first.3) == keys(second.3),
        strictly_increasing(first_catalog),
        strictly_increasing(second_catalog),
        first_catalog.to_set() == keys(
            generated_shapes(first.0, first.1, first.2, first.3),
        ).to_set(),
        second_catalog.to_set() == keys(
            generated_shapes(second.0, second.1, second.2, second.3),
        ).to_set(),
    ensures
        keys(generated_shapes(first.0, first.1, first.2, first.3)) == keys(
            generated_shapes(second.0, second.1, second.2, second.3),
        ),
        first_catalog == second_catalog,
{
    lemma_generated_keys(first.0, first.1, first.2, first.3);
    lemma_generated_keys(second.0, second.1, second.2, second.3);
    lemma_strictly_increasing_unique(first_catalog, second_catalog);
}

/// The catalog of shapes does not depend on the order of enumeration, nor on how
/// often a shape was enumerated: two catalogs in canonical order that hold the
/// same shapes as two enumerations with the same set of shapes are equal, item
/// for item.
pub proof fn lemma_catalog_determined_by_shape_set(
    first_run: Seq<ZKMProofShape>,
    second_run: Seq<ZKMProofShape>,
    first_catalog: Seq<ZKMProofShape>,
    second_catalog: Seq<ZKMProofShape>,
)
    requires
        keys(first_run).to_set() == keys(second_run).to_set(),
        is_canonical(first_catalog),
        is_canonical(second_catalog),
        keys(first_catalog).to_set() == keys(first_run).to_set(),
        keys(second_catalog).to_set() == keys(second_run).to_set(),
    ensures
        keys(first_catalog) == keys(second_catalog),
{
    lemma_strictly_increasing_unique(keys(first_catalog), keys(second_catalog));
}

} // verus!
