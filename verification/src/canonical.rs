//! Canonical collections: vectors whose keys strictly increase.
//!
//! Such a vector holds each key once, and is determined by the set of its keys
//! alone, whatever the order in which its items arrived.

use crate::order::{keys, lemma_asymmetric, Keyed, StrictOrder};
use vstd::prelude::*;

verus! {

/// Each key comes strictly before every later one.
pub open spec fn strictly_increasing<K: StrictOrder>(s: Seq<K>) -> bool {
    forall|i: int, j: int| 0 <= i < j < s.len() ==> (#[trigger] s[i]).before(#[trigger] s[j])
}

/// The items are in canonical order: their keys strictly increase.
pub open spec fn is_canonical<T: Keyed>(s: Seq<T>) -> bool {
    strictly_increasing(keys(s))
}

/// A strictly increasing sequence is determined by the set of its items: two such
/// sequences that hold the same items are the same sequence.
pub proof fn lemma_strictly_increasing_unique<K: StrictOrder>(a: Seq<K>, b: Seq<K>)
    requires
        strictly_increasing(a),
        strictly_increasing(b),
        a.to_set() == b.to_set(),
    ensures
        a == b,
    decreases a.len(),
{
    if a.len() == 0 {
        if b.len() > 0 {
            assert(b.contains(b[0]));
            assert(b.to_set().contains(b[0]));
            assert(a.to_set().contains(b[0]));
        }
        assert(a =~= b);
    } else {
        assert(a.contains(a[0]));
        assert(a.to_set().contains(a[0]));
        assert(b.to_set().contains(a[0]));
        let j = choose|j: int| 0 <= j < b.len() && b[j] == a[0];
        assert(b.contains(b[0]));
        assert(b.to_set().contains(b[0]));
        assert(a.to_set().contains(b[0]));
        let i = choose|i: int| 0 <= i < a.len() && a[i] == b[0];
        if j > 0 {
            assert(b[0].before(b[j]));
            if i > 0 {
                assert(a[0].before(a[i]));
                lemma_asymmetric(a[0], b[0]);
            } else {
                K::lemma_irreflexive(a[0]);
            }
        }
        assert(a[0] == b[0]);
        let ta = a.skip(1);
        let tb = b.skip(1);
        assert forall|x: K| ta.to_set().contains(x) <==> tb.to_set().contains(x) by {
            K::lemma_irreflexive(x);
            if ta.contains(x) {
                let p = choose|p: int| 0 <= p < ta.len() && ta[p] == x;
                assert(a[p + 1] == x);
                assert(a[0].before(a[p + 1]));
                assert(a.contains(x));
                assert(b.to_set().contains(x));
                let q = choose|q: int| 0 <= q < b.len() && b[q] == x;
                assert(tb[q - 1] == x);
            }
            if tb.contains(x) {
                let p = choose|p: int| 0 <= p < tb.len() && tb[p] == x;
                assert(b[p + 1] == x);
                assert(b[0].before(b[p + 1]));
                assert(b.contains(x));
                assert(a.to_set().contains(x));
                let q = choose|q: int| 0 <= q < a.len() && a[q] == x;
                assert(ta[q - 1] == x);
            }
        }
        assert(ta.to_set() =~= tb.to_set());
        assert forall|p: int, q: int| 0 <= p < q < ta.len() implies (#[trigger] ta[p]).before(
            #[trigger] ta[q],
        ) by {
            assert(a[p + 1].before(a[q + 1]));
        }
        assert forall|p: int, q: int| 0 <= p < q < tb.len() implies (#[trigger] tb[p]).before(
            #[trigger] tb[q],
        ) by {
            assert(b[p + 1].before(b[q + 1]));
        }
        lemma_strictly_increasing_unique(ta, tb);
        assert(a =~= seq![a[0]] + ta);
        assert(b =~= seq![b[0]] + tb);
    }
}

/// A strictly increasing sequence holds no item twice, so it is as long as the
/// set of its items is large.
pub proof fn lemma_strictly_increasing_len<K: StrictOrder>(s: Seq<K>)
    requires
        strictly_increasing(s),
    ensures
        s.no_duplicates(),
        s.len() == s.to_set().len(),
{
    assert forall|i: int, j: int| 0 <= i < s.len() && 0 <= j < s.len() && i != j implies s[i]
        != s[j] by {
        if i < j {
            lemma_asymmetric(s[i], s[j]);
        } else {
            lemma_asymmetric(s[j], s[i]);
        }
    }
    s.unique_seq_to_set();
}

/// Where `x` stands, or would stand, in a canonical vector: the number of items
/// whose keys come before the key of `x`, and whether that key is present.
pub fn find_slot<T: Keyed>(v: &Vec<T>, x: &T) -> (r: (usize, bool))
    requires
        is_canonical(v@),
    ensures
        r.0 <= v@.len(),
        forall|j: int| 0 <= j < r.0 ==> (#[trigger] keys(v@)[j]).before(x.key()),
        forall|j: int|
            r.0 + (if r.1 { 1int } else { 0int }) <= j < v@.len() ==> x.key().before(
                #[trigger] keys(v@)[j],
            ),
        r.1 ==> r.0 < v@.len() && keys(v@)[r.0 as int] == x.key(),
        r.1 == keys(v@).contains(x.key()),
{
    let ghost ks = keys(v@);
    let mut lo: usize = 0;
    let mut hi: usize = v.len();
    while lo < hi
        invariant
            ks == keys(v@),
            ks.len() == v@.len(),
            strictly_increasing(ks),
            lo <= hi <= v@.len(),
            forall|j: int| 0 <= j < lo ==> (#[trigger] ks[j]).before(x.key()),
            forall|j: int| hi <= j < ks.len() ==> x.key().before(#[trigger] ks[j]),
        decreases hi - lo,
    {
        let mid = lo + (hi - lo) / 2;
        let ghost km = ks[mid as int];
        assert(km == v@[mid as int].key());
        if v[mid].precedes(x) {
            proof {
                assert forall|j: int| 0 <= j < mid + 1 implies (#[trigger] ks[j]).before(
                    x.key(),
                ) by {
                    if j < mid {
                        assert(ks[j].before(ks[mid as int]));
                        T::Key::lemma_transitive(ks[j], km, x.key());
                    }
                }
            }
            lo = mid + 1;
        } else if x.precedes(&v[mid]) {
            proof {
                assert forall|j: int| mid <= j < ks.len() implies x.key().before(
                    #[trigger] ks[j],
                ) by {
                    if j > mid {
                        assert(ks[mid as int].before(ks[j]));
                        T::Key::lemma_transitive(x.key(), km, ks[j]);
                    }
                }
            }
            hi = mid;
        } else {
            proof {
                T::Key::lemma_connected(km, x.key());
                assert forall|j: int| 0 <= j < mid implies (#[trigger] ks[j]).before(
                    x.key(),
                ) by {
                    assert(ks[j].before(ks[mid as int]));
                }
                assert forall|j: int| mid + 1 <= j < ks.len() implies x.key().before(
                    #[trigger] ks[j],
                ) by {
                    assert(ks[mid as int].before(ks[j]));
                }
                assert(ks.contains(x.key()));
            }
            return (mid, true);
        }
    }
    proof {
        if ks.contains(x.key()) {
            let j = choose|j: int| 0 <= j < ks.len() && ks[j] == x.key();
            T::Key::lemma_irreflexive(x.key());
        }
    }
    (lo, false)
}

/// Puts `x` at its place in a canonical vector, unless an item with the same key
/// is there already, in which case the vector stays as it is.
pub fn insert_canonical<T: Keyed>(v: &mut Vec<T>, x: T) -> (fresh: bool)
    requires
        is_canonical(old(v)@),
    ensures
        is_canonical(final(v)@),
        fresh == !keys(old(v)@).contains(x.key()),
        !fresh ==> final(v)@ == old(v)@,
        fresh ==> exists|pos: int|
            0 <= pos <= old(v)@.len() && final(v)@ == #[trigger] old(v)@.insert(pos, x),
        keys(final(v)@).to_set() == keys(old(v)@).to_set().insert(x.key()),
{
    let (pos, present) = find_slot(v, &x);
    let ghost before = keys(v@);
    if present {
        assert(before.to_set().insert(x.key()) =~= before.to_set());
        false
    } else {
        v.insert(pos, x);
        proof {
            let after = keys(v@);
            assert(v@ == old(v)@.insert(pos as int, x));
            assert(after =~= before.insert(pos as int, x.key()));
            assert forall|i: int, j: int| 0 <= i < j < after.len() implies (#[trigger] after[i]).before(
                #[trigger] after[j],
            ) by {
                let oi = if i < pos { i } else { i - 1 };
                let oj = if j < pos { j } else { j - 1 };
                if i != pos && j != pos {
                    assert(before[oi].before(before[oj]));
                } else if i == pos {
                    assert(x.key().before(before[oj]));
                } else {
                    assert(before[oi].before(x.key()));
                }
            }
            assert forall|k: T::Key| after.to_set().contains(k) <==> before.to_set().insert(
                x.key(),
            ).contains(k) by {
                if after.contains(k) {
                    let i = choose|i: int| 0 <= i < after.len() && after[i] == k;
                    if i < pos {
                        assert(before[i] == k);
                    } else if i > pos {
                        assert(before[i - 1] == k);
                    }
                }
                if before.contains(k) {
                    let i = choose|i: int| 0 <= i < before.len() && before[i] == k;
                    if i < pos {
                        assert(after[i] == k);
                    } else {
                        assert(after[i + 1] == k);
                    }
                }
                if k == x.key() {
                    assert(after[pos as int] == k);
                }
            }
            assert(after.to_set() =~= before.to_set().insert(x.key()));
        }
        true
    }
}

/// Collects items into canonical order: sorted by key, one item for each key.
pub fn collect_canonical<T: Keyed>(items: Vec<T>) -> (r: Vec<T>)
    ensures
        is_canonical(r@),
        keys(r@).to_set() == keys(items@).to_set(),
        r@.len() == keys(items@).to_set().len(),
        r@.len() <= items@.len(),
{
    let mut rest = items;
    let mut r: Vec<T> = Vec::new();
    let ghost all = keys(items@);
    assert(keys(r@) =~= Seq::<T::Key>::empty());
    while rest.len() > 0
        invariant
            is_canonical(r@),
            all == keys(items@),
            rest@.len() <= items@.len(),
            r@.len() + rest@.len() <= items@.len(),
            forall|i: int| 0 <= i < rest@.len() ==> rest@[i] == items@[i],
            forall|k: T::Key|
                keys(r@).to_set().contains(k) <==> exists|i: int|
                    rest@.len() <= i < all.len() && #[trigger] all[i] == k,
        decreases rest@.len(),
    {
        let ghost n = rest@.len() - 1;
        let ghost done = keys(r@);
        let x = rest.pop().unwrap();
        assert(x.key() == all[n]);
        let fresh = insert_canonical(&mut r, x);
        proof {
            assert forall|k: T::Key|
                keys(r@).to_set().contains(k) <==> exists|i: int|
                    n <= i < all.len() && #[trigger] all[i] == k by {
                if done.to_set().contains(k) {
                    let i = choose|i: int| n + 1 <= i < all.len() && #[trigger] all[i] == k;
                    assert(n <= i < all.len() && all[i] == k);
                }
                if exists|i: int| n <= i < all.len() && #[trigger] all[i] == k {
                    let i = choose|i: int| n <= i < all.len() && #[trigger] all[i] == k;
                    if i > n {
                        assert(n + 1 <= i < all.len() && all[i] == k);
                    }
                }
            }
        }
    }
    proof {
        assert forall|k: T::Key| keys(r@).to_set().contains(k) <==> all.to_set().contains(k) by {
            if all.contains(k) {
                let i = choose|i: int| 0 <= i < all.len() && all[i] == k;
                assert(0 <= i < all.len() && all[i] == k);
            }
        }
        assert(keys(r@).to_set() =~= all.to_set());
        lemma_strictly_increasing_len(keys(r@));
    }
    r
}

} // verus!
