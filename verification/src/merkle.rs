//! Height of the Merkle tree that commits to a set of verification keys.

use vstd::arithmetic::div_mod::lemma_div_denominator;
use vstd::arithmetic::power2::{lemma2_to64, lemma_pow2_pos, lemma_pow2_unfold, pow2};
use vstd::prelude::*;

verus! {

/// `ceil(log2(max(1, n)))`: how often `n` must be halved, rounding up, to reach one.
pub open spec fn ceil_log2(n: nat) -> nat
    decreases n,
{
    if n <= 1 {
        0
    } else {
        1 + ceil_log2((n + 1) / 2)
    }
}

/// `h` is the least exponent with `n <= 2^h`.
pub open spec fn is_least_covering_exponent(n: nat, h: nat) -> bool {
    &&& n <= pow2(h)
    &&& h > 0 ==> pow2((h - 1) as nat) < n
}

/// The height formula: `ceil_log2(n)` is the least `h` such that a binary tree of
/// height `h` has at least `n` leaves.
pub proof fn lemma_ceil_log2_is_least_covering_exponent(n: nat)
    ensures
        is_least_covering_exponent(n, ceil_log2(n)),
    decreases n,
{
    lemma2_to64();
    if n <= 1 {
    } else {
        let half = (n + 1) / 2;
        lemma_ceil_log2_is_least_covering_exponent(half);
        let h = ceil_log2(half);
        lemma_pow2_unfold(h + 1);
        if h > 0 {
            lemma_pow2_unfold(h);
        }
    }
}

/// No other exponent is the least covering one: the height is determined by the count.
pub proof fn lemma_least_covering_exponent_unique(n: nat, h1: nat, h2: nat)
    requires
        is_least_covering_exponent(n, h1),
        is_least_covering_exponent(n, h2),
    ensures
        h1 == h2,
{
    if h1 < h2 {
        lemma_pow2_monotonic(h1, (h2 - 1) as nat);
    } else if h2 < h1 {
        lemma_pow2_monotonic(h2, (h1 - 1) as nat);
    }
}

/// `2^a <= 2^b` whenever `a <= b`.
proof fn lemma_pow2_monotonic(a: nat, b: nat)
    requires
        a <= b,
    ensures
        pow2(a) <= pow2(b),
    decreases b - a,
{
    if a < b {
        lemma_pow2_monotonic(a, (b - 1) as nat);
        lemma_pow2_unfold(b);
    }
}

/// Height of the Merkle tree over `count` leaves.
pub fn merkle_tree_height(count: usize) -> (height: usize)
    ensures
        height == ceil_log2(count as nat),
        is_least_covering_exponent(count as nat, height as nat),
{
    let mut remaining: usize = count;
    let mut height: usize = 0;
    while remaining > 1
        invariant
            ceil_log2(count as nat) == height + ceil_log2(remaining as nat),
            height + remaining <= count,
        decreases remaining,
    {
        remaining = remaining - remaining / 2;
        height = height + 1;
    }
    proof {
        lemma_ceil_log2_is_least_covering_exponent(count as nat);
    }
    height
}

/// The bit of `index` at place `i`, counted from the least significant one:
/// whether the path to leaf `index` turns right at level `i` above the leaves.
pub open spec fn index_bit(index: nat, i: nat) -> bool {
    (index / pow2(i)) % 2 == 1
}

/// The bits of the index of a leaf, least significant first, one for each node
/// of the leaf's path: the turns of the path from the leaf up to the root.
pub fn index_bits(index: usize, path_len: usize) -> (bits: Vec<bool>)
    ensures
        bits@.len() == path_len,
        forall|i: int| 0 <= i < path_len ==> #[trigger] bits@[i] == index_bit(index as nat, i as nat),
{
    let mut bits: Vec<bool> = Vec::new();
    let mut rest: usize = index;
    let mut level: usize = 0;
    proof {
        lemma2_to64();
    }
    while level < path_len
        invariant
            level <= path_len,
            bits@.len() == level,
            rest == index as nat / pow2(level as nat),
            forall|i: int| 0 <= i < level ==> #[trigger] bits@[i] == index_bit(index as nat, i as nat),
        decreases path_len - level,
    {
        bits.push(rest % 2 == 1);
        proof {
            lemma_pow2_pos(level as nat);
            lemma_pow2_unfold((level + 1) as nat);
            lemma_div_denominator(index as int, pow2(level as nat) as int, 2);
        }
        rest = rest / 2;
        level = level + 1;
    }
    bits
}

} // verus!
