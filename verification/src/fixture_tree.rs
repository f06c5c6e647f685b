//! Whole-tree Merkle computations used to build proof fixtures offline: the
//! root of a complete leaf layer, and the authentication path of one leaf.
use vstd::prelude::*;
use vstd::arithmetic::power2::{pow2, lemma_pow2_unfold, lemma2_to64};
use vstd::bits::{lemma_usize_shl_is_mul, lemma_usize_pow2_no_overflow};
use crate::uint::U256;
use crate::merkle::{
    hasher_ok, compress, hash_left_right, node, tree_root, width, lemma_width, empty_leaf_spec,
};

verus! {

/// Why a fixture tree computation was refused.
#[derive(Debug, Clone, Copy, PartialEq, Eq, Structural)]
pub enum FixtureError {
    /// The height does not fit into a `u32` shift amount.
    LevelsDoNotFitU32,
    /// `2^levels` does not fit into a `usize`.
    LevelsTooLarge,
    /// A root was asked of an empty leaf layer.
    EmptyLeaves,
    /// A root was asked of a leaf layer whose length is not a power of two.
    LeavesNotPowerOfTwo,
    /// A path was asked of an empty leaf layer or one whose length is not a
    /// power of two.
    InvalidLeavesLength,
    /// A path was asked for a leaf past the end of the layer.
    IndexOutsideTree,
    /// A directory path has fewer ancestors than the layout needs.
    MissingParent,
    /// An authentication path came out of another height than the circuit's.
    UnexpectedDepth,
    /// The circuit exposed another number of public inputs than expected.
    PublicInputCount,
}

/// Whether `n` is a power of two.
pub open spec fn is_pow_two(n: nat) -> bool {
    exists|k: nat| width(k) == n
}

/// The base-two logarithm of `n`, rounded down (0 for 0 and 1).
pub open spec fn depth(n: nat) -> nat
    decreases n,
{
    if n <= 1 {
        0
    } else {
        1 + depth(n / 2)
    }
}

/// The position of the node that shares a parent with node `i`.
pub open spec fn sibling(i: nat) -> nat {
    if i % 2 == 0 {
        i + 1
    } else {
        (i - 1) as nat
    }
}

/// `width` is the power of two of vstd.
pub proof fn lemma_width_pow2(k: nat)
    ensures
        width(k) == pow2(k),
    decreases k,
{
    if k == 0 {
        lemma2_to64();
    } else {
        lemma_width_pow2((k - 1) as nat);
        lemma_pow2_unfold(k);
    }
}

/// The logarithm of a power of two is its exponent.
pub proof fn lemma_depth_width(k: nat)
    ensures
        depth(width(k)) == k,
    decreases k,
{
    if k > 0 {
        lemma_width((k - 1) as nat);
        lemma_width(k);
        lemma_depth_width((k - 1) as nat);
        assert(width(k) / 2 == width((k - 1) as nat));
    }
}

/// A height is below its width.
pub proof fn lemma_width_gt(k: nat)
    ensures
        k < width(k),
    decreases k,
{
    if k > 0 {
        lemma_width_gt((k - 1) as nat);
    }
}

/// Only height zero has width one.
pub proof fn lemma_width_one(k: nat)
    requires
        width(k) == 1,
    ensures
        k == 0,
{
    if k > 0 {
        lemma_width((k - 1) as nat);
    }
}

/// `width(a + b) == width(a) * width(b)`.
pub proof fn lemma_width_add(a: nat, b: nat)
    ensures
        width(a + b) == width(a) * width(b),
    decreases b,
{
    if b == 0 {
        assert(width(a) * 1 == width(a)) by (nonlinear_arith);
    } else {
        lemma_width_add(a, (b - 1) as nat);
        assert(width(a + b) == 2 * width((a + b - 1) as nat));
        assert(width(b) == 2 * width((b - 1) as nat));
        let x = width(a);
        let y = width((b - 1) as nat);
        assert(2 * (x * y) == x * (2 * y)) by (nonlinear_arith);
    }
}

/// A number that is an odd multiple, above one, of a power of two is not a
/// power of two.
proof fn lemma_odd_multiple_not_width(j: nat, k: nat, m: nat)
    requires
        m > 1,
        m % 2 == 1,
    ensures
        width(j) != m * width(k),
    decreases k,
{
    if width(j) == m * width(k) {
        lemma_width(j);
        lemma_width(k);
        if k == 0 {
            assert(width(k) == 1);
            assert(m * 1 == m) by (nonlinear_arith);
            if j == 0 {
                assert(width(0) == 1);
            } else {
                lemma_width((j - 1) as nat);
            }
        } else if j == 0 {
            assert(m * width(k) >= 2) by (nonlinear_arith)
                requires
                    m > 1,
                    width(k) >= 1,
            ;
        } else {
            let a = width((j - 1) as nat);
            let b = width((k - 1) as nat);
            assert(width(j) == 2 * a);
            assert(width(k) == 2 * b);
            assert(a == m * b) by (nonlinear_arith)
                requires
                    2 * a == m * (2 * b),
            ;
            lemma_odd_multiple_not_width((j - 1) as nat, (k - 1) as nat, m);
        }
    }
}

/// The exponent of `n` if `n` is a power of two.
pub fn log2_exact(n: usize) -> (r: Option<usize>)
    ensures
        r is Some <==> is_pow_two(n as nat),
        r matches Some(k) ==> width(k as nat) == n && k == depth(n as nat) && k < usize::BITS,
{
    if n == 0 {
        proof {
            assert forall|k: nat| width(k) != 0 by {
                lemma_width(k);
            }
        }
        return None;
    }
    let mut m: usize = n;
    let mut k: usize = 0;
    proof {
        assert(width(0) == 1);
        assert(n as nat == n * 1) by (nonlinear_arith);
    }
    while m > 1 && m % 2 == 0
        invariant
            m >= 1,
            k < width(k as nat) <= n,
            n as nat == m * width(k as nat),
        decreases m,
    {
        proof {
            lemma_width(k as nat);
            assert(m * width(k as nat) == (m / 2) * width((k + 1) as nat)) by (nonlinear_arith)
                requires
                    m % 2 == 0,
                    width((k + 1) as nat) == 2 * width(k as nat),
            ;
            assert(2 * width(k as nat) <= m * width(k as nat)) by (nonlinear_arith)
                requires
                    m >= 2,
            ;
            lemma_width_gt((k + 1) as nat);
        }
        m = m / 2;
        k = k + 1;
    }
    if m == 1 {
        proof {
            assert(1 * width(k as nat) == width(k as nat)) by (nonlinear_arith);
            lemma_depth_width(k as nat);
            lemma_width_pow2(k as nat);
            if k >= usize::BITS {
                lemma_width_add(usize::BITS as nat, (k - usize::BITS) as nat);
                lemma_width_pow2(usize::BITS as nat);
                lemma2_to64();
                lemma_width((k - usize::BITS) as nat);
                assert(width(usize::BITS as nat) * width((k - usize::BITS) as nat) >= width(
                    usize::BITS as nat,
                )) by (nonlinear_arith)
                    requires
                        width((k - usize::BITS) as nat) >= 1,
                ;
            }
        }
        Some(k)
    } else {
        proof {
            assert forall|j: nat| width(j) != n as nat by {
                if width(j) == n as nat {
                    lemma_odd_multiple_not_width(j, k as nat, m as nat);
                }
            }
        }
        None
    }
}

/// The number of leaves of a tree of height `levels`: `2^levels`, refused
/// when the height does not fit a `u32` or the count does not fit a `usize`.
pub fn leaf_count(levels: usize) -> (r: Result<usize, FixtureError>)
    ensures
        levels > u32::MAX ==> r == Err::<usize, FixtureError>(FixtureError::LevelsDoNotFitU32),
        levels <= u32::MAX && levels >= usize::BITS ==> r == Err::<usize, FixtureError>(
            FixtureError::LevelsTooLarge,
        ),
        levels < usize::BITS ==> (r matches Ok(n) && n == width(levels as nat)),
{
    if levels > u32::MAX as usize {
        return Err(FixtureError::LevelsDoNotFitU32);
    }
    if levels >= usize::BITS as usize {
        return Err(FixtureError::LevelsTooLarge);
    }
    proof {
        lemma_usize_pow2_no_overflow(levels as nat);
        lemma_usize_shl_is_mul(1, levels);
        lemma_width_pow2(levels as nat);
    }
    Ok(1usize << levels)
}

/// One level up: pairs of adjacent nodes of `cur` compressed into their
/// parents.
fn parent_layer<H: Fn(U256, U256) -> U256>(
    hash: &H,
    leaves: Ghost<Seq<U256>>,
    level: Ghost<nat>,
    cur: &Vec<U256>,
) -> (next: Vec<U256>)
    requires
        hasher_ok(hash),
        cur@.len() % 2 == 0,
        forall|i: int| 0 <= i < cur@.len() ==> cur@[i] == node(hash, leaves@, level@, i as nat),
    ensures
        next@.len() == cur@.len() / 2,
        forall|i: int|
            0 <= i < next@.len() ==> next@[i] == node(hash, leaves@, level@ + 1, i as nat),
{
    let n = cur.len();
    let half = n / 2;
    let mut next: Vec<U256> = Vec::new();
    let mut j: usize = 0;
    while j < half
        invariant
            hasher_ok(hash),
            n == cur@.len(),
            half == n / 2,
            cur@.len() % 2 == 0,
            j <= half,
            next@.len() == j,
            forall|i: int| 0 <= i < cur@.len() ==> cur@[i] == node(hash, leaves@, level@, i as nat),
            forall|i: int|
                0 <= i < j ==> next@[i] == node(hash, leaves@, level@ + 1, i as nat),
        decreases half - j,
    {
        assert(j + j + 1 < cur@.len());
        let left_at: usize = j + j;
        let l = cur[left_at];
        let r = cur[left_at + 1];
        let p = hash_left_right(hash, l, r);
        proof {
            assert(node(hash, leaves@, level@ + 1, j as nat) == compress(
                hash,
                node(hash, leaves@, level@, 2 * (j as nat)),
                node(hash, leaves@, level@, 2 * (j as nat) + 1),
            ));
        }
        next.push(p);
        j = j + 1;
    }
    next
}

/// The root of the complete tree over `leaves`, whose length must be a
/// power of two.
pub fn merkle_root<H: Fn(U256, U256) -> U256>(hash: &H, leaves: Vec<U256>) -> (r: Result<
    U256,
    FixtureError,
>)
    requires
        hasher_ok(hash),
    ensures
        leaves@.len() == 0 ==> r == Err::<U256, FixtureError>(FixtureError::EmptyLeaves),
        leaves@.len() > 0 && !is_pow_two(leaves@.len()) ==> r == Err::<U256, FixtureError>(
            FixtureError::LeavesNotPowerOfTwo,
        ),
        is_pow_two(leaves@.len()) ==> r == Ok::<U256, FixtureError>(
            tree_root(hash, leaves@, depth(leaves@.len())),
        ),
{
    if leaves.len() == 0 {
        proof {
            assert forall|k: nat| width(k) != 0 by {
                lemma_width(k);
            }
        }
        return Err(FixtureError::EmptyLeaves);
    }
    let levels = match log2_exact(leaves.len()) {
        Some(k) => k,
        None => {
            return Err(FixtureError::LeavesNotPowerOfTwo);
        },
    };
    let ghost all = leaves@;
    let mut cur = leaves;
    let mut h: usize = 0;
    while cur.len() > 1
        invariant
            hasher_ok(hash),
            width(levels as nat) == all.len(),
            h <= levels,
            cur@.len() == width((levels - h) as nat),
            forall|i: int| 0 <= i < cur@.len() ==> cur@[i] == node(hash, all, h as nat, i as nat),
        decreases levels - h,
    {
        proof {
            if h == levels {
                assert(width(0) == 1);
            }
            lemma_width(((levels - h) - 1) as nat);
        }
        let next = parent_layer(hash, Ghost(all), Ghost(h as nat), &cur);
        cur = next;
        h = h + 1;
    }
    proof {
        lemma_width((levels - h) as nat);
        lemma_width_one((levels - h) as nat);
    }
    Ok(cur[0])
}

/// Each element of `path` is the sibling, at its height, of the node above
/// leaf `index`.
pub open spec fn path_ok<H: Fn(U256, U256) -> U256>(
    hash: &H,
    leaves: Seq<U256>,
    path: Seq<U256>,
    index: nat,
) -> bool {
    forall|l: int|
        0 <= l < path.len() ==> #[trigger] path[l] == node(
            hash,
            leaves,
            l as nat,
            sibling(index / width(l as nat)),
        )
}

/// Setting a bit above every set bit adds its value.
proof fn lemma_or_high_bit(b: u64, l: u64)
    requires
        l < 64,
        b < (1u64 << l),
    ensures
        b | (1u64 << l) == b + (1u64 << l),
{
    assert(b | (1u64 << l) == b + (1u64 << l)) by (bit_vector)
        requires
            l < 64,
            b < (1u64 << l),
    ;
}

/// A leaf below `width(top)` sits, at height `level`, below `width(top - level)`.
proof fn lemma_index_at_level(index: nat, level: nat, top: nat)
    requires
        level <= top,
        index < width(top),
    ensures
        index / width(level) < width((top - level) as nat),
{
    lemma_width_add(level, (top - level) as nat);
    lemma_width(level);
    let w = width(level);
    let v = width((top - level) as nat);
    vstd::arithmetic::div_mod::lemma_fundamental_div_mod(index as int, w as int);
    let q = index / w;
    assert(q < v) by (nonlinear_arith)
        requires
            index == w * q + index % w,
            index % w >= 0,
            index < w * v,
            w >= 1,
    ;
}

/// The authentication path of leaf `index` in the complete tree over
/// `leaves`: the sibling at every height, the index's bits as a mask of
/// right-hand positions, and the tree's height.
pub fn merkle_proof<H: Fn(U256, U256) -> U256>(
    hash: &H,
    leaves: &Vec<U256>,
    index: usize,
) -> (r: Result<(Vec<U256>, u64, usize), FixtureError>)
    requires
        hasher_ok(hash),
    ensures
        !is_pow_two(leaves@.len()) ==> r == Err::<(Vec<U256>, u64, usize), FixtureError>(
            FixtureError::InvalidLeavesLength,
        ),
        is_pow_two(leaves@.len()) && index >= leaves@.len() ==> r == Err::<
            (Vec<U256>, u64, usize),
            FixtureError,
        >(FixtureError::IndexOutsideTree),
        is_pow_two(leaves@.len()) && index < leaves@.len() ==> r is Ok,
        r matches Ok((path, bits, levels)) ==> {
            &&& levels == depth(leaves@.len())
            &&& width(levels as nat) == leaves@.len()
            &&& path@.len() == levels
            &&& path_ok(hash, leaves@, path@, index as nat)
            &&& bits == index
        },
{
    let levels = match log2_exact(leaves.len()) {
        Some(k) => k,
        None => {
            return Err(FixtureError::InvalidLeavesLength);
        },
    };
    if index >= leaves.len() {
        return Err(FixtureError::IndexOutsideTree);
    }
    let ghost all = leaves@;
    let mut cur: Vec<U256> = leaves.clone();
    proof {
        assert(cur@ =~= all);
        assert(width(0) == 1);
        assert(index as nat / 1 == index as nat);
        assert(index as nat % 1 == 0);
    }
    let mut path: Vec<U256> = Vec::new();
    let mut bits: u64 = 0;
    let mut idx: usize = index;
    let mut level: usize = 0;
    while level < levels
        invariant
            hasher_ok(hash),
            width(levels as nat) == all.len(),
            levels < usize::BITS,
            index < all.len(),
            level <= levels,
            cur@.len() == width((levels - level) as nat),
            forall|i: int| 0 <= i < cur@.len() ==> cur@[i] == node(hash, all, level as nat, i as nat),
            idx == index as nat / width(level as nat),
            bits == index as nat % width(level as nat),
            path@.len() == level,
            path_ok(hash, all, path@, index as nat),
        decreases levels - level,
    {
        proof {
            lemma_index_at_level(index as nat, level as nat, levels as nat);
            lemma_width(((levels - level) - 1) as nat);
            lemma_width(level as nat);
        }
        let ghost path_before = path@;
        let ghost bits_before = bits;
        let sib: usize = if idx % 2 == 0 {
            idx + 1
        } else {
            idx - 1
        };
        path.push(cur[sib]);
        if idx % 2 == 1 {
            proof {
                lemma_width_pow2(level as nat);
                vstd::bits::lemma_u64_pow2_no_overflow(level as nat);
                vstd::bits::lemma_u64_shl_is_mul(1, level as u64);
                vstd::arithmetic::div_mod::lemma_mod_bound(index as int, width(level as nat) as int);
                lemma_or_high_bit(bits, level as u64);
            }
            bits = bits | (1u64 << (level as u64));
        }
        proof {
            vstd::arithmetic::div_mod::lemma_mod_breakdown(
                index as int,
                width(level as nat) as int,
                2,
            );
            vstd::arithmetic::div_mod::lemma_div_denominator(
                index as int,
                width(level as nat) as int,
                2,
            );
            assert(width((level + 1) as nat) == width(level as nat) * 2);
            let w = width(level as nat);
            if idx % 2 == 1 {
                assert(bits == bits_before + w);
                assert(w * (idx % 2) == w) by (nonlinear_arith)
                    requires
                        idx % 2 == 1,
                ;
            } else {
                assert(bits == bits_before);
                assert(w * (idx % 2) == 0) by (nonlinear_arith)
                    requires
                        idx % 2 == 0,
                ;
            }
            assert(bits == index as nat % width((level + 1) as nat));
            assert forall|l: int| 0 <= l < path@.len() implies #[trigger] path@[l] == node(
                hash,
                all,
                l as nat,
                sibling(index as nat / width(l as nat)),
            ) by {
                if l < level {
                    assert(path@[l] == path_before[l]);
                }
            }
        }
        let next = parent_layer(hash, Ghost(all), Ghost(level as nat), &cur);
        cur = next;
        idx = idx / 2;
        level = level + 1;
    }
    proof {
        vstd::arithmetic::div_mod::lemma_small_mod(index as nat, width(levels as nat));
    }
    Ok((path, bits, levels))
}

/// The root reached by climbing from `leaf` at position `index` with the
/// siblings in `path`, lowest first: at each height the index's bit says
/// whether the running node is the right-hand child.
pub open spec fn path_root<H: Fn(U256, U256) -> U256>(
    hash: &H,
    leaf: U256,
    path: Seq<U256>,
    index: nat,
) -> U256
    decreases path.len(),
{
    if path.len() == 0 {
        leaf
    } else {
        let l = (path.len() - 1) as nat;
        let below = path_root(hash, leaf, path.drop_last(), index);
        if (index / width(l)) % 2 == 0 {
            compress(hash, below, path.last())
        } else {
            compress(hash, path.last(), below)
        }
    }
}

/// Climbing a correct path of length `k` reaches the node above the leaf at
/// height `k`.
proof fn lemma_path_root_node<H: Fn(U256, U256) -> U256>(
    hash: &H,
    leaves: Seq<U256>,
    path: Seq<U256>,
    index: nat,
)
    requires
        index < leaves.len(),
        path_ok(hash, leaves, path, index),
    ensures
        path_root(hash, leaves[index as int], path, index) == node(
            hash,
            leaves,
            path.len(),
            index / width(path.len()),
        ),
    decreases path.len(),
{
    if path.len() == 0 {
        assert(width(0) == 1);
        assert(index / 1 == index);
    } else {
        let l = (path.len() - 1) as nat;
        let lower = path.drop_last();
        assert(path_ok(hash, leaves, lower, index)) by {
            assert forall|i: int| 0 <= i < lower.len() implies #[trigger] lower[i] == node(
                hash,
                leaves,
                i as nat,
                sibling(index / width(i as nat)),
            ) by {
                assert(lower[i] == path[i]);
            }
        }
        lemma_path_root_node(hash, leaves, lower, index);
        lemma_width(l);
        let j = index / width(l);
        assert(path[l as int] == node(hash, leaves, l, sibling(j)));
        vstd::arithmetic::div_mod::lemma_div_denominator(index as int, width(l) as int, 2);
        assert(width(path.len()) == width(l) * 2);
        assert(index / width(path.len()) == j / 2);
        if j % 2 == 0 {
            assert(2 * (j / 2) == j);
        } else {
            assert(2 * (j / 2) + 1 == j);
        }
    }
}

/// Climbing the authentication path of a leaf of a complete tree reaches the
/// tree's root.
pub proof fn lemma_path_recomputes_root<H: Fn(U256, U256) -> U256>(
    hash: &H,
    leaves: Seq<U256>,
    path: Seq<U256>,
    index: nat,
)
    requires
        index < leaves.len(),
        width(path.len()) == leaves.len(),
        path_ok(hash, leaves, path, index),
    ensures
        path_root(hash, leaves[index as int], path, index) == tree_root(
            hash,
            leaves,
            path.len(),
        ),
{
    lemma_path_root_node(hash, leaves, path, index);
    assert(index / width(path.len()) == 0) by {
        vstd::arithmetic::div_mod::lemma_basic_div(index as int, width(path.len()) as int);
    }
}

/// `s` followed by unfilled leaves up to length `n`.
pub open spec fn padded(s: Seq<U256>, n: nat) -> Seq<U256> {
    s + Seq::new((n - s.len()) as nat, |i: int| empty_leaf_spec())
}

/// Explicit unfilled leaves change no node.
pub proof fn lemma_padded_node<H: Fn(U256, U256) -> U256>(
    hash: &H,
    s: Seq<U256>,
    n: nat,
    level: nat,
    idx: nat,
)
    requires
        s.len() <= n,
    ensures
        node(hash, padded(s, n), level, idx) == node(hash, s, level, idx),
    decreases level,
{
    if level == 0 {
        let p = padded(s, n);
        if idx < s.len() {
            assert(p[idx as int] == s[idx as int]);
        } else if idx < p.len() {
            assert(p[idx as int] == empty_leaf_spec());
        }
    } else {
        lemma_padded_node(hash, s, n, (level - 1) as nat, 2 * idx);
        lemma_padded_node(hash, s, n, (level - 1) as nat, 2 * idx + 1);
    }
}

/// A complete leaf layer built from some leaves padded with the unfilled
/// leaf has the same root as the tree over those leaves alone: padding with
/// the unfilled-leaf constant reproduces the live tree's root.
pub proof fn lemma_padding_keeps_root<H: Fn(U256, U256) -> U256>(
    hash: &H,
    s: Seq<U256>,
    levels: nat,
)
    requires
        s.len() <= width(levels),
    ensures
        padded(s, width(levels)).len() == width(levels),
        is_pow_two(width(levels)),
        depth(width(levels)) == levels,
        tree_root(hash, padded(s, width(levels)), depth(width(levels))) == tree_root(
            hash,
            s,
            levels,
        ),
{
    lemma_depth_width(levels);
    lemma_padded_node(hash, s, width(levels), levels, 0);
}

} // verus!
