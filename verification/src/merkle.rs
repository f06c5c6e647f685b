//! The Merkle tree model shared by the pool and the allowlist: the hash of a
//! tree node over a leaf sequence padded with empty leaves, and the facts that
//! make incremental insertion agree with it.
use vstd::prelude::*;
use crate::uint::U256;

verus! {

/// A compression function that can be called on any pair and always returns
/// the same output for the same pair.
pub open spec fn hasher_ok<H: Fn(U256, U256) -> U256>(hash: &H) -> bool {
    &&& forall|l: U256, r: U256| #[trigger] hash.requires((l, r))
    &&& forall|l: U256, r: U256, a: U256, b: U256|
        #[trigger] hash.ensures((l, r), a) && #[trigger] hash.ensures((l, r), b) ==> a == b
}

/// What `hash` returns on `(l, r)`.
pub open spec fn compress<H: Fn(U256, U256) -> U256>(hash: &H, l: U256, r: U256) -> U256 {
    choose|o: U256| hash.ensures((l, r), o)
}

/// Calls the compression function.
pub fn hash_left_right<H: Fn(U256, U256) -> U256>(hash: &H, l: U256, r: U256) -> (out: U256)
    requires
        hasher_ok(hash),
    ensures
        out == compress(hash, l, r),
{
    hash(l, r)
}

/// The value of an unfilled leaf, shared by the pool tree and the allowlist.
pub open spec fn empty_leaf_value() -> nat {
    16820622405745174042249830601237189755928192602553897283642901160942722677198nat
}

/// The unfilled leaf as a `U256`.
pub open spec fn empty_leaf_spec() -> U256 {
    U256 { hi: 0x25302288db99350344974183ce310d63, lo: 0xb53abb9ef0f8575753eed36e0118f9ce }
}

/// The unfilled leaf.
pub fn empty_leaf() -> (r: U256)
    ensures
        r == empty_leaf_spec(),
        r@ == empty_leaf_value(),
{
    U256 { hi: 0x25302288db99350344974183ce310d63, lo: 0xb53abb9ef0f8575753eed36e0118f9ce }
}

/// 2^level: the number of leaves below a node of height `level`.
pub open spec fn width(level: nat) -> nat
    decreases level,
{
    if level == 0 {
        1
    } else {
        2 * width((level - 1) as nat)
    }
}

/// The root of an empty subtree of height `level`.
pub open spec fn zero_node<H: Fn(U256, U256) -> U256>(hash: &H, level: nat) -> U256
    decreases level,
{
    if level == 0 {
        empty_leaf_spec()
    } else {
        let z = zero_node(hash, (level - 1) as nat);
        compress(hash, z, z)
    }
}

/// The node at height `level` and position `idx` of the tree whose leaves are
/// `leaves` followed by unfilled leaves.
pub open spec fn node<H: Fn(U256, U256) -> U256>(
    hash: &H,
    leaves: Seq<U256>,
    level: nat,
    idx: nat,
) -> U256
    decreases level,
{
    if level == 0 {
        if idx < leaves.len() {
            leaves[idx as int]
        } else {
            empty_leaf_spec()
        }
    } else {
        compress(
            hash,
            node(hash, leaves, (level - 1) as nat, 2 * idx),
            node(hash, leaves, (level - 1) as nat, 2 * idx + 1),
        )
    }
}

/// The root of the tree of height `levels` over `leaves`.
pub open spec fn tree_root<H: Fn(U256, U256) -> U256>(
    hash: &H,
    leaves: Seq<U256>,
    levels: nat,
) -> U256 {
    node(hash, leaves, levels, 0)
}

/// At height `l`, the node left of the next one to be completed is held in
/// `stored` whenever the count of completed nodes at that height is odd.
pub open spec fn level_ok<H: Fn(U256, U256) -> U256>(
    hash: &H,
    leaves: Seq<U256>,
    stored: U256,
    l: nat,
) -> bool {
    (leaves.len() / width(l)) % 2 == 1 ==> stored == node(
        hash,
        leaves,
        l,
        (leaves.len() / width(l) - 1) as nat,
    )
}

/// `level_ok` for every height in `[from, to)`.
pub open spec fn subtrees_ok<H: Fn(U256, U256) -> U256>(
    hash: &H,
    leaves: Seq<U256>,
    filled: Seq<U256>,
    from: nat,
    to: nat,
) -> bool {
    forall|l: nat| from <= l < to ==> #[trigger] level_ok(hash, leaves, filled[l as int], l)
}

/// `zeros[l]` is the empty subtree of height `l`, for every `l <= levels`.
pub open spec fn zeros_ok<H: Fn(U256, U256) -> U256>(
    hash: &H,
    zeros: Seq<U256>,
    levels: nat,
) -> bool {
    &&& zeros.len() == levels + 1
    &&& forall|l: nat| l <= levels ==> #[trigger] zeros[l as int] == zero_node(hash, l)
}

pub proof fn lemma_width(level: nat)
    ensures
        width(level) >= 1,
        level >= 1 ==> width(level) % 2 == 0,
        width(level + 1) == 2 * width(level),
    decreases level,
{
    if level > 0 {
        lemma_width((level - 1) as nat);
    }
}

/// Widths grow with height, up to 2^32 at height 32.
pub proof fn lemma_width_bound(level: nat)
    requires
        level <= 32,
    ensures
        width(level) <= 0x1_0000_0000,
    decreases 32 - level,
{
    if level < 32 {
        lemma_width_bound(level + 1);
        lemma_width(level);
    } else {
        reveal_with_fuel(width, 33);
    }
}

/// The number of leaves a tree of height `levels` holds.
pub fn leaf_capacity(levels: u32) -> (r: u64)
    requires
        levels <= 32,
    ensures
        r == width(levels as nat),
{
    let mut cap: u64 = 1;
    let mut i: u32 = 0;
    while i < levels
        invariant
            i <= levels <= 32,
            cap == width(i as nat),
        decreases levels - i,
    {
        proof {
            lemma_width(i as nat);
            lemma_width_bound((i + 1) as nat);
        }
        cap = cap * 2;
        i = i + 1;
    }
    cap
}

/// A node whose subtree starts at or after the last leaf is an empty subtree.
pub proof fn lemma_node_empty<H: Fn(U256, U256) -> U256>(
    hash: &H,
    leaves: Seq<U256>,
    level: nat,
    idx: nat,
)
    requires
        idx * width(level) >= leaves.len(),
    ensures
        node(hash, leaves, level, idx) == zero_node(hash, level),
    decreases level,
{
    if level == 0 {
        assert(width(0) == 1);
        assert(idx >= leaves.len()) by (nonlinear_arith)
            requires
                idx * width(level) >= leaves.len(),
                width(level) == 1,
        ;
    } else {
        let w = width((level - 1) as nat);
        assert(width(level) == 2 * w);
        assert((2 * idx) * w == idx * width(level)) by (nonlinear_arith)
            requires
                width(level) == 2 * w,
        ;
        assert((2 * idx + 1) * w >= (2 * idx) * w) by (nonlinear_arith);
        lemma_node_empty(hash, leaves, (level - 1) as nat, 2 * idx);
        lemma_node_empty(hash, leaves, (level - 1) as nat, 2 * idx + 1);
    }
}

/// Appending leaves leaves every node whose subtree lies within the old leaves
/// unchanged.
pub proof fn lemma_node_prefix<H: Fn(U256, U256) -> U256>(
    hash: &H,
    leaves: Seq<U256>,
    extra: Seq<U256>,
    level: nat,
    idx: nat,
)
    requires
        (idx + 1) * width(level) <= leaves.len(),
    ensures
        node(hash, leaves + extra, level, idx) == node(hash, leaves, level, idx),
    decreases level,
{
    if level == 0 {
        assert(width(0) == 1);
        assert(idx < leaves.len()) by (nonlinear_arith)
            requires
                (idx + 1) * width(level) <= leaves.len(),
                width(level) == 1,
        ;
        assert((leaves + extra)[idx as int] == leaves[idx as int]);
    } else {
        let w = width((level - 1) as nat);
        assert(width(level) == 2 * w);
        assert((2 * idx + 1 + 1) * w == (idx + 1) * width(level)) by (nonlinear_arith)
            requires
                width(level) == 2 * w,
        ;
        assert((2 * idx + 1) * w <= (2 * idx + 1 + 1) * w) by (nonlinear_arith);
        lemma_node_prefix(hash, leaves, extra, (level - 1) as nat, 2 * idx);
        lemma_node_prefix(hash, leaves, extra, (level - 1) as nat, 2 * idx + 1);
    }
}

/// The root of a tree over no leaves is the empty subtree of its height.
pub proof fn lemma_empty_tree<H: Fn(U256, U256) -> U256>(hash: &H, levels: nat)
    ensures
        tree_root(hash, Seq::<U256>::empty(), levels) == zero_node(hash, levels),
{
    lemma_node_empty(hash, Seq::<U256>::empty(), levels, 0);
}

/// With no leaves, every height satisfies `level_ok` vacuously.
pub proof fn lemma_empty_subtrees_ok<H: Fn(U256, U256) -> U256>(
    hash: &H,
    filled: Seq<U256>,
    from: nat,
    to: nat,
)
    ensures
        subtrees_ok(hash, Seq::<U256>::empty(), filled, from, to),
{
    assert forall|l: nat| from <= l < to implies #[trigger] level_ok(
        hash,
        Seq::<U256>::empty(),
        filled[l as int],
        l,
    ) by {
        lemma_width(l);
        assert(0nat / width(l) == 0) by (nonlinear_arith)
            requires
                width(l) >= 1,
        ;
    }
}

/// Division facts about counting complete nodes at one height and the next.
pub proof fn lemma_count_step(n: nat, k: nat, w: nat)
    requires
        w >= 1,
        n + k <= (n / w + 1) * w,
    ensures
        (n / w) / 2 == n / (2 * w),
        (n / w) * w <= n,
        (n + k) / w == n / w || (n + k) / w == n / w + 1,
        (n + k) / w == n / w + 1 ==> n + k == (n / w + 1) * w,
{
    let q = n / w;
    vstd::arithmetic::div_mod::lemma_fundamental_div_mod(n as int, w as int);
    vstd::arithmetic::div_mod::lemma_div_denominator(n as int, w as int, 2);
    assert(w * 2 == 2 * w);
    assert(q * w <= n) by (nonlinear_arith)
        requires
            n == w * q + n % w,
            n % w >= 0,
    ;
    let m = n + k;
    vstd::arithmetic::div_mod::lemma_fundamental_div_mod(m as int, w as int);
    let q2 = m / w;
    let r2 = m % w;
    assert(0 <= r2 < w);
    assert(q2 == q || q2 == q + 1) by (nonlinear_arith)
        requires
            m == w * q2 + r2,
            0 <= r2 < w,
            q * w <= n,
            n <= m,
            m <= (q + 1) * w,
            w >= 1,
    ;
    if q2 == q + 1 {
        assert(m == (q + 1) * w) by (nonlinear_arith)
            requires
                m == w * q2 + r2,
                q2 == q + 1,
                r2 >= 0,
                m <= (q + 1) * w,
        ;
    }
}

/// The next leaf fits below the node that the count of complete nodes points at.
pub proof fn lemma_room_one(n: nat, w: nat)
    requires
        w >= 1,
    ensures
        n + 1 <= (n / w + 1) * w,
{
    let q = n / w;
    let r = n % w;
    vstd::arithmetic::div_mod::lemma_fundamental_div_mod(n as int, w as int);
    assert(n + 1 <= (q + 1) * w) by (nonlinear_arith)
        requires
            n == w * q + r,
            r < w,
    ;
}

/// With an even count and an even width, the next two leaves fit below the
/// node that the count of complete nodes points at.
pub proof fn lemma_room_two(n: nat, w: nat)
    requires
        w >= 2,
        w % 2 == 0,
        n % 2 == 0,
    ensures
        n + 2 <= (n / w + 1) * w,
{
    let q = n / w;
    let r = n % w;
    vstd::arithmetic::div_mod::lemma_fundamental_div_mod(n as int, w as int);
    let h = w / 2;
    assert(w == 2 * h);
    assert(r == n - 2 * (h * q)) by (nonlinear_arith)
        requires
            n == w * q + r,
            w == 2 * h,
    ;
    assert(r % 2 == 0);
    assert(r + 2 <= w);
    assert(n + 2 <= (q + 1) * w) by (nonlinear_arith)
        requires
            n == w * q + r,
            r + 2 <= w,
    ;
}

/// One level of incremental insertion: combining the running node with the
/// stored left sibling or the empty right sibling gives the parent over the
/// extended leaves, and the stored value for this height stays valid.
pub proof fn lemma_insert_level<H: Fn(U256, U256) -> U256>(
    hash: &H,
    leaves: Seq<U256>,
    extra: Seq<U256>,
    lvl: nat,
    cur: U256,
    stored: U256,
    zero: U256,
)
    requires
        extra.len() >= 1,
        leaves.len() + extra.len() <= (leaves.len() / width(lvl) + 1) * width(lvl),
        cur == node(hash, leaves + extra, lvl, leaves.len() / width(lvl)),
        zero == zero_node(hash, lvl),
        level_ok(hash, leaves, stored, lvl),
    ensures
        ({
            let idx = leaves.len() / width(lvl);
            let parent = if idx % 2 == 1 {
                compress(hash, stored, cur)
            } else {
                compress(hash, cur, zero)
            };
            let kept = if idx % 2 == 1 {
                stored
            } else {
                cur
            };
            &&& parent == node(hash, leaves + extra, lvl + 1, idx / 2)
            &&& idx / 2 == leaves.len() / width(lvl + 1)
            &&& level_ok(hash, leaves + extra, kept, lvl)
        }),
{
    let n = leaves.len();
    let k = extra.len();
    let w = width(lvl);
    let idx = n / w;
    let all = leaves + extra;
    lemma_width(lvl);
    lemma_count_step(n, k, w);
    assert(all.len() == n + k);
    if idx % 2 == 1 {
        // the left sibling is complete and held in `stored`
        lemma_node_prefix(hash, leaves, extra, lvl, (idx - 1) as nat);
        assert(2 * (idx / 2) == idx - 1);
        assert(2 * (idx / 2) + 1 == idx);
    } else {
        // the right sibling lies past the last leaf
        assert((idx + 1) * w >= n + k);
        lemma_node_empty(hash, all, lvl, idx + 1);
        assert(2 * (idx / 2) == idx);
        assert(2 * (idx / 2) + 1 == idx + 1);
    }
}

} // verus!
