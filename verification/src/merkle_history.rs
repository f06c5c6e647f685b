//! The pool's commitment tree: an incremental Merkle tree filled two leaves
//! at a time, which remembers its most recent roots.
use vstd::prelude::*;
use crate::uint::U256;
use crate::merkle::{
    empty_leaf, hash_left_right, hasher_ok, leaf_capacity, lemma_empty_subtrees_ok,
    lemma_empty_tree, lemma_insert_level, lemma_room_two, lemma_width, lemma_width_bound,
    level_ok, node, subtrees_ok, compress, tree_root, width, zero_node, zeros_ok,
};

verus! {

/// How many of the most recent roots the tree remembers.
pub const ROOT_HISTORY_SIZE: u32 = 100;

/// Failures of the commitment tree.
#[derive(Clone, Copy, Debug, PartialEq, Eq, Structural)]
pub enum MerkleError {
    AlreadyInitialized,
    MerkleTreeFull,
    WrongLevels,
    NextIndexNotEven,
    NotInitialized,
    Overflow,
}

/// Distance, going backwards round the ring, from slot `cur` to slot `j`.
pub open spec fn ring_age(cur: int, j: int) -> int {
    if j <= cur {
        cur - j
    } else {
        cur + ROOT_HISTORY_SIZE - j
    }
}

/// The roots still remembered: the last `ROOT_HISTORY_SIZE` of `history`.
pub open spec fn recent(history: Seq<U256>) -> Seq<U256> {
    if history.len() <= ROOT_HISTORY_SIZE {
        history
    } else {
        history.subrange(history.len() - ROOT_HISTORY_SIZE, history.len() as int)
    }
}

/// Whether `root` is a non-zero root among the remembered ones.
pub open spec fn known_root(history: Seq<U256>, root: U256) -> bool {
    root@ != 0 && recent(history).contains(root)
}

/// The root `k` insertions back is remembered while `k` is below the
/// history size.
pub proof fn lemma_recent_holds(history: Seq<U256>, k: int)
    requires
        0 <= k < history.len(),
        k < ROOT_HISTORY_SIZE,
    ensures
        recent(history).contains(history[history.len() - 1 - k]),
{
    let rec = recent(history);
    let idx = rec.len() - 1 - k;
    assert(rec[idx] == history[history.len() - 1 - k]);
}

/// Every remembered root is the root some `k < ROOT_HISTORY_SIZE`
/// insertions back.
pub proof fn lemma_recent_from(history: Seq<U256>, root: U256) -> (k: int)
    requires
        recent(history).contains(root),
    ensures
        0 <= k < history.len(),
        k < ROOT_HISTORY_SIZE,
        history[history.len() - 1 - k] == root,
{
    let rec = recent(history);
    let idx = choose|idx: int| 0 <= idx < rec.len() && rec[idx] == root;
    let k = rec.len() - 1 - idx;
    assert(rec[idx] == history[history.len() - rec.len() + idx]);
    k
}

/// The commitment tree of the pool.
#[derive(Clone)]
pub struct MerkleTreeWithHistory {
    levels: u32,
    filled_subtrees: Vec<U256>,
    zeros: Vec<U256>,
    roots: Vec<U256>,
    current_root_index: u32,
    next_index: u64,
    leaves: Ghost<Seq<U256>>,
    history: Ghost<Seq<U256>>,
}

impl MerkleTreeWithHistory {
    /// The leaves inserted so far, in order.
    pub closed spec fn leaves(&self) -> Seq<U256> {
        self.leaves@
    }

    /// Every root the tree has had, oldest first; the last is the current one.
    pub closed spec fn history(&self) -> Seq<U256> {
        self.history@
    }

    /// The height of the tree.
    pub closed spec fn height(&self) -> nat {
        self.levels as nat
    }

    /// The parts of well-formedness that do not depend on the hash.
    pub closed spec fn wf(&self) -> bool {
        &&& 1 <= self.levels <= 32
        &&& self.next_index == self.leaves@.len()
        &&& self.next_index % 2 == 0
        &&& self.next_index <= width(self.levels as nat)
        &&& self.history@.len() >= 1
        &&& self.ring_ok()
    }

    closed spec fn ring_ok(&self) -> bool {
        &&& self.roots@.len() == ROOT_HISTORY_SIZE
        &&& self.current_root_index < ROOT_HISTORY_SIZE
        &&& forall|j: int|
            0 <= j < ROOT_HISTORY_SIZE ==> {
                let k = ring_age(self.current_root_index as int, j);
                if k < self.history@.len() {
                    #[trigger] self.roots@[j] == self.history@[self.history@.len() - 1 - k]
                } else {
                    self.roots@[j]@ == 0
                }
            }
    }

    /// The tree is well formed for the compression function `hash`.
    pub closed spec fn inv<H: Fn(U256, U256) -> U256>(&self, hash: &H) -> bool {
        &&& self.wf()
        &&& zeros_ok(hash, self.zeros@, self.levels as nat)
        &&& self.filled_subtrees@.len() == self.levels
        &&& subtrees_ok(hash, self.leaves@, self.filled_subtrees@, 1, self.levels as nat)
        &&& self.history@.last() == tree_root(hash, self.leaves@, self.levels as nat)
    }

    /// The facts of `inv` that callers rely on.
    pub proof fn lemma_inv<H: Fn(U256, U256) -> U256>(&self, hash: &H)
        requires
            self.inv(hash),
        ensures
            self.wf(),
            1 <= self.height() <= 32,
            self.leaves().len() % 2 == 0,
            self.leaves().len() <= width(self.height()),
            self.history().len() >= 1,
            self.history().last() == tree_root(hash, self.leaves(), self.height()),
    {
    }

    /// Creates the tree in an empty storage slot; fails if the slot is taken
    /// or `levels` is outside 1..=32.
    pub fn init<H: Fn(U256, U256) -> U256>(
        slot: &mut Option<MerkleTreeWithHistory>,
        hash: &H,
        levels: u32,
    ) -> (r: Result<(), MerkleError>)
        requires
            hasher_ok(hash),
        ensures
            (*old(slot)) is Some ==> r == Err::<(), MerkleError>(MerkleError::AlreadyInitialized),
            (*old(slot)) is None && (levels == 0 || levels > 32) ==> r == Err::<(), MerkleError>(
                MerkleError::WrongLevels,
            ),
            r is Err ==> *final(slot) == *old(slot),
            r is Ok <==> (*old(slot)) is None && 1 <= levels <= 32,
            r is Ok ==> ((*final(slot)) matches Some(t) && t.inv(hash) && t.height() == levels
                && t.leaves() == Seq::<U256>::empty() && t.history() == seq![
                tree_root(hash, Seq::<U256>::empty(), levels as nat)]),
    {
        if slot.is_some() {
            return Err(MerkleError::AlreadyInitialized);
        }
        if levels == 0 || levels > 32 {
            return Err(MerkleError::WrongLevels);
        }
        let mut zeros: Vec<U256> = Vec::new();
        let mut filled: Vec<U256> = Vec::new();
        let mut z = empty_leaf();
        let mut lvl: u32 = 0;
        while lvl < levels
            invariant
                hasher_ok(hash),
                1 <= levels <= 32,
                lvl <= levels,
                zeros@.len() == lvl,
                filled@.len() == lvl,
                z == zero_node(hash, lvl as nat),
                forall|l: nat| l < lvl ==> #[trigger] zeros@[l as int] == zero_node(hash, l),
            decreases levels - lvl,
        {
            zeros.push(z);
            filled.push(z);
            z = hash_left_right(hash, z, z);
            lvl = lvl + 1;
        }
        zeros.push(z);
        let mut roots: Vec<U256> = Vec::new();
        roots.push(z);
        let mut i: u32 = 1;
        while i < ROOT_HISTORY_SIZE
            invariant
                1 <= i <= ROOT_HISTORY_SIZE,
                roots@.len() == i,
                roots@[0] == z,
                forall|j: int| 1 <= j < i ==> #[trigger] roots@[j]@ == 0,
            decreases ROOT_HISTORY_SIZE - i,
        {
            roots.push(U256::zero());
            i = i + 1;
        }
        let ghost empty = Seq::<U256>::empty();
        let ghost first = seq![z];
        proof {
            lemma_empty_tree(hash, levels as nat);
            lemma_empty_subtrees_ok(hash, filled@, 1, levels as nat);
            assert(zeros_ok(hash, zeros@, levels as nat));
            lemma_width(levels as nat);
        }
        let tree = MerkleTreeWithHistory {
            levels,
            filled_subtrees: filled,
            zeros,
            roots,
            current_root_index: 0,
            next_index: 0,
            leaves: Ghost(empty),
            history: Ghost(first),
        };
        proof {
            assert forall|j: int| 0 <= j < ROOT_HISTORY_SIZE implies {
                let k = ring_age(0, j);
                if k < tree.history@.len() {
                    #[trigger] tree.roots@[j] == tree.history@[tree.history@.len() - 1 - k]
                } else {
                    tree.roots@[j]@ == 0
                }
            } by {
                if j > 0 {
                    assert(ring_age(0, j) >= 1);
                }
            }
        }
        *slot = Some(tree);
        Ok(())
    }

    /// The current root.
    pub fn get_last_root(&self) -> (r: U256)
        requires
            self.wf(),
        ensures
            r == self.history().last(),
    {
        let r = self.roots[self.current_root_index as usize];
        r
    }
}

impl MerkleTreeWithHistory {
    /// How many leaves have been inserted.
    pub fn next_index(&self) -> (r: u64)
        requires
            self.wf(),
        ensures
            r == self.leaves().len(),
    {
        self.next_index
    }

    /// The number of levels.
    pub fn levels(&self) -> (r: u32)
        ensures
            r == self.height(),
    {
        self.levels
    }

    /// Inserts `leaf1` and `leaf2` as the next two leaves and records the new
    /// root; returns their indices. Fails when the tree is full.
    pub fn insert_two_leaves<H: Fn(U256, U256) -> U256>(
        &mut self,
        hash: &H,
        leaf1: U256,
        leaf2: U256,
    ) -> (r: Result<(u32, u32), MerkleError>)
        requires
            old(self).inv(hash),
            hasher_ok(hash),
        ensures
            r is Err <==> old(self).leaves().len() == width(old(self).height()),
            r is Err ==> r == Err::<(u32, u32), MerkleError>(MerkleError::MerkleTreeFull),
            r is Err ==> *final(self) == *old(self),
            r is Ok ==> ({
                let n = old(self).leaves().len();
                let leaves = old(self).leaves() + seq![leaf1, leaf2];
                &&& r == Ok::<(u32, u32), MerkleError>((n as u32, (n + 1) as u32))
                &&& n + 1 < 0x1_0000_0000
                &&& final(self).inv(hash)
                &&& final(self).height() == old(self).height()
                &&& final(self).leaves() == leaves
                &&& final(self).history() == old(self).history().push(
                    tree_root(hash, leaves, old(self).height()),
                )
            }),
    {
        let levels = self.levels;
        let n = self.next_index;
        let cap = leaf_capacity(levels);
        if n >= cap {
            return Err(MerkleError::MerkleTreeFull);
        }
        if n % 2 != 0 {
            return Err(MerkleError::NextIndexNotEven);
        }
        let ghost old_leaves = self.leaves@;
        let ghost old_fs = self.filled_subtrees@;
        let ghost extra = seq![leaf1, leaf2];
        let ghost new_leaves = old_leaves + extra;
        proof {
            lemma_width(0);
            lemma_width(1);
            lemma_width(levels as nat);
            lemma_width_bound(levels as nat);
            assert(n + 2 <= width(levels as nat)) by {
                lemma_room_two(n as nat, width(levels as nat));
                assert((n as nat) / width(levels as nat) == 0) by (nonlinear_arith)
                    requires
                        n < width(levels as nat),
                ;
            }
            assert(new_leaves[n as int] == leaf1);
            assert(new_leaves[n + 1] == leaf2);
            assert(2 * (n as nat / 2) == n);
            assert(width(1) == 2);
            assert(node(hash, new_leaves, 0, n as nat) == leaf1);
            assert(node(hash, new_leaves, 0, (n + 1) as nat) == leaf2);
            assert(node(hash, new_leaves, 1, (n as nat) / 2) == compress(hash, leaf1, leaf2));
        }
        let mut current_index: u64 = n / 2;
        let mut current_hash = hash_left_right(hash, leaf1, leaf2);
        let mut lvl: u32 = 1;
        while lvl < levels
            invariant
                hasher_ok(hash),
                1 <= lvl <= levels <= 32,
                levels == self.levels,
                self.zeros == old(self).zeros,
                zeros_ok(hash, self.zeros@, levels as nat),
                self.filled_subtrees@.len() == levels,
                old_leaves.len() == n,
                n % 2 == 0,
                n + 2 <= width(levels as nat),
                new_leaves == old_leaves + extra,
                extra.len() == 2,
                old_fs.len() == levels,
                subtrees_ok(hash, old_leaves, old_fs, 1, levels as nat),
                current_index == (n as nat) / width(lvl as nat),
                current_hash == node(hash, new_leaves, lvl as nat, (n as nat) / width(lvl as nat)),
                subtrees_ok(hash, new_leaves, self.filled_subtrees@, 1, lvl as nat),
                forall|l: int| lvl <= l < levels ==> #[trigger] self.filled_subtrees@[l] == old_fs[l],
                self.levels == old(self).levels,
                self.roots == old(self).roots,
                self.current_root_index == old(self).current_root_index,
                self.next_index == old(self).next_index,
                self.leaves == old(self).leaves,
                self.history == old(self).history,
            decreases levels - lvl,
        {
            let ghost l = lvl as nat;
            let ghost stored = self.filled_subtrees@[lvl as int];
            proof {
                lemma_width(l);
                lemma_width_bound(l);
                lemma_room_two(n as nat, width(l));
                assert(level_ok(hash, old_leaves, old_fs[lvl as int], l));
                assert(self.zeros@[lvl as int] == zero_node(hash, l));
                lemma_insert_level(
                    hash,
                    old_leaves,
                    extra,
                    l,
                    current_hash,
                    stored,
                    self.zeros@[lvl as int],
                );
            }
            if current_index % 2 == 1 {
                let left = self.filled_subtrees[lvl as usize];
                current_hash = hash_left_right(hash, left, current_hash);
            } else {
                self.filled_subtrees.set(lvl as usize, current_hash);
                let z = self.zeros[lvl as usize];
                current_hash = hash_left_right(hash, current_hash, z);
            }
            current_index = current_index / 2;
            lvl = lvl + 1;
            proof {
                assert forall|k: nat| 1 <= k < lvl implies #[trigger] level_ok(
                    hash,
                    new_leaves,
                    self.filled_subtrees@[k as int],
                    k,
                ) by {
                    if k < l {
                        assert(level_ok(hash, new_leaves, self.filled_subtrees@[k as int], k));
                    }
                }
            }
        }
        proof {
            lemma_width(levels as nat);
            assert((n as nat) / width(levels as nat) == 0) by (nonlinear_arith)
                requires
                    n < width(levels as nat),
            ;
        }
        let cur = self.current_root_index;
        let new_root_index = if cur + 1 == ROOT_HISTORY_SIZE {
            0
        } else {
            cur + 1
        };
        self.roots.set(new_root_index as usize, current_hash);
        self.current_root_index = new_root_index;
        self.next_index = n + 2;
        self.leaves = Ghost(new_leaves);
        let ghost new_history = self.history@.push(current_hash);
        self.history = Ghost(new_history);
        proof {
            assert forall|j: int| 0 <= j < ROOT_HISTORY_SIZE implies {
                let k = ring_age(self.current_root_index as int, j);
                if k < self.history@.len() {
                    #[trigger] self.roots@[j] == self.history@[self.history@.len() - 1 - k]
                } else {
                    self.roots@[j]@ == 0
                }
            } by {
                if j != new_root_index {
                    assert(ring_age(new_root_index as int, j) == ring_age(cur as int, j) + 1);
                    assert(self.roots@[j] == old(self).roots@[j]);
                }
            }
        }
        Ok((n as u32, (n + 1) as u32))
    }

    /// Whether `root` is non-zero and one of the remembered roots.
    pub fn is_known_root(&self, root: &U256) -> (r: bool)
        requires
            self.wf(),
        ensures
            r == known_root(self.history(), *root),
    {
        if root.hi == 0 && root.lo == 0 {
            return false;
        }
        let ghost hist = self.history@;
        let ghost cur = self.current_root_index as int;
        let mut i: usize = 0;
        while i < self.roots.len()
            invariant
                self.wf(),
                i <= self.roots@.len(),
                self.roots@.len() == ROOT_HISTORY_SIZE,
                root@ != 0,
                hist == self.history@,
                cur == self.current_root_index,
                forall|j: int| 0 <= j < i ==> self.roots@[j] != *root,
            decreases self.roots@.len() - i,
        {
            if self.roots[i].eq(root) {
                proof {
                    let k = ring_age(cur, i as int);
                    assert(k < hist.len()) by {
                        if k >= hist.len() {
                            assert(self.roots@[i as int]@ == 0);
                        }
                    }
                    assert(self.roots@[i as int] == *root);
                    assert(0 <= k < ROOT_HISTORY_SIZE);
                    assert(self.roots@[i as int] == hist[hist.len() - 1 - k]);
                    lemma_recent_holds(hist, k);
                }
                return true;
            }
            i = i + 1;
        }
        proof {
            if recent(hist).contains(*root) {
                let k = lemma_recent_from(hist, *root);
                let j = if k <= cur {
                    cur - k
                } else {
                    cur + ROOT_HISTORY_SIZE - k
                };
                assert(ring_age(cur, j) == k);
                assert(self.roots@[j] == hist[hist.len() - 1 - k]);
            }
        }
        false
    }
}

} // verus!
