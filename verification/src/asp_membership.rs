//! The allowlist (Association Set Provider membership): an append-only
//! Merkle tree of enrolled keys whose root every spend must prove against.
use vstd::prelude::*;
use crate::address::Address;
use crate::field::{bn256_modulus, field_modulus};
use crate::merkle::{
    compress, empty_leaf, hash_left_right, hasher_ok, leaf_capacity, lemma_empty_subtrees_ok,
    lemma_empty_tree, lemma_insert_level, lemma_room_one, lemma_width, lemma_width_bound,
    level_ok, node, subtrees_ok, tree_root, width, zero_node, zeros_ok,
};
use crate::uint::U256;

verus! {

/// Failures of the allowlist.
#[derive(Clone, Copy, Debug, PartialEq, Eq, Structural)]
pub enum Error {
    NotAuthorized,
    MerkleTreeFull,
    WrongLevels,
    NotInitialized,
    Overflow,
    InvalidFieldElement,
}

/// Published when a leaf is enrolled.
#[derive(Clone, Copy, Debug, PartialEq, Eq, Structural)]
pub struct LeafAddedEvent {
    pub leaf: U256,
    pub index: u64,
    pub root: U256,
}

/// Published when a leaf is revoked and a rebuilt root takes over.
#[derive(Clone, Copy, Debug, PartialEq, Eq, Structural)]
pub struct LeafRevokedEvent {
    pub leaf: U256,
    pub root: U256,
}

/// The allowlist's persistent state.
pub struct ASPMembership {
    admin: Address,
    levels: u32,
    next_index: u64,
    root: U256,
    filled_subtrees: Vec<U256>,
    zeros: Vec<U256>,
    admin_insert_only: bool,
    members: Ghost<Seq<U256>>,
}

impl ASPMembership {
    /// The enrolled leaves, in order.
    pub closed spec fn members(&self) -> Seq<U256> {
        self.members@
    }

    /// The height of the tree.
    pub closed spec fn height(&self) -> nat {
        self.levels as nat
    }

    /// The administrator.
    pub closed spec fn admin_spec(&self) -> Address {
        self.admin
    }

    /// Whether only the administrator may enrol.
    pub closed spec fn insert_only_by_admin(&self) -> bool {
        self.admin_insert_only
    }

    /// The published root.
    pub closed spec fn root_spec(&self) -> U256 {
        self.root
    }

    /// The state is well formed for the compression function `hash`: the
    /// published root is the root of the enrolled leaves.
    pub closed spec fn inv<H: Fn(U256, U256) -> U256>(&self, hash: &H) -> bool {
        &&& 1 <= self.levels <= 32
        &&& zeros_ok(hash, self.zeros@, self.levels as nat)
        &&& self.filled_subtrees@.len() == self.levels
        &&& subtrees_ok(hash, self.members@, self.filled_subtrees@, 0, self.levels as nat)
        &&& self.next_index == self.members@.len()
        &&& self.next_index <= width(self.levels as nat)
        &&& self.root == tree_root(hash, self.members@, self.levels as nat)
        &&& forall|i: int|
            0 <= i < self.members@.len() ==> #[trigger] self.members@[i]@ < field_modulus()
    }

    /// The facts of `inv` that callers rely on.
    pub proof fn lemma_inv<H: Fn(U256, U256) -> U256>(&self, hash: &H)
        requires
            self.inv(hash),
        ensures
            1 <= self.height() <= 32,
            self.members().len() <= width(self.height()),
            self.root_spec() == tree_root(hash, self.members(), self.height()),
    {
    }

    /// Rejects a value outside the BN254 scalar field.
    pub fn ensure_field_element(value: &U256) -> (r: Result<(), Error>)
        ensures
            r is Ok <==> value@ < field_modulus(),
            r is Err ==> r == Err::<(), Error>(Error::InvalidFieldElement),
    {
        let m = bn256_modulus();
        if m.le(value) {
            return Err(Error::InvalidFieldElement);
        }
        Ok(())
    }

    /// Creates an empty allowlist of height `levels` (1..=32) run by `admin`;
    /// enrolment starts admin-only.
    pub fn new<H: Fn(U256, U256) -> U256>(hash: &H, admin: Address, levels: u32) -> (r: Result<
        ASPMembership,
        Error,
    >)
        requires
            hasher_ok(hash),
        ensures
            r is Err <==> levels == 0 || levels > 32,
            r is Err ==> r == Err::<ASPMembership, Error>(Error::WrongLevels),
            r matches Ok(s) ==> {
                &&& s.inv(hash)
                &&& s.height() == levels
                &&& s.members() == Seq::<U256>::empty()
                &&& s.admin_spec() == admin
                &&& s.insert_only_by_admin()
                &&& s.root_spec() == zero_node(hash, levels as nat)
            },
    {
        if levels == 0 || levels > 32 {
            return Err(Error::WrongLevels);
        }
        let mut zeros: Vec<U256> = Vec::new();
        let mut filled: Vec<U256> = Vec::new();
        let mut z = empty_leaf();
        let mut lvl: u32 = 0;
        while lvl < levels
            invariant
                hasher_ok(hash),
                1 <= levels <= 32,
                lvl <= levels,
                zeros@.len() == lvl,
                filled@.len() == lvl,
                z == zero_node(hash, lvl as nat),
                forall|l: nat| l < lvl ==> #[trigger] zeros@[l as int] == zero_node(hash, l),
            decreases levels - lvl,
        {
            zeros.push(z);
            filled.push(z);
            z = hash_left_right(hash, z, z);
            lvl = lvl + 1;
        }
        zeros.push(z);
        let ghost empty = Seq::<U256>::empty();
        proof {
            lemma_empty_tree(hash, levels as nat);
            lemma_empty_subtrees_ok(hash, filled@, 0, levels as nat);
            assert(zeros_ok(hash, zeros@, levels as nat));
            lemma_width(levels as nat);
        }
        Ok(
            ASPMembership {
                admin,
                levels,
                next_index: 0,
                root: z,
                filled_subtrees: filled,
                zeros,
                admin_insert_only: true,
                members: Ghost(empty),
            },
        )
    }

    /// Enrols `leaf` as the next member and publishes the new root. While
    /// enrolment is admin-only, `admin_authorized` (whether the administrator
    /// has signed the call) must hold.
    #[verifier::rlimit(40)]
    #[verifier::spinoff_prover]
    pub fn insert_leaf<H: Fn(U256, U256) -> U256>(
        &mut self,
        hash: &H,
        leaf: U256,
        admin_authorized: bool,
    ) -> (r: Result<LeafAddedEvent, Error>)
        requires
            old(self).inv(hash),
            hasher_ok(hash),
        ensures
            leaf@ >= field_modulus() ==> r == Err::<LeafAddedEvent, Error>(
                Error::InvalidFieldElement,
            ),
            leaf@ < field_modulus() && old(self).insert_only_by_admin() && !admin_authorized
                ==> r == Err::<LeafAddedEvent, Error>(Error::NotAuthorized),
            leaf@ < field_modulus() && (!old(self).insert_only_by_admin() || admin_authorized)
                && old(self).members().len() == width(old(self).height()) ==> r == Err::<
                LeafAddedEvent,
                Error,
            >(Error::MerkleTreeFull),
            r is Ok <==> leaf@ < field_modulus() && (!old(self).insert_only_by_admin()
                || admin_authorized) && old(self).members().len() < width(old(self).height()),
            r is Err ==> *final(self) == *old(self),
            r matches Ok(ev) ==> {
                let members = old(self).members().push(leaf);
                &&& final(self).inv(hash)
                &&& final(self).members() == members
                &&& final(self).height() == old(self).height()
                &&& final(self).admin_spec() == old(self).admin_spec()
                &&& final(self).insert_only_by_admin() == old(self).insert_only_by_admin()
                &&& final(self).root_spec() == tree_root(hash, members, old(self).height())
                &&& ev == LeafAddedEvent {
                    leaf,
                    index: old(self).members().len() as u64,
                    root: final(self).root_spec(),
                }
            },
    {
        Self::ensure_field_element(&leaf)?;
        if self.admin_insert_only && !admin_authorized {
            return Err(Error::NotAuthorized);
        }
        let levels = self.levels;
        let n = self.next_index;
        let cap = leaf_capacity(levels);
        if n >= cap {
            return Err(Error::MerkleTreeFull);
        }
        let ghost old_members = self.members@;
        let ghost old_fs = self.filled_subtrees@;
        let ghost extra = seq![leaf];
        let ghost new_members = old_members + extra;
        proof {
            lemma_width(0);
            assert(width(0) == 1);
            assert(new_members[n as int] == leaf);
            assert(node(hash, new_members, 0, n as nat) == leaf);
            assert((n as nat) / width(0) == n);
        }
        let mut current_index: u64 = n;
        let mut current_hash = leaf;
        let mut lvl: u32 = 0;
        while lvl < levels
            invariant
                hasher_ok(hash),
                lvl <= levels <= 32,
                1 <= levels,
                levels == self.levels,
                self.zeros == old(self).zeros,
                zeros_ok(hash, self.zeros@, levels as nat),
                self.filled_subtrees@.len() == levels,
                old_members.len() == n,
                n < width(levels as nat),
                new_members == old_members + extra,
                extra.len() == 1,
                old_fs.len() == levels,
                subtrees_ok(hash, old_members, old_fs, 0, levels as nat),
                current_index == (n as nat) / width(lvl as nat),
                current_hash == node(hash, new_members, lvl as nat, (n as nat) / width(lvl as nat)),
                subtrees_ok(hash, new_members, self.filled_subtrees@, 0, lvl as nat),
                forall|l: int| lvl <= l < levels ==> #[trigger] self.filled_subtrees@[l] == old_fs[l],
                self.admin == old(self).admin,
                self.admin_insert_only == old(self).admin_insert_only,
                self.levels == old(self).levels,
                self.next_index == old(self).next_index,
                self.root == old(self).root,
                self.members == old(self).members,
            decreases levels - lvl,
        {
            let ghost l = lvl as nat;
            let ghost stored = self.filled_subtrees@[lvl as int];
            proof {
                lemma_width(l);
                lemma_width_bound(l);
                lemma_room_one(n as nat, width(l));
                assert(level_ok(hash, old_members, old_fs[lvl as int], l));
                assert(self.zeros@[lvl as int] == zero_node(hash, l));
                lemma_insert_level(
                    hash,
                    old_members,
                    extra,
                    l,
                    current_hash,
                    stored,
                    self.zeros@[lvl as int],
                );
            }
            if current_index % 2 == 1 {
                let left = self.filled_subtrees[lvl as usize];
                current_hash = hash_left_right(hash, left, current_hash);
            } else {
                self.filled_subtrees.set(lvl as usize, current_hash);
                let z = self.zeros[lvl as usize];
                current_hash = hash_left_right(hash, current_hash, z);
            }
            current_index = current_index / 2;
            lvl = lvl + 1;
            proof {
                assert forall|k: nat| k < lvl implies #[trigger] level_ok(
                    hash,
                    new_members,
                    self.filled_subtrees@[k as int],
                    k,
                ) by {
                    if k < l {
                        assert(level_ok(hash, new_members, self.filled_subtrees@[k as int], k));
                    }
                }
            }
        }
        proof {
            lemma_width(levels as nat);
            assert((n as nat) / width(levels as nat) == 0) by (nonlinear_arith)
                requires
                    n < width(levels as nat),
            ;
            lemma_width_bound(levels as nat);
        }
        self.root = current_hash;
        self.next_index = n + 1;
        self.members = Ghost(new_members);
        proof {
            assert forall|i: int| 0 <= i < self.members@.len() implies #[trigger] self.members@[
                i]@ < field_modulus() by {
                if i < n {
                    assert(self.members@[i] == old_members[i]);
                }
            }
        }
        proof {
            assert(new_members =~= old(self).members().push(leaf));
            assert(self.admin_insert_only == old(self).admin_insert_only);
            assert(self.admin == old(self).admin);
            assert(self.inv(hash));
        }
        Ok(LeafAddedEvent { leaf, index: n, root: current_hash })
    }

    /// The published root.
    pub fn get_root(&self) -> (r: U256)
        ensures
            r == self.root_spec(),
    {
        self.root
    }

    /// The administrator, whose authorisation admin operations need.
    pub fn admin(&self) -> (r: Address)
        ensures
            r == self.admin_spec(),
    {
        self.admin
    }

    /// Whether enrolment needs the administrator's authorisation.
    pub fn admin_insert_only(&self) -> (r: bool)
        ensures
            r == self.insert_only_by_admin(),
    {
        self.admin_insert_only
    }

    /// Compresses two field elements; a value outside the field is refused.
    pub fn hash_pair<H: Fn(U256, U256) -> U256>(hash: &H, left: U256, right: U256) -> (r: Result<
        U256,
        Error,
    >)
        requires
            hasher_ok(hash),
        ensures
            left@ >= field_modulus() || right@ >= field_modulus() ==> r == Err::<U256, Error>(
                Error::InvalidFieldElement,
            ),
            left@ < field_modulus() && right@ < field_modulus() ==> r == Ok::<U256, Error>(
                compress(hash, left, right),
            ),
    {
        Self::ensure_field_element(&left)?;
        Self::ensure_field_element(&right)?;
        Ok(hash_left_right(hash, left, right))
    }

    /// Hands the administrator role to `new_admin`; refused unless the current
    /// administrator has signed the call (`admin_authorized`).
    pub fn update_admin(&mut self, new_admin: Address, admin_authorized: bool) -> (r: Result<
        (),
        Error,
    >)
        ensures
            r is Ok <==> admin_authorized,
            r is Err ==> r == Err::<(), Error>(Error::NotAuthorized) && *final(self) == *old(self),
            final(self).same_tree(old(self)),
            r is Ok ==> final(self).admin_spec() == new_admin,
            final(self).insert_only_by_admin() == old(self).insert_only_by_admin(),
    {
        if !admin_authorized {
            return Err(Error::NotAuthorized);
        }
        self.admin = new_admin;
        Ok(())
    }

    /// Sets whether enrolment needs the administrator's signature; refused
    /// unless the administrator has signed the call (`admin_authorized`).
    pub fn set_admin_insert_only(&mut self, admin_only: bool, admin_authorized: bool) -> (r:
        Result<(), Error>)
        ensures
            r is Ok <==> admin_authorized,
            r is Err ==> r == Err::<(), Error>(Error::NotAuthorized) && *final(self) == *old(self),
            final(self).same_tree(old(self)),
            final(self).admin_spec() == old(self).admin_spec(),
            r is Ok ==> final(self).insert_only_by_admin() == admin_only,
    {
        if !admin_authorized {
            return Err(Error::NotAuthorized);
        }
        self.admin_insert_only = admin_only;
        Ok(())
    }

    /// The two states hold the same tree.
    pub closed spec fn same_tree(&self, other: &Self) -> bool {
        &&& self.levels == other.levels
        &&& self.next_index == other.next_index
        &&& self.root == other.root
        &&& self.filled_subtrees == other.filled_subtrees
        &&& self.zeros == other.zeros
        &&& self.members == other.members
    }

    /// Well-formedness depends on the tree alone.
    pub proof fn lemma_same_tree<H: Fn(U256, U256) -> U256>(&self, other: &Self, hash: &H)
        requires
            other.inv(hash),
            self.same_tree(other),
        ensures
            self.inv(hash),
            self.members() == other.members(),
            self.height() == other.height(),
            self.root_spec() == other.root_spec(),
    {
    }
}

} // verus!
