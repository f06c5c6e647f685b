//! The shielded pool's rules: deposits, the checks a shielded spend must
//! pass, settlement, and the administrator's surface.
use vstd::prelude::*;
use crate::address::Address;
use crate::crypto::{keccak256, keccak256_value};
use crate::field::{bn256_modulus, field_modulus, is_field_element, reduce_mod_field};
use soroban_sdk::Env;
use crate::groth16::proof_empty;
use crate::merkle::{hasher_ok, tree_root, width};
use crate::merkle_history::{known_root, MerkleError, MerkleTreeWithHistory};
use crate::types::{
    Account, DepositEvent, ExtData, NewCommitmentEvent, NewNullifierEvent, PoolConfig, Proof,
    PublicKeyEvent, SettlementEvent, TokenTransfer,
};
use crate::uint::{I256, U256};
use crate::verifier_boundary::{public_inputs_spec, VerifierPublicInputs};

verus! {

/// The largest protocol fee, in basis points (100%).
pub const MAX_FEE_BPS: u32 = 10_000;

/// The pool's failures.
#[derive(Clone, Copy, Debug, PartialEq, Eq, Structural)]
pub enum ContractError {
    NotAuthorized,
    MerkleTreeFull,
    AlreadyInitialized,
    WrongLevels,
    NextIndexNotEven,
    WrongExtAmount,
    InvalidProof,
    UnknownRoot,
    AlreadySpentNullifier,
    WrongExtHash,
    NotInitialized,
    Overflow,
    InvalidFee,
    AlreadyInsertedCommitment,
    InvalidFieldElement,
}

/// The pool error that stands for a tree error.
pub open spec fn contract_error_of(e: MerkleError) -> ContractError {
    match e {
        MerkleError::AlreadyInitialized => ContractError::AlreadyInitialized,
        MerkleError::MerkleTreeFull => ContractError::MerkleTreeFull,
        MerkleError::WrongLevels => ContractError::WrongLevels,
        MerkleError::NextIndexNotEven => ContractError::NextIndexNotEven,
        MerkleError::NotInitialized => ContractError::NotInitialized,
        MerkleError::Overflow => ContractError::Overflow,
    }
}

impl From<MerkleError> for ContractError {
    fn from(e: MerkleError) -> (r: ContractError) {
        match e {
            MerkleError::AlreadyInitialized => ContractError::AlreadyInitialized,
            MerkleError::MerkleTreeFull => ContractError::MerkleTreeFull,
            MerkleError::WrongLevels => ContractError::WrongLevels,
            MerkleError::NextIndexNotEven => ContractError::NextIndexNotEven,
            MerkleError::NotInitialized => ContractError::NotInitialized,
            MerkleError::Overflow => ContractError::Overflow,
        }
    }
}

impl vstd::std_specs::convert::FromSpecImpl<MerkleError> for ContractError {
    open spec fn obeys_from_spec() -> bool {
        true
    }

    open spec fn from_spec(v: MerkleError) -> ContractError {
        contract_error_of(v)
    }
}

/// 2^248: external amounts must be strictly smaller in absolute value.
pub open spec fn max_ext_amount_value() -> nat {
    0x100_0000_0000_0000_0000_0000_0000_0000_0000_0000_0000_0000_0000_0000_0000_0000nat
}

/// 2^248.
pub fn max_ext_amount() -> (r: U256)
    ensures
        r@ == max_ext_amount_value(),
{
    U256 { hi: 0x100_0000_0000_0000_0000_0000_0000_0000, lo: 0 }
}

/// The field encoding of an external amount: the amount itself when it is not
/// negative, `FIELD_SIZE - |amount|` when it is; `None` when `|amount|` is not
/// below 2^248.
pub open spec fn public_amount_spec(e: int) -> Option<nat> {
    let abs = if e >= 0 {
        e
    } else {
        -e
    };
    if abs >= max_ext_amount_value() {
        None
    } else if e >= 0 {
        Some(e as nat)
    } else {
        Some((field_modulus() + e) as nat)
    }
}

/// Division rounding towards zero, as Rust's `/` on integers.
pub open spec fn trunc_div(x: int, d: int) -> int {
    if x >= 0 {
        x / d
    } else {
        -((-x) / d)
    }
}

/// The protocol fee on `amount` at `bps` basis points, rounded towards zero;
/// `None` when `amount * bps` does not fit an `i128`.
pub open spec fn fee_spec(amount: int, bps: int) -> Option<int> {
    let p = amount * bps;
    if p < i128::MIN || p > i128::MAX {
        None
    } else {
        Some(trunc_div(p, MAX_FEE_BPS as int))
    }
}

/// With a fee rate of at most 100%, the fee on a non-negative amount lies
/// between zero and the amount: a withdrawal never pays out more than it
/// takes from the pool.
pub proof fn lemma_fee_bounded(amount: int, bps: int)
    requires
        0 <= amount,
        0 <= bps <= MAX_FEE_BPS,
        fee_spec(amount, bps) is Some,
    ensures
        0 <= fee_spec(amount, bps).unwrap() <= amount,
{
    let p = amount * bps;
    assert(0 <= p <= amount * 10000) by (nonlinear_arith)
        requires
            0 <= amount,
            0 <= bps <= 10000,
            p == amount * bps,
    ;
    assert(p / 10000 <= amount) by (nonlinear_arith)
        requires
            0 <= p <= amount * 10000,
    ;
}

/// The fee is defined exactly when `amount * bps` fits an `i128`, and is then
/// `amount * bps / MAX_FEE_BPS` rounded down; in particular it is defined for
/// every amount up to `i128::MAX / MAX_FEE_BPS` at any rate up to
/// `MAX_FEE_BPS`.
pub proof fn lemma_fee_defined_when_product_fits(amount: int, bps: int)
    requires
        0 <= amount,
        0 <= bps,
    ensures
        amount * bps <= i128::MAX ==> fee_spec(amount, bps) == Some(
            amount * bps / (MAX_FEE_BPS as int),
        ),
        amount * bps > i128::MAX ==> fee_spec(amount, bps) is None,
        amount <= (i128::MAX as int) / (MAX_FEE_BPS as int) && bps <= MAX_FEE_BPS ==> fee_spec(amount, bps)
            == Some(amount * bps / (MAX_FEE_BPS as int)),
{
    assert(0 <= amount * bps) by (nonlinear_arith)
        requires
            0 <= amount,
            0 <= bps,
    ;
    if amount <= (i128::MAX as int) / 10000 && bps <= 10000 {
        assert(amount * bps <= ((i128::MAX as int) / 10000) * 10000) by (nonlinear_arith)
            requires
                0 <= amount <= (i128::MAX as int) / 10000,
                0 <= bps <= 10000,
        ;
    }
}

/// The binding hash of a transaction's external data: Keccak-256 of its
/// ledger (XDR) encoding `ext_xdr`, reduced modulo the field order.
pub fn hash_ext_data(env: &Env, ext_xdr: &Vec<u8>) -> (r: U256)
    ensures
        r@ == keccak256_value(ext_xdr@) % field_modulus(),
{
    let digest = keccak256(env, ext_xdr);
    reduce_mod_field(digest)
}

/// Whether `v` holds `x`.
pub fn contains_u256(v: &Vec<U256>, x: &U256) -> (r: bool)
    ensures
        r == v@.contains(*x),
{
    let mut i: usize = 0;
    while i < v.len()
        invariant
            i <= v@.len(),
            forall|j: int| 0 <= j < i ==> v@[j] != *x,
        decreases v@.len() - i,
    {
        if v[i].eq(x) {
            return true;
        }
        i = i + 1;
    }
    false
}

/// Every value of `s` lies in the field.
pub open spec fn all_in_field(s: Seq<U256>) -> bool {
    forall|i: int| 0 <= i < s.len() ==> #[trigger] s[i]@ < field_modulus()
}

/// Whether every value lies in the field.
pub fn all_field_elements(values: &Vec<U256>) -> (r: bool)
    ensures
        r == all_in_field(values@),
{
    let mut i: usize = 0;
    while i < values.len()
        invariant
            i <= values@.len(),
            forall|j: int| 0 <= j < i ==> #[trigger] values@[j]@ < field_modulus(),
        decreases values@.len() - i,
    {
        if !is_field_element(&values[i]) {
            return false;
        }
        i = i + 1;
    }
    true
}

/// Some nullifier of `ns` is already in `spent`, or appears twice in `ns`.
pub open spec fn nullifier_conflict(spent: Seq<U256>, ns: Seq<U256>) -> bool {
    exists|i: int|
        0 <= i < ns.len() && (spent.contains(#[trigger] ns[i]) || exists|j: int|
            0 <= j < i && ns[j] == ns[i])
}

/// Whether any nullifier is already spent or repeated.
pub fn has_nullifier_conflict(spent: &Vec<U256>, ns: &Vec<U256>) -> (r: bool)
    ensures
        r == nullifier_conflict(spent@, ns@),
{
    let mut seen: Vec<U256> = Vec::new();
    let mut i: usize = 0;
    while i < ns.len()
        invariant
            i <= ns@.len(),
            seen@ == ns@.subrange(0, i as int),
            forall|k: int|
                0 <= k < i ==> !(spent@.contains(#[trigger] ns@[k]) || exists|j: int|
                    0 <= j < k && ns@[j] == ns@[k]),
        decreases ns@.len() - i,
    {
        let n = ns[i];
        if contains_u256(spent, &n) {
            return true;
        }
        if contains_u256(&seen, &n) {
            proof {
                let j = choose|j: int| 0 <= j < seen@.len() && seen@[j] == n;
                assert(ns@[j] == ns@[i as int]);
            }
            return true;
        }
        proof {
            assert forall|j: int| 0 <= j < i implies ns@[j] != ns@[i as int] by {
                assert(seen@[j] == ns@[j]);
            }
        }
        seen.push(n);
        i = i + 1;
        proof {
            assert(seen@ =~= ns@.subrange(0, i as int));
        }
    }
    false
}

/// Every public value of a proof lies in the field.
pub open spec fn proof_fields_ok(p: Proof) -> bool {
    &&& p.root@ < field_modulus()
    &&& p.public_amount@ < field_modulus()
    &&& all_in_field(p.input_nullifiers@)
    &&& p.output_commitment0@ < field_modulus()
    &&& p.output_commitment1@ < field_modulus()
    &&& p.asp_membership_root@ < field_modulus()
}

/// What an accepted deposit asks of the outside world.
#[derive(Clone, Copy, Debug, PartialEq, Eq)]
pub struct DepositReceipt {
    /// Tree index of the deposited commitment.
    pub index: u32,
    /// The token movement paying for the note, made after the state change.
    pub transfer: TokenTransfer,
    /// The event to publish.
    pub event: DepositEvent,
}

/// What a settled shielded transaction asks of the outside world, in order:
/// the deposit pulled from the sender, the payouts of a withdrawal, then the
/// events.
#[derive(Clone, Debug)]
pub struct Settlement {
    pub deposit: Option<TokenTransfer>,
    pub payouts: Vec<TokenTransfer>,
    pub nullifier_events: Vec<NewNullifierEvent>,
    pub commitment_events: Vec<NewCommitmentEvent>,
    pub settlement_events: Vec<SettlementEvent>,
    pub output_index0: u32,
    pub output_index1: u32,
}

/// The next thing a shielded transaction needs, given what the allowlist and
/// the verifier have answered so far.
#[derive(Clone, Debug)]
pub enum TransactStep {
    /// Read the allowlist's live root.
    AskMembershipRoot,
    /// Ask the verifier whether the proof holds on these public inputs.
    AskVerifier(VerifierPublicInputs),
    /// Settle the spend with the verifier's answer.
    Settle(bool),
    /// Refuse the spend with this error; nothing changes.
    Refuse(ContractError),
}

/// The pool's persistent state.
#[derive(Clone)]
pub struct PoolContract {
    this: Address,
    config: PoolConfig,
    nullifiers: Vec<U256>,
    commitments: Vec<U256>,
    tree: MerkleTreeWithHistory,
}

impl PoolContract {
    /// The pool's configuration.
    pub closed spec fn config_spec(&self) -> PoolConfig {
        self.config
    }

    /// The pool contract's own address.
    pub closed spec fn this_spec(&self) -> Address {
        self.this
    }

    /// Nullifiers spent so far.
    pub closed spec fn spent(&self) -> Seq<U256> {
        self.nullifiers@
    }

    /// Commitments inserted so far.
    pub closed spec fn inserted(&self) -> Seq<U256> {
        self.commitments@
    }

    /// The commitment tree.
    pub closed spec fn tree_spec(&self) -> MerkleTreeWithHistory {
        self.tree
    }

    /// The state is well formed for the compression function `hash`.
    pub closed spec fn inv<H: Fn(U256, U256) -> U256>(&self, hash: &H) -> bool {
        &&& self.tree.inv(hash)
        &&& self.config.fee_bps <= MAX_FEE_BPS
        &&& self.commitments@.no_duplicates()
        &&& self.nullifiers@.no_duplicates()
        &&& forall|i: int|
            0 <= i < self.commitments@.len() ==> self.tree.leaves().contains(
                #[trigger] self.commitments@[i],
            )
    }

    /// The facts of `inv` that callers rely on.
    pub proof fn lemma_inv<H: Fn(U256, U256) -> U256>(&self, hash: &H)
        requires
            self.inv(hash),
        ensures
            self.tree_spec().inv(hash),
            self.config_spec().fee_bps <= MAX_FEE_BPS,
            self.inserted().no_duplicates(),
            self.spent().no_duplicates(),
            forall|c: U256| #[trigger]
                self.inserted().contains(c) ==> self.tree_spec().leaves().contains(c),
    {
        assert forall|c: U256| #[trigger]
            self.inserted().contains(c) implies self.tree_spec().leaves().contains(c) by {
            let i = choose|i: int| 0 <= i < self.commitments@.len() && self.commitments@[i] == c;
        }
    }

    /// Computes the field encoding of `ext_amount` that a proof must carry;
    /// an amount whose absolute value is not below 2^248 (-2^255 among them)
    /// is refused.
    pub fn calculate_public_amount(ext_amount: &I256) -> (r: Result<U256, ContractError>)
        ensures
            r is Err <==> public_amount_spec(ext_amount@) is None,
            r is Err ==> r == Err::<U256, ContractError>(ContractError::WrongExtAmount),
            r matches Ok(v) ==> public_amount_spec(ext_amount@) == Some(v@),
    {
        if ext_amount.hi == i128::MIN && ext_amount.lo == 0 {
            proof {
                crate::uint::lemma_i256_range(*ext_amount);
                assert(-ext_amount@ >= max_ext_amount_value());
            }
            return Err(ContractError::WrongExtAmount);
        }
        proof {
            crate::uint::lemma_i256_range(*ext_amount);
        }
        let abs = ext_amount.abs_u256();
        let max = max_ext_amount();
        if max.le(&abs) {
            return Err(ContractError::WrongExtAmount);
        }
        if !ext_amount.is_negative() {
            Ok(abs)
        } else {
            let field = bn256_modulus();
            Ok(field.sub(&abs))
        }
    }

    /// Computes the protocol fee for a withdrawal of `amount` at `fee_bps`
    /// basis points, rounded down in token units.
    pub fn calculate_fee_amount(amount: i128, fee_bps: u32) -> (r: Result<i128, ContractError>)
        ensures
            r is Err <==> fee_spec(amount as int, fee_bps as int) is None,
            r is Err ==> r == Err::<i128, ContractError>(ContractError::Overflow),
            r matches Ok(f) ==> fee_spec(amount as int, fee_bps as int) == Some(f as int),
            r is Err <==> amount * fee_bps < i128::MIN || amount * fee_bps > i128::MAX,
            r matches Ok(f) ==> (amount >= 0 ==> f == amount * fee_bps / 10000),
            r matches Ok(f) ==> (amount < 0 ==> f == -((-(amount * fee_bps)) / 10000)),
    {
        match amount.checked_mul(fee_bps as i128) {
            Some(v) => match v.checked_div(MAX_FEE_BPS as i128) {
                Some(f) => {
                    proof {
                        assert(v == amount * fee_bps);
                        if amount < 0 {
                            assert(v <= 0) by (nonlinear_arith)
                                requires
                                    amount < 0,
                                    v == amount * fee_bps,
                                    fee_bps >= 0,
                            ;
                            assert(f == -((-v) / 10000));
                        }
                    }
                    Ok(f)
                },
                None => Err(ContractError::Overflow),
            },
            None => Err(ContractError::Overflow),
        }
    }

    /// Creates the pool; the fee rate must be at most `MAX_FEE_BPS` and the
    /// tree height in 1..=32.
    pub fn new<H: Fn(U256, U256) -> U256>(
        hash: &H,
        this: Address,
        config: PoolConfig,
        levels: u32,
    ) -> (r: Result<PoolContract, ContractError>)
        requires
            hasher_ok(hash),
        ensures
            config.fee_bps > MAX_FEE_BPS ==> r == Err::<PoolContract, ContractError>(
                ContractError::InvalidFee,
            ),
            config.fee_bps <= MAX_FEE_BPS && (levels == 0 || levels > 32) ==> r == Err::<
                PoolContract,
                ContractError,
            >(ContractError::WrongLevels),
            r is Ok <==> config.fee_bps <= MAX_FEE_BPS && 1 <= levels <= 32,
            r matches Ok(p) ==> {
                &&& p.inv(hash)
                &&& p.config_spec() == config
                &&& p.this_spec() == this
                &&& p.spent() == Seq::<U256>::empty()
                &&& p.inserted() == Seq::<U256>::empty()
                &&& p.tree_spec().leaves() == Seq::<U256>::empty()
                &&& p.tree_spec().height() == levels
                &&& p.tree_spec().history() == seq![
                    tree_root(hash, Seq::<U256>::empty(), levels as nat),
                ]
            },
    {
        if config.fee_bps > MAX_FEE_BPS {
            return Err(ContractError::InvalidFee);
        }
        let mut slot: Option<MerkleTreeWithHistory> = None;
        match MerkleTreeWithHistory::init(&mut slot, hash, levels) {
            Ok(()) => {},
            Err(e) => {
                return Err(ContractError::from(e));
            },
        }
        match slot {
            Some(tree) => Ok(
                PoolContract {
                    this,
                    config,
                    nullifiers: Vec::new(),
                    commitments: Vec::new(),
                    tree,
                },
            ),
            None => Err(ContractError::NotInitialized),
        }
    }

    /// The pool's configuration.
    pub fn get_config(&self) -> (r: PoolConfig)
        ensures
            r == self.config_spec(),
    {
        self.config
    }

    /// The pool contract's own address.
    pub fn this(&self) -> (r: Address)
        ensures
            r == self.this_spec(),
    {
        self.this
    }

    /// The current root of the commitment tree.
    pub fn get_root<H: Fn(U256, U256) -> U256>(&self, hash: &H) -> (r: U256)
        requires
            self.inv(hash),
        ensures
            r == self.tree_spec().history().last(),
            r == tree_root(hash, self.tree_spec().leaves(), self.tree_spec().height()),
    {
        proof {
            self.tree.lemma_inv(hash);
        }
        self.tree.get_last_root()
    }

    /// How many leaves the commitment tree holds.
    pub fn next_index<H: Fn(U256, U256) -> U256>(&self, hash: &H) -> (r: u64)
        requires
            self.inv(hash),
        ensures
            r == self.tree_spec().leaves().len(),
    {
        proof {
            self.tree.lemma_inv(hash);
        }
        self.tree.next_index()
    }

    /// Whether `root` is one of the tree's remembered roots.
    pub fn is_known_root<H: Fn(U256, U256) -> U256>(&self, hash: &H, root: &U256) -> (r: bool)
        requires
            self.inv(hash),
        ensures
            r == known_root(self.tree_spec().history(), *root),
    {
        proof {
            self.tree.lemma_inv(hash);
        }
        self.tree.is_known_root(root)
    }

    /// Whether `nullifier` has been spent.
    pub fn has_nullifier(&self, nullifier: &U256) -> (r: bool)
        ensures
            r == self.spent().contains(*nullifier),
    {
        contains_u256(&self.nullifiers, nullifier)
    }

    /// Whether `commitment` has been inserted.
    pub fn has_commitment(&self, commitment: &U256) -> (r: bool)
        ensures
            r == self.inserted().contains(*commitment),
    {
        contains_u256(&self.commitments, commitment)
    }

    /// The field encoding of `ext_amount` that a proof must carry.
    pub fn get_public_amount(ext_amount: &I256) -> (r: Result<U256, ContractError>)
        ensures
            r is Err <==> public_amount_spec(ext_amount@) is None,
            r is Err ==> r == Err::<U256, ContractError>(ContractError::WrongExtAmount),
            r matches Ok(v) ==> public_amount_spec(ext_amount@) == Some(v@),
    {
        Self::calculate_public_amount(ext_amount)
    }

    /// The binding hash a proof must carry for the external data whose ledger
    /// encoding is `ext_xdr`.
    pub fn get_ext_data_hash(env: &Env, ext_xdr: &Vec<u8>) -> (r: U256)
        ensures
            r@ == keccak256_value(ext_xdr@) % field_modulus(),
    {
        hash_ext_data(env, ext_xdr)
    }

    /// The event announcing `account`'s keys; the caller has checked the
    /// owner's authorisation.
    pub fn register(account: Account) -> (r: PublicKeyEvent)
        ensures
            r.owner == account.owner,
            r.encryption_key@ == account.encryption_key@,
            r.note_key@ == account.note_key@,
    {
        PublicKeyEvent {
            owner: account.owner,
            encryption_key: account.encryption_key,
            note_key: account.note_key,
        }
    }

    /// Replaces the administrator; the caller has checked the current
    /// administrator's authorisation.
    pub fn update_admin(&mut self, new_admin: Address)
        ensures
            final(self).config_spec() == (PoolConfig { admin: new_admin, ..old(self).config_spec() }),
            final(self).same_ledger(old(self)),
    {
        self.config.admin = new_admin;
    }

    /// Replaces the verifier contract; the caller has checked the
    /// administrator's authorisation.
    pub fn update_verifier(&mut self, new_verifier: Address)
        ensures
            final(self).config_spec() == (PoolConfig {
                verifier: new_verifier,
                ..old(self).config_spec()
            }),
            final(self).same_ledger(old(self)),
    {
        self.config.verifier = new_verifier;
    }

    /// Replaces the allowlist contract; the caller has checked the
    /// administrator's authorisation.
    pub fn update_asp_membership(&mut self, new_asp_membership: Address)
        ensures
            final(self).config_spec() == (PoolConfig {
                asp_membership: new_asp_membership,
                ..old(self).config_spec()
            }),
            final(self).same_ledger(old(self)),
    {
        self.config.asp_membership = new_asp_membership;
    }

    /// Why a deposit of `amount` for `commitment` is refused, if it is.
    pub open spec fn deposit_refusal(&self, amount: i128, commitment: U256) -> Option<
        ContractError,
    > {
        if amount <= 0 || amount > self.config_spec().maximum_deposit_amount@ {
            Some(ContractError::WrongExtAmount)
        } else if commitment@ >= field_modulus() {
            Some(ContractError::InvalidFieldElement)
        } else if self.inserted().contains(commitment) {
            Some(ContractError::AlreadyInsertedCommitment)
        } else if self.tree_spec().leaves().len() == width(self.tree_spec().height()) {
            Some(ContractError::MerkleTreeFull)
        } else {
            None
        }
    }

    /// Takes a deposit of `amount` from `from` as a note with `commitment`:
    /// the commitment becomes the left leaf of a new two-leaf batch, paired
    /// with a zero leaf. The state changes before any token moves; the caller
    /// has checked `from`'s authorisation and then makes the returned
    /// transfer.
    pub fn deposit<H: Fn(U256, U256) -> U256>(
        &mut self,
        hash: &H,
        from: Address,
        amount: i128,
        commitment: U256,
    ) -> (r: Result<DepositReceipt, ContractError>)
        requires
            old(self).inv(hash),
            hasher_ok(hash),
        ensures
            old(self).deposit_refusal(amount, commitment) matches Some(e) ==> r == Err::<
                DepositReceipt,
                ContractError,
            >(e) && *final(self) == *old(self),
            r is Ok <==> old(self).deposit_refusal(amount, commitment) is None,
            r matches Ok(rc) ==> {
                let n = old(self).tree_spec().leaves().len();
                let leaves = old(self).tree_spec().leaves() + seq![commitment, U256 { hi: 0, lo: 0 }];
                let this = old(self).this_spec();
                let cfg = old(self).config_spec();
                &&& final(self).inv(hash)
                &&& final(self).tree_spec().leaves() == leaves
                &&& final(self).tree_spec().height() == old(self).tree_spec().height()
                &&& final(self).tree_spec().history() == old(self).tree_spec().history().push(
                    tree_root(hash, leaves, old(self).tree_spec().height()),
                )
                &&& final(self).inserted() == old(self).inserted().push(commitment)
                &&& !old(self).inserted().contains(commitment)
                &&& final(self).inserted().no_duplicates()
                &&& final(self).spent() == old(self).spent()
                &&& final(self).config_spec() == cfg
                &&& final(self).this_spec() == this
                &&& rc.index == n
                &&& rc.transfer == (TokenTransfer { from, to: this, amount })
                &&& rc.event == (DepositEvent {
                    commitment,
                    pool: this,
                    index: n as u32,
                    amount_bucket: amount,
                    asset: cfg.token,
                })
            },
    {
        if amount <= 0 {
            return Err(ContractError::WrongExtAmount);
        }
        let deposit_amount = U256::from_u128(amount as u128);
        if self.config.maximum_deposit_amount.lt(&deposit_amount) {
            return Err(ContractError::WrongExtAmount);
        }
        if !is_field_element(&commitment) {
            return Err(ContractError::InvalidFieldElement);
        }
        if self.has_commitment(&commitment) {
            return Err(ContractError::AlreadyInsertedCommitment);
        }
        let zero = U256::zero();
        let ghost old_leaves = self.tree.leaves();
        proof {
            self.tree.lemma_inv(hash);
        }
        let (index, _) = match self.tree.insert_two_leaves(hash, commitment, zero) {
            Ok(p) => p,
            Err(e) => {
                return Err(ContractError::from(e));
            },
        };
        self.commitments.push(commitment);
        proof {
            lemma_push_fresh_keeps_distinct(old(self).commitments@, commitment);
            let leaves = self.tree.leaves();
            assert(leaves == old_leaves + seq![commitment, zero]);
            assert(leaves[old_leaves.len() as int] == commitment);
            assert forall|i: int| 0 <= i < self.commitments@.len() implies self.tree.leaves().contains(
                #[trigger] self.commitments@[i],
            ) by {
                if i < self.commitments@.len() - 1 {
                    assert(old(self).tree.leaves().contains(old(self).commitments@[i]));
                    let j = choose|j: int|
                        0 <= j < old_leaves.len() && old_leaves[j] == old(self).commitments@[i];
                    assert(leaves[j] == old_leaves[j]);
                } else {
                    assert(leaves[old_leaves.len() as int] == self.commitments@[i]);
                }
            }
        }
        let this = self.this;
        let token = self.config.token;
        proof {
            assert(self.tree.inv(hash));
            assert(self.inv(hash));
            assert(index == old_leaves.len());
            assert(self.commitments@ == old(self).commitments@.push(commitment));
        }
        Ok(
            DepositReceipt {
                index,
                transfer: TokenTransfer { from, to: this, amount },
                event: DepositEvent {
                    commitment,
                    pool: this,
                    index,
                    amount_bucket: amount,
                    asset: token,
                },
            },
        )
    }

    /// The outcome of the checks a shielded spend must pass before the
    /// allowlist and the verifier are consulted, in the order they run: a
    /// deposit within the maximum, public values in the field, a remembered
    /// root, the binding hash of the external data, and the public amount
    /// that encodes the external amount. Nullifiers are checked last, when
    /// the spend settles.
    pub open spec fn transact_check_outcome(
        &self,
        proof: Proof,
        ext: ExtData,
        ext_hash: U256,
    ) -> Result<(), ContractError> {
        let e = ext.ext_amount@;
        if e > 0 && (e > self.config_spec().maximum_deposit_amount@ || e > i128::MAX) {
            Err(ContractError::WrongExtAmount)
        } else if !proof_fields_ok(proof) {
            Err(ContractError::InvalidFieldElement)
        } else if !known_root(self.tree_spec().history(), proof.root) {
            Err(ContractError::UnknownRoot)
        } else if ext_hash != proof.ext_data_hash {
            Err(ContractError::WrongExtHash)
        } else if public_amount_spec(e) != Some(proof.public_amount@) {
            Err(ContractError::WrongExtAmount)
        } else {
            Ok(())
        }
    }

    /// Runs the checks of a shielded spend that need nothing from other
    /// contracts. `ext_hash` is the binding hash of `ext` (see
    /// `hash_ext_data`).
    pub fn transact_checks<H: Fn(U256, U256) -> U256>(
        &self,
        hash: &H,
        proof: &Proof,
        ext: &ExtData,
        ext_hash: &U256,
    ) -> (r: Result<(), ContractError>)
        requires
            self.inv(hash),
        ensures
            r == self.transact_check_outcome(*proof, *ext, *ext_hash),
    {
        proof {
            self.tree.lemma_inv(hash);
        }
        if ext.ext_amount.is_positive() {
            let deposit_u = ext.ext_amount.abs_u256();
            if self.config.maximum_deposit_amount.lt(&deposit_u) {
                return Err(ContractError::WrongExtAmount);
            }
            if ext.ext_amount.to_i128().is_none() {
                return Err(ContractError::WrongExtAmount);
            }
        }
        if !is_field_element(&proof.root) || !is_field_element(&proof.public_amount)
            || !all_field_elements(&proof.input_nullifiers) || !is_field_element(
            &proof.output_commitment0,
        ) || !is_field_element(&proof.output_commitment1) || !is_field_element(
            &proof.asp_membership_root,
        ) {
            return Err(ContractError::InvalidFieldElement);
        }
        if !self.tree.is_known_root(&proof.root) {
            return Err(ContractError::UnknownRoot);
        }
        if !ext_hash.eq(&proof.ext_data_hash) {
            return Err(ContractError::WrongExtHash);
        }
        let expected_public_amount = Self::calculate_public_amount(&ext.ext_amount)?;
        if !proof.public_amount.eq(&expected_public_amount) {
            return Err(ContractError::WrongExtAmount);
        }
        Ok(())
    }

    /// The spend must be bound to the allowlist's live root.
    pub fn check_membership_root(proof: &Proof, live_root: &U256) -> (r: Result<(), ContractError>)
        ensures
            r is Ok <==> proof.asp_membership_root == *live_root,
            r is Err ==> r == Err::<(), ContractError>(ContractError::InvalidProof),
    {
        if !live_root.eq(&proof.asp_membership_root) {
            return Err(ContractError::InvalidProof);
        }
        Ok(())
    }

    /// A proof that carries nothing is refused before the verifier is asked.
    pub fn check_proof_present(proof: &Proof) -> (r: Result<(), ContractError>)
        ensures
            r is Ok <==> !proof_empty(proof.proof),
            r is Err ==> r == Err::<(), ContractError>(ContractError::InvalidProof),
    {
        if proof.proof.is_empty() {
            return Err(ContractError::InvalidProof);
        }
        Ok(())
    }

    /// Drives a shielded spend: the pool's own checks, then the allowlist's
    /// live root (`live_root`, once read), then the verifier's answer
    /// (`verified`, once given), in that order. The caller performs each
    /// request and calls again with the answer; at `Settle` it hands the
    /// answer to `transact_settle`.
    pub fn transact_step<H: Fn(U256, U256) -> U256>(
        &self,
        hash: &H,
        proof: &Proof,
        ext: &ExtData,
        ext_hash: &U256,
        live_root: Option<U256>,
        verified: Option<bool>,
    ) -> (r: TransactStep)
        requires
            self.inv(hash),
        ensures
            self.transact_check_outcome(*proof, *ext, *ext_hash) matches Err(e) ==> r
                == TransactStep::Refuse(e),
            self.transact_check_outcome(*proof, *ext, *ext_hash) is Ok ==> ({
                match live_root {
                    None => r == TransactStep::AskMembershipRoot,
                    Some(root) => if root != proof.asp_membership_root || proof_empty(
                        proof.proof,
                    ) {
                        r == TransactStep::Refuse(ContractError::InvalidProof)
                    } else {
                        match verified {
                            None => (r matches TransactStep::AskVerifier(inputs) && inputs.values@
                                == public_inputs_spec(*proof)),
                            Some(b) => r == TransactStep::Settle(b),
                        }
                    },
                }
            }),
    {
        match self.transact_checks(hash, proof, ext, ext_hash) {
            Ok(()) => {},
            Err(e) => {
                return TransactStep::Refuse(e);
            },
        }
        let root = match live_root {
            Some(root) => root,
            None => {
                return TransactStep::AskMembershipRoot;
            },
        };
        match Self::check_membership_root(proof, &root) {
            Ok(()) => {},
            Err(e) => {
                return TransactStep::Refuse(e);
            },
        }
        match Self::check_proof_present(proof) {
            Ok(()) => {},
            Err(e) => {
                return TransactStep::Refuse(e);
            },
        }
        match verified {
            Some(b) => TransactStep::Settle(b),
            None => TransactStep::AskVerifier(VerifierPublicInputs::from_proof(proof)),
        }
    }

    /// Why settling a spend is refused, if it is, in the order the checks
    /// run: the verifier's answer, fresh and distinct nullifiers, fresh and
    /// distinct output commitments, an external amount that fits the token's
    /// `i128` both ways, a computable fee, and room in the tree.
    pub open spec fn settle_refusal(&self, proof: Proof, ext: ExtData, verified: bool) -> Option<
        ContractError,
    > {
        let e = ext.ext_amount@;
        if !verified {
            Some(ContractError::InvalidProof)
        } else if nullifier_conflict(self.spent(), proof.input_nullifiers@) {
            Some(ContractError::AlreadySpentNullifier)
        } else if self.inserted().contains(proof.output_commitment0) || self.inserted().contains(
            proof.output_commitment1,
        ) || proof.output_commitment0 == proof.output_commitment1 {
            Some(ContractError::AlreadyInsertedCommitment)
        } else if e > i128::MAX || e < -i128::MAX {
            Some(ContractError::WrongExtAmount)
        } else if e < 0 && fee_spec(-e, self.config_spec().fee_bps as int) is None {
            Some(ContractError::Overflow)
        } else if self.tree_spec().leaves().len() == width(self.tree_spec().height()) {
            Some(ContractError::MerkleTreeFull)
        } else {
            None
        }
    }

    /// The token movements of a settled spend of `ext` by `sender`: the
    /// deposit when the external amount is positive, and for a withdrawal the
    /// recipient's share and then the fee, each only when above zero.
    pub open spec fn deposit_spec(&self, ext: ExtData, sender: Address) -> Option<TokenTransfer> {
        if ext.ext_amount@ > 0 {
            Some(TokenTransfer { from: sender, to: self.this_spec(), amount: ext.ext_amount@ as i128 })
        } else {
            None
        }
    }

    /// The payouts of a withdrawal, recipient first, then the fee.
    pub open spec fn payouts_spec(&self, ext: ExtData) -> Seq<TokenTransfer> {
        let e = ext.ext_amount@;
        if e < 0 {
            let amount = -e;
            let fee = fee_spec(amount, self.config_spec().fee_bps as int).unwrap();
            let to_recipient = if amount - fee > 0 {
                seq![
                    TokenTransfer {
                        from: self.this_spec(),
                        to: ext.recipient,
                        amount: (amount - fee) as i128,
                    },
                ]
            } else {
                Seq::empty()
            };
            let to_fee = if fee > 0 {
                seq![
                    TokenTransfer {
                        from: self.this_spec(),
                        to: self.config_spec().fee_recipient,
                        amount: fee as i128,
                    },
                ]
            } else {
                Seq::empty()
            };
            to_recipient + to_fee
        } else {
            Seq::empty()
        }
    }

    /// The settlement event published for the `i`-th nullifier.
    pub open spec fn settlement_event_spec(
        &self,
        proof: Proof,
        ext: ExtData,
        n: U256,
        index0: u32,
    ) -> SettlementEvent {
        SettlementEvent {
            nullifier: n,
            pool: self.this_spec(),
            output_commitment0: proof.output_commitment0,
            output_commitment1: proof.output_commitment1,
            output_index0: index0,
            output_index1: (index0 + 1) as u32,
            amount_bucket: ext.ext_amount@ as i128,
            public_amount: proof.public_amount,
            recipient: if ext.ext_amount@ < 0 {
                Some(ext.recipient)
            } else {
                None
            },
            asset: self.config_spec().token,
        }
    }

    /// Settles a spend the checks, the allowlist and the verifier have let
    /// through (`verified` is the verifier's answer): the output commitments
    /// are inserted and marked, the nullifiers spent, and the token movements
    /// and events returned for the caller to carry out afterwards.
    pub fn transact_settle<H: Fn(U256, U256) -> U256>(
        &mut self,
        hash: &H,
        proof: &Proof,
        ext: &ExtData,
        sender: Address,
        verified: bool,
    ) -> (r: Result<Settlement, ContractError>)
        requires
            old(self).inv(hash),
            hasher_ok(hash),
        ensures
            old(self).settle_refusal(*proof, *ext, verified) matches Some(e) ==> r == Err::<
                Settlement,
                ContractError,
            >(e) && *final(self) == *old(self),
            r is Ok <==> old(self).settle_refusal(*proof, *ext, verified) is None,
            r matches Ok(st) ==> {
                let n = old(self).tree_spec().leaves().len();
                let oc0 = proof.output_commitment0;
                let oc1 = proof.output_commitment1;
                let leaves = old(self).tree_spec().leaves() + seq![oc0, oc1];
                let ns = proof.input_nullifiers@;
                &&& final(self).inv(hash)
                &&& final(self).tree_spec().leaves() == leaves
                &&& final(self).tree_spec().height() == old(self).tree_spec().height()
                &&& final(self).tree_spec().history() == old(self).tree_spec().history().push(
                    tree_root(hash, leaves, old(self).tree_spec().height()),
                )
                &&& final(self).inserted() == old(self).inserted().push(oc0).push(oc1)
                &&& !old(self).inserted().contains(oc0)
                &&& !old(self).inserted().contains(oc1)
                &&& oc0 != oc1
                &&& final(self).inserted().no_duplicates()
                &&& final(self).spent() == old(self).spent() + ns
                &&& forall|i: int| 0 <= i < ns.len() ==> !old(self).spent().contains(#[trigger] ns[i])
                &&& ns.no_duplicates()
                &&& final(self).spent().no_duplicates()
                &&& final(self).config_spec() == old(self).config_spec()
                &&& final(self).this_spec() == old(self).this_spec()
                &&& st.output_index0 == n
                &&& st.output_index1 == n + 1
                &&& st.deposit == old(self).deposit_spec(*ext, sender)
                &&& st.payouts@ == old(self).payouts_spec(*ext)
                &&& st.nullifier_events@.len() == ns.len()
                &&& forall|i: int|
                    0 <= i < ns.len() ==> #[trigger] st.nullifier_events@[i] == (NewNullifierEvent {
                        nullifier: ns[i],
                    })
                &&& st.commitment_events@.len() == 2
                &&& st.commitment_events@[0].commitment == oc0
                &&& st.commitment_events@[0].index == n
                &&& st.commitment_events@[0].encrypted_output@ == ext.encrypted_output0@
                &&& st.commitment_events@[1].commitment == oc1
                &&& st.commitment_events@[1].index == n + 1
                &&& st.commitment_events@[1].encrypted_output@ == ext.encrypted_output1@
                &&& st.settlement_events@.len() == ns.len()
                &&& forall|i: int|
                    0 <= i < ns.len() ==> #[trigger] st.settlement_events@[i]
                        == old(self).settlement_event_spec(*proof, *ext, ns[i], n as u32)
            },
    {
        proof {
            self.tree.lemma_inv(hash);
        }
        if !verified {
            return Err(ContractError::InvalidProof);
        }
        if has_nullifier_conflict(&self.nullifiers, &proof.input_nullifiers) {
            return Err(ContractError::AlreadySpentNullifier);
        }
        let oc0 = proof.output_commitment0;
        let oc1 = proof.output_commitment1;
        if self.has_commitment(&oc0) || self.has_commitment(&oc1) {
            return Err(ContractError::AlreadyInsertedCommitment);
        }
        if oc0.eq(&oc1) {
            return Err(ContractError::AlreadyInsertedCommitment);
        }
        let bucket = match ext.ext_amount.to_i128() {
            Some(v) => v,
            None => {
                return Err(ContractError::WrongExtAmount);
            },
        };
        if bucket == i128::MIN {
            return Err(ContractError::WrongExtAmount);
        }
        let this = self.this;
        let mut payouts: Vec<TokenTransfer> = Vec::new();
        let mut recipient: Option<Address> = None;
        if bucket < 0 {
            let amount = -bucket;
            let fee = Self::calculate_fee_amount(amount, self.config.fee_bps)?;
            proof {
                lemma_fee_bounded(amount as int, self.config.fee_bps as int);
            }
            let recipient_amount = amount - fee;
            if recipient_amount > 0 {
                payouts.push(TokenTransfer { from: this, to: ext.recipient, amount: recipient_amount });
            }
            if fee > 0 {
                payouts.push(TokenTransfer { from: this, to: self.config.fee_recipient, amount: fee });
            }
            recipient = Some(ext.recipient);
            proof {
                assert(payouts@ =~= self.payouts_spec(*ext));
            }
        } else {
            proof {
                assert(payouts@ =~= self.payouts_spec(*ext));
            }
        }
        let deposit = if bucket > 0 {
            Some(TokenTransfer { from: sender, to: this, amount: bucket })
        } else {
            None
        };
        let ghost old_leaves = self.tree.leaves();
        let (index0, index1) = match self.tree.insert_two_leaves(hash, oc0, oc1) {
            Ok(p) => p,
            Err(e) => {
                return Err(ContractError::from(e));
            },
        };
        let ghost tree_after = self.tree;
        let ns = &proof.input_nullifiers;
        let mut nullifier_events: Vec<NewNullifierEvent> = Vec::new();
        let mut settlement_events: Vec<SettlementEvent> = Vec::new();
        let token = self.config.token;
        let public_amount = proof.public_amount;
        let mut i: usize = 0;
        while i < ns.len()
            invariant
                i <= ns@.len(),
                self.nullifiers@ == old(self).nullifiers@ + ns@.subrange(0, i as int),
                nullifier_events@.len() == i,
                settlement_events@.len() == i,
                forall|k: int|
                    0 <= k < i ==> #[trigger] nullifier_events@[k] == (NewNullifierEvent {
                        nullifier: ns@[k],
                    }),
                forall|k: int|
                    0 <= k < i ==> #[trigger] settlement_events@[k] == old(
                        self,
                    ).settlement_event_spec(*proof, *ext, ns@[k], index0),
                self.this == old(self).this,
                self.config == old(self).config,
                self.commitments == old(self).commitments,
                this == old(self).this,
                token == old(self).config.token,
                public_amount == proof.public_amount,
                bucket == ext.ext_amount@,
                index1 == index0 + 1,
                oc0 == proof.output_commitment0,
                oc1 == proof.output_commitment1,
                self.tree == tree_after,
                recipient == (if ext.ext_amount@ < 0 {
                    Some(ext.recipient)
                } else {
                    None::<Address>
                }),
            decreases ns@.len() - i,
        {
            let n = ns[i];
            self.nullifiers.push(n);
            nullifier_events.push(NewNullifierEvent { nullifier: n });
            settlement_events.push(
                SettlementEvent {
                    nullifier: n,
                    pool: this,
                    output_commitment0: oc0,
                    output_commitment1: oc1,
                    output_index0: index0,
                    output_index1: index1,
                    amount_bucket: bucket,
                    public_amount,
                    recipient,
                    asset: token,
                },
            );
            proof {
                assert(settlement_events@[i as int] == old(self).settlement_event_spec(
                    *proof,
                    *ext,
                    ns@[i as int],
                    index0,
                ));
            }
            i = i + 1;
            proof {
                assert(self.nullifiers@ =~= old(self).nullifiers@ + ns@.subrange(0, i as int));
            }
        }
        proof {
            assert(ns@.subrange(0, ns@.len() as int) =~= ns@);
            lemma_append_fresh_keeps_distinct(old(self).nullifiers@, ns@);
        }
        self.commitments.push(oc0);
        self.commitments.push(oc1);
        proof {
            lemma_push_fresh_keeps_distinct(old(self).commitments@, oc0);
            lemma_push_fresh_keeps_distinct(old(self).commitments@.push(oc0), oc1);
        }
        let mut commitment_events: Vec<NewCommitmentEvent> = Vec::new();
        commitment_events.push(
            NewCommitmentEvent {
                commitment: oc0,
                index: index0,
                encrypted_output: ext.encrypted_output0.clone(),
            },
        );
        commitment_events.push(
            NewCommitmentEvent {
                commitment: oc1,
                index: index1,
                encrypted_output: ext.encrypted_output1.clone(),
            },
        );
        proof {
            let leaves = self.tree.leaves();
            assert(leaves == old_leaves + seq![oc0, oc1]);
            assert(leaves[old_leaves.len() as int] == oc0);
            assert(leaves[old_leaves.len() as int + 1] == oc1);
            assert forall|i: int| 0 <= i < self.commitments@.len() implies self.tree.leaves().contains(
                #[trigger] self.commitments@[i],
            ) by {
                if i < self.commitments@.len() - 2 {
                    assert(old(self).tree.leaves().contains(old(self).commitments@[i]));
                    let j = choose|j: int|
                        0 <= j < old_leaves.len() && old_leaves[j] == old(self).commitments@[i];
                    assert(leaves[j] == old_leaves[j]);
                } else if i == self.commitments@.len() - 2 {
                    assert(leaves[old_leaves.len() as int] == self.commitments@[i]);
                } else {
                    assert(leaves[old_leaves.len() as int + 1] == self.commitments@[i]);
                }
            }
        }
        Ok(
            Settlement {
                deposit,
                payouts,
                nullifier_events,
                commitment_events,
                settlement_events,
                output_index0: index0,
                output_index1: index1,
            },
        )
    }

    /// The two states agree on everything but the configuration.
    pub closed spec fn same_ledger(&self, other: &Self) -> bool {
        &&& self.this == other.this
        &&& self.nullifiers == other.nullifiers
        &&& self.commitments == other.commitments
        &&& self.tree == other.tree
        &&& self.config.fee_bps == other.config.fee_bps
    }

    /// Well-formedness survives a change of configuration that keeps the
    /// fee rate.
    pub proof fn lemma_same_ledger<H: Fn(U256, U256) -> U256>(&self, other: &Self, hash: &H)
        requires
            other.inv(hash),
            self.same_ledger(other),
        ensures
            self.inv(hash),
            self.spent() == other.spent(),
            self.inserted() == other.inserted(),
            self.tree_spec() == other.tree_spec(),
            self.this_spec() == other.this_spec(),
    {
    }
}

/// The sum of the amounts of `ts`.
pub open spec fn total_amount(ts: Seq<TokenTransfer>) -> int
    decreases ts.len(),
{
    if ts.len() == 0 {
        0
    } else {
        total_amount(ts.drop_last()) + ts.last().amount
    }
}

/// A spend that reuses a spent nullifier never settles.
pub proof fn lemma_spent_nullifier_refused(
    pool: PoolContract,
    proof: Proof,
    ext: ExtData,
    verified: bool,
    i: int,
)
    requires
        0 <= i < proof.input_nullifiers@.len(),
        pool.spent().contains(proof.input_nullifiers@[i]),
    ensures
        pool.settle_refusal(proof, ext, verified) is Some,
{
    assert(nullifier_conflict(pool.spent(), proof.input_nullifiers@));
}

/// Once a spend has settled, the same proof never settles again, and
/// neither does any other spend of its nullifiers: its output commitments
/// are in the tree and its nullifiers are spent.
pub proof fn lemma_settled_proof_never_settles_again(
    before: PoolContract,
    after: PoolContract,
    proof: Proof,
    other: Proof,
    ext: ExtData,
    verified: bool,
    i: int,
    j: int,
)
    requires
        after.inserted() == before.inserted().push(proof.output_commitment0).push(
            proof.output_commitment1,
        ),
        after.spent() == before.spent() + proof.input_nullifiers@,
    ensures
        after.settle_refusal(proof, ext, verified) is Some,
        0 <= i < proof.input_nullifiers@.len() && 0 <= j < other.input_nullifiers@.len()
            && other.input_nullifiers@[j] == proof.input_nullifiers@[i]
            ==> after.settle_refusal(other, ext, verified) is Some,
{
    let ins = after.inserted();
    assert(ins[ins.len() - 2] == proof.output_commitment0);
    assert(ins.contains(proof.output_commitment0));
    if 0 <= i < proof.input_nullifiers@.len() && 0 <= j < other.input_nullifiers@.len()
        && other.input_nullifiers@[j] == proof.input_nullifiers@[i] {
        let ns = proof.input_nullifiers@;
        assert(after.spent()[before.spent().len() + i] == ns[i]);
        lemma_spent_nullifier_refused(after, other, ext, verified, j);
    }
}

/// Appending a value not yet in a sequence without repeats keeps it without
/// repeats.
proof fn lemma_push_fresh_keeps_distinct(s: Seq<U256>, x: U256)
    requires
        s.no_duplicates(),
        !s.contains(x),
    ensures
        s.push(x).no_duplicates(),
{
    let t = s.push(x);
    assert forall|i: int, j: int| 0 <= i < t.len() && 0 <= j < t.len() && i != j implies t[i]
        != t[j] by {
        if i == s.len() as int {
            assert(s[j] == t[j]);
        } else if j == s.len() as int {
            assert(s[i] == t[i]);
        } else {
            assert(s[i] == t[i] && s[j] == t[j]);
        }
    }
}

/// Appending values that repeat neither each other nor anything in a
/// sequence without repeats keeps it without repeats.
proof fn lemma_append_fresh_keeps_distinct(s: Seq<U256>, ns: Seq<U256>)
    requires
        s.no_duplicates(),
        !nullifier_conflict(s, ns),
    ensures
        (s + ns).no_duplicates(),
        ns.no_duplicates(),
        forall|i: int| 0 <= i < ns.len() ==> !s.contains(#[trigger] ns[i]),
{
    let t = s + ns;
    assert forall|i: int| 0 <= i < ns.len() implies !s.contains(#[trigger] ns[i]) by {
        if s.contains(ns[i]) {
            assert(nullifier_conflict(s, ns));
        }
    }
    assert forall|i: int, j: int| 0 <= i < ns.len() && 0 <= j < ns.len() && i != j implies ns[i]
        != ns[j] by {
        if ns[i] == ns[j] {
            if j < i {
                assert(nullifier_conflict(s, ns));
            } else {
                assert(nullifier_conflict(s, ns));
            }
        }
    }
    assert forall|i: int, j: int| 0 <= i < t.len() && 0 <= j < t.len() && i != j implies t[i]
        != t[j] by {
        let k = s.len() as int;
        if i < k && j < k {
            assert(t[i] == s[i] && t[j] == s[j]);
        } else if i >= k && j >= k {
            assert(t[i] == ns[i - k] && t[j] == ns[j - k]);
        } else if i < k {
            assert(t[i] == s[i] && t[j] == ns[j - k]);
            assert(!s.contains(ns[j - k]));
        } else {
            assert(t[j] == s[j] && t[i] == ns[i - k]);
            assert(!s.contains(ns[i - k]));
        }
    }
}

/// A spend whose output commitment is already in the pool never settles:
/// when the verifier has accepted it and its nullifiers are fresh, it is
/// refused as `AlreadyInsertedCommitment`.
pub proof fn lemma_reused_output_commitment_refused(
    pool: PoolContract,
    proof: Proof,
    ext: ExtData,
    verified: bool,
)
    requires
        pool.inserted().contains(proof.output_commitment0) || pool.inserted().contains(
            proof.output_commitment1,
        ),
    ensures
        pool.settle_refusal(proof, ext, verified) is Some,
        verified && !nullifier_conflict(pool.spent(), proof.input_nullifiers@)
            ==> pool.settle_refusal(proof, ext, verified) == Some(
            ContractError::AlreadyInsertedCommitment,
        ),
{
}

/// A commitment already in the pool is never deposited again.
pub proof fn lemma_inserted_commitment_refused(pool: PoolContract, amount: i128, commitment: U256)
    requires
        pool.inserted().contains(commitment),
    ensures
        pool.deposit_refusal(amount, commitment) is Some,
{
}

/// The index a deposit returns is where its commitment sits in the tree,
/// and the deposit after it is two leaves further on.
pub proof fn lemma_deposit_index_locates_commitment(
    before: Seq<U256>,
    after: Seq<U256>,
    commitment: U256,
    index: nat,
)
    requires
        after == before + seq![commitment, U256 { hi: 0, lo: 0 }],
        index == before.len(),
    ensures
        after[index as int] == commitment,
        after.len() == index + 2,
{
}

/// A withdrawal pays out exactly what it takes from the pool: the
/// recipient's share plus the fee is the withdrawn amount, and every payout
/// is positive.
pub proof fn lemma_withdrawal_conserves_value(pool: PoolContract, ext: ExtData)
    requires
        ext.ext_amount@ < 0,
        -ext.ext_amount@ <= i128::MAX,
        pool.config_spec().fee_bps <= MAX_FEE_BPS,
        fee_spec(-ext.ext_amount@, pool.config_spec().fee_bps as int) is Some,
    ensures
        total_amount(pool.payouts_spec(ext)) == -ext.ext_amount@,
        forall|i: int|
            0 <= i < pool.payouts_spec(ext).len() ==> #[trigger] pool.payouts_spec(ext)[i].amount
                > 0,
{
    let amount = -ext.ext_amount@;
    let bps = pool.config_spec().fee_bps as int;
    lemma_fee_bounded(amount, bps);
    let fee = fee_spec(amount, bps).unwrap();
    let ps = pool.payouts_spec(ext);
    let empty = Seq::<TokenTransfer>::empty();
    assert(total_amount(empty) == 0);
    assert(0 <= fee <= amount <= i128::MAX);
    if amount - fee > 0 && fee > 0 {
        assert(ps.len() == 2);
        let one = ps.drop_last();
        assert(one.len() == 1);
        assert(one.drop_last() =~= empty);
        assert(one.last().amount == amount - fee);
        assert(total_amount(one) == amount - fee);
        assert(ps.last().amount == fee);
    } else if amount - fee > 0 {
        assert(ps.len() == 1);
        assert(ps.drop_last() =~= empty);
        assert(ps.last().amount == amount - fee);
    } else if fee > 0 {
        assert(ps.len() == 1);
        assert(ps.drop_last() =~= empty);
        assert(ps.last().amount == fee);
    } else {
        assert(ps.len() == 0);
    }
}

/// The public amount a proof must carry encodes the external amount in the
/// field: it is a field element congruent to the amount.
pub proof fn lemma_public_amount_congruent(e: int)
    requires
        public_amount_spec(e) is Some,
    ensures
        public_amount_spec(e).unwrap() < field_modulus(),
        (public_amount_spec(e).unwrap() - e) % (field_modulus() as int) == 0,
{
    let v = public_amount_spec(e).unwrap();
    if e >= 0 {
        assert(v == e);
        assert(max_ext_amount_value() < field_modulus());
    } else {
        assert(v == field_modulus() + e);
        assert((v - e) == field_modulus());
        vstd::arithmetic::div_mod::lemma_mod_self_0(field_modulus() as int);
    }
}

/// The root of a tree an insertion has just produced is remembered, unless
/// it is zero, which is never remembered.
pub proof fn lemma_new_root_known(history: Seq<U256>, root: U256)
    requires
        root@ != 0,
    ensures
        known_root(history.push(root), root),
{
    let h = history.push(root);
    crate::merkle_history::lemma_recent_holds(h, 0);
}

/// The public-amount view never disagrees with a spend: for an external
/// amount the pool can encode and a spend whose other checks pass, the checks
/// pass exactly when the proof carries the view's value.
pub proof fn lemma_public_amount_view_agrees(
    pool: PoolContract,
    proof: Proof,
    ext: ExtData,
    ext_hash: U256,
)
    requires
        public_amount_spec(ext.ext_amount@) is Some,
        !(ext.ext_amount@ > 0 && (ext.ext_amount@ > pool.config_spec().maximum_deposit_amount@
            || ext.ext_amount@ > i128::MAX)),
        proof_fields_ok(proof),
        known_root(pool.tree_spec().history(), proof.root),
        ext_hash == proof.ext_data_hash,
    ensures
        (pool.transact_check_outcome(proof, ext, ext_hash) is Ok) <==> public_amount_spec(
            ext.ext_amount@,
        ) == Some(proof.public_amount@),
        pool.transact_check_outcome(proof, ext, ext_hash) is Err ==> pool.transact_check_outcome(
            proof,
            ext,
            ext_hash,
        ) == Err::<(), ContractError>(ContractError::WrongExtAmount),
{
}

/// The public-amount view never disagrees with a spend: take a spend that
/// passes every check when it carries the view's value (`public_amount_spec`
/// of its external amount, what `get_public_amount` returns); the same spend
/// with any public amount passes exactly when that amount is the view's
/// value, and is otherwise refused with `WrongExtAmount` (or, for a value
/// outside the field, `InvalidFieldElement`).
pub proof fn lemma_public_amount_check_matches_view(
    pool: PoolContract,
    proof: Proof,
    ext: ExtData,
    ext_hash: U256,
)
    requires
        public_amount_spec(ext.ext_amount@) is Some,
        pool.transact_check_outcome(
            Proof {
                public_amount: crate::uint::u256_of(public_amount_spec(ext.ext_amount@).unwrap()),
                ..proof
            },
            ext,
            ext_hash,
        ) is Ok,
    ensures
        (pool.transact_check_outcome(proof, ext, ext_hash) is Ok) <==> proof.public_amount@
            == public_amount_spec(ext.ext_amount@).unwrap(),
        pool.transact_check_outcome(proof, ext, ext_hash) is Err ==> pool.transact_check_outcome(
            proof,
            ext,
            ext_hash,
        ) == Err::<(), ContractError>(
            if proof.public_amount@ < field_modulus() {
                ContractError::WrongExtAmount
            } else {
                ContractError::InvalidFieldElement
            },
        ),
{
    let v = public_amount_spec(ext.ext_amount@).unwrap();
    lemma_public_amount_congruent(ext.ext_amount@);
    let q = Proof { public_amount: crate::uint::u256_of(v), ..proof };
    assert(crate::uint::u256_of(v)@ == v) by {
        let b = crate::uint::base();
        assert(v < b * b) by {
            assert(field_modulus() < b * b);
        }
        vstd::arithmetic::div_mod::lemma_fundamental_div_mod(v as int, b as int);
        assert(v / b < b) by (nonlinear_arith)
            requires
                v < b * b,
                b > 0,
        ;
    }
    assert(proof_fields_ok(q));
    if proof.public_amount@ < field_modulus() {
        assert(proof_fields_ok(proof));
    }
}

} // verus!
