use soroban_sdk::Env;
use veil::address::{Address, AddressKind};
use veil::asp_membership::ASPMembership;
use veil::field::bn256_modulus;
use veil::groth16::{mock_proof, MockGroth16Verifier};
use veil::merkle_history::{MerkleError, MerkleTreeWithHistory};
use veil::pool::{ContractError, PoolContract, Settlement, TransactStep};
use veil::types::{Account, ExtData, PoolConfig, Proof, TokenTransfer};
use veil::uint::{I256, U256};
use veil::verifier_boundary::VerifierPublicInputs;

const ASP_MEMBERSHIP_LEVELS: u32 = 8;

/// A deterministic stand-in for the Poseidon2 compression: the pool logic
/// only needs a function of its two arguments.
fn toy_hash(l: U256, r: U256) -> U256 {
    let hi = l.hi.rotate_left(7) ^ r.lo.wrapping_mul(0x9E37_79B9_7F4A_7C15) ^ 0x5555;
    let lo = l.lo.wrapping_mul(31).wrapping_add(r.hi.rotate_left(13)) ^ r.lo ^ l.hi;
    U256 { hi: hi % 0x3000_0000_0000_0000_0000_0000_0000_0000, lo }
}

fn u(n: u128) -> U256 {
    U256::from_u128(n)
}

fn account(n: u128) -> Address {
    Address { kind: AddressKind::Account, key: u(n) }
}

fn contract(n: u128) -> Address {
    Address { kind: AddressKind::Contract, key: u(n) }
}

struct TestSetup {
    admin: Address,
    token: Address,
    verifier: Address,
    asp_membership_address: Address,
    asp: ASPMembership,
}

fn setup_test_contracts() -> TestSetup {
    let admin = account(1);
    TestSetup {
        admin,
        token: contract(2),
        verifier: contract(3),
        asp_membership_address: contract(4),
        asp: ASPMembership::new(&toy_hash, admin, ASP_MEMBERSHIP_LEVELS).unwrap(),
    }
}

fn pool_address() -> Address {
    contract(100)
}

fn register_pool_with_fee(
    setup: &TestSetup,
    maximum_deposit_amount: U256,
    fee_recipient: Address,
    fee_bps: u32,
    levels: u32,
) -> Result<PoolContract, ContractError> {
    PoolContract::new(
        &toy_hash,
        pool_address(),
        PoolConfig {
            admin: setup.admin,
            token: setup.token,
            verifier: setup.verifier,
            asp_membership: setup.asp_membership_address,
            maximum_deposit_amount,
            fee_recipient,
            fee_bps,
        },
        levels,
    )
}

fn register_pool(setup: &TestSetup, maximum_deposit_amount: U256, levels: u32) -> PoolContract {
    register_pool_with_fee(setup, maximum_deposit_amount, setup.admin, 0, levels).unwrap()
}

/// Token balances, moved by the transfers the pool asks for.
struct Ledger {
    balances: Vec<(Address, i128)>,
}

impl Ledger {
    fn new() -> Ledger {
        Ledger { balances: Vec::new() }
    }

    fn balance(&self, who: &Address) -> i128 {
        self.balances.iter().find(|(a, _)| a == who).map(|(_, b)| *b).unwrap_or(0)
    }

    fn set(&mut self, who: Address, amount: i128) {
        if let Some(entry) = self.balances.iter_mut().find(|(a, _)| *a == who) {
            entry.1 = amount;
        } else {
            self.balances.push((who, amount));
        }
    }

    fn mint(&mut self, who: Address, amount: i128) {
        let b = self.balance(&who);
        self.set(who, b + amount);
    }

    fn transfer(&mut self, t: &TokenTransfer) -> Result<(), ()> {
        let from = self.balance(&t.from);
        if from < t.amount {
            return Err(());
        }
        self.set(t.from, from - t.amount);
        let to = self.balance(&t.to);
        self.set(t.to, to + t.amount);
        Ok(())
    }
}

/// A deposit as the contract entrypoint runs it: the state changes, then the
/// tokens move.
fn deposit(
    pool: &mut PoolContract,
    ledger: &mut Ledger,
    from: Address,
    amount: i128,
    commitment: U256,
) -> Result<u32, ContractError> {
    let receipt = pool.deposit(&toy_hash, from, amount, commitment)?;
    ledger.transfer(&receipt.transfer).map_err(|_| ContractError::WrongExtAmount)?;
    Ok(receipt.index)
}

fn ext_encoding(ext: &ExtData) -> Vec<u8> {
    let mut out = Vec::new();
    out.extend_from_slice(&ext.recipient.key.hi.to_be_bytes());
    out.extend_from_slice(&ext.recipient.key.lo.to_be_bytes());
    out.extend_from_slice(&ext.ext_amount.hi.to_be_bytes());
    out.extend_from_slice(&ext.ext_amount.lo.to_be_bytes());
    out.extend_from_slice(&ext.encrypted_output0);
    out.extend_from_slice(&ext.encrypted_output1);
    out
}

fn compute_ext_hash(env: &Env, ext: &ExtData) -> U256 {
    PoolContract::get_ext_data_hash(env, &ext_encoding(ext))
}

fn mk_ext_data(recipient: Address, ext_amount: i32) -> ExtData {
    ExtData {
        recipient,
        ext_amount: I256::from_i32(ext_amount),
        encrypted_output0: vec![1, 2, 3],
        encrypted_output1: vec![4, 5, 6],
    }
}

/// A shielded transaction as the contract entrypoint runs it: the checks,
/// the allowlist's live root, the verifier, then settlement and the token
/// movements.
fn run_transact(
    env: &Env,
    pool: &mut PoolContract,
    asp: &ASPMembership,
    ledger: &mut Ledger,
    proof: &Proof,
    ext: &ExtData,
    sender: Address,
) -> Result<Settlement, ContractError> {
    let ext_hash = compute_ext_hash(env, ext);
    // The ledger rolls the whole transaction back when any step fails.
    let pool_before = pool.clone();
    let ledger_before = Ledger { balances: ledger.balances.clone() };
    let mut live_root: Option<U256> = None;
    let mut verified: Option<bool> = None;
    let settlement = loop {
        match pool.transact_step(&toy_hash, proof, ext, &ext_hash, live_root, verified) {
            TransactStep::AskMembershipRoot => live_root = Some(asp.get_root()),
            TransactStep::AskVerifier(inputs) => {
                let answer = MockGroth16Verifier::verify(proof.proof.clone(), inputs.values)
                    .map_err(|_| ContractError::InvalidProof)?;
                verified = Some(answer);
            },
            TransactStep::Refuse(e) => return Err(e),
            TransactStep::Settle(v) => {
                break pool.transact_settle(&toy_hash, proof, ext, sender, v)?;
            },
        }
    };
    let mut paid = Ok(());
    if let Some(t) = &settlement.deposit {
        paid = paid.and_then(|_| ledger.transfer(t));
    }
    for t in &settlement.payouts {
        paid = paid.and_then(|_| ledger.transfer(t));
    }
    if paid.is_err() {
        *pool = pool_before;
        *ledger = ledger_before;
        return Err(ContractError::WrongExtAmount);
    }
    Ok(settlement)
}

struct TransactCase {
    pool: PoolContract,
    sender: Address,
    ext: ExtData,
    proof: Proof,
}

fn mk_transact_case(env: &Env, setup: &TestSetup) -> TransactCase {
    let pool = register_pool(setup, u(1_000), 8);
    let ext = mk_ext_data(account(50), 0);
    let proof = Proof {
        proof: mock_proof(),
        root: pool.get_root(&toy_hash),
        input_nullifiers: vec![u(0x101), u(0x102)],
        output_commitment0: u(0x201),
        output_commitment1: u(0x202),
        public_amount: u(0),
        ext_data_hash: compute_ext_hash(env, &ext),
        asp_membership_root: setup.asp.get_root(),
    };
    TransactCase { pool, sender: account(60), ext, proof }
}

fn mk_transact_case_with_amount(
    env: &Env,
    setup: &TestSetup,
    ledger: &mut Ledger,
    fee_bps: u32,
    ext_amount: i32,
    pool_balance: i128,
) -> (TransactCase, Address) {
    let fee_recipient = account(70);
    let pool = register_pool_with_fee(setup, u(1_000), fee_recipient, fee_bps, 8).unwrap();
    if pool_balance > 0 {
        ledger.mint(pool_address(), pool_balance);
    }
    let ext = mk_ext_data(account(80), ext_amount);
    let public_amount = PoolContract::get_public_amount(&ext.ext_amount).unwrap();
    let proof = Proof {
        proof: mock_proof(),
        root: pool.get_root(&toy_hash),
        input_nullifiers: vec![u(0x401), u(0x402)],
        output_commitment0: u(0x501),
        output_commitment1: u(0x502),
        public_amount,
        ext_data_hash: compute_ext_hash(env, &ext),
        asp_membership_root: setup.asp.get_root(),
    };
    (TransactCase { pool, sender: account(60), ext, proof }, fee_recipient)
}

#[test]
fn pool_constructor_sets_state_and_config_view() {
    let setup = setup_test_contracts();
    let max = u(100);
    let pool = register_pool(&setup, max, 8);

    let config = pool.get_config();
    assert_eq!(config.admin, setup.admin);
    assert_eq!(config.token, setup.token);
    assert_eq!(config.verifier, setup.verifier);
    assert_eq!(config.asp_membership, setup.asp_membership_address);
    assert_eq!(config.maximum_deposit_amount, max);
    assert_eq!(config.fee_recipient, setup.admin);
    assert_eq!(config.fee_bps, 0);
    assert_eq!(pool.next_index(&toy_hash), 0);
    assert!(!pool.has_nullifier(&u(1)));
    assert!(!pool.has_commitment(&u(1)));

    let _root = pool.get_root(&toy_hash);
}

#[test]
fn pool_constructor_accepts_custom_fee_config() {
    let setup = setup_test_contracts();
    let max = u(100);
    let fee_recipient = account(9);
    let pool = register_pool_with_fee(&setup, max, fee_recipient, 25, 8).unwrap();

    let config = pool.get_config();
    assert_eq!(config.maximum_deposit_amount, max);
    assert_eq!(config.fee_recipient, fee_recipient);
    assert_eq!(config.fee_bps, 25);
}

#[test]
#[should_panic]
fn pool_constructor_rejects_invalid_fee_bps() {
    let setup = setup_test_contracts();
    register_pool_with_fee(&setup, u(100), setup.admin, 10_001, 8).unwrap();
}

#[test]
fn pool_constructor_reports_invalid_fee_and_levels() {
    let setup = setup_test_contracts();
    assert_eq!(
        register_pool_with_fee(&setup, u(100), setup.admin, 10_001, 8).err(),
        Some(ContractError::InvalidFee)
    );
    assert_eq!(
        register_pool_with_fee(&setup, u(100), setup.admin, 0, 0).err(),
        Some(ContractError::WrongLevels)
    );
    assert_eq!(
        register_pool_with_fee(&setup, u(100), setup.admin, 0, 33).err(),
        Some(ContractError::WrongLevels)
    );
    assert!(register_pool_with_fee(&setup, u(100), setup.admin, 10_000, 32).is_ok());
}

#[test]
fn update_verifier_swaps_verifier_address_for_admin() {
    let setup = setup_test_contracts();
    let mut pool = register_pool(&setup, u(1_000), 8);

    assert_eq!(pool.get_config().verifier, setup.verifier);

    let new_verifier = contract(33);
    pool.update_verifier(new_verifier);

    assert_eq!(pool.get_config().verifier, new_verifier);
}

#[test]
fn update_asp_membership_swaps_address_for_admin() {
    let setup = setup_test_contracts();
    let mut pool = register_pool(&setup, u(1_000), 8);

    assert_eq!(pool.get_config().asp_membership, setup.asp_membership_address);

    let new_asp = contract(34);
    pool.update_asp_membership(new_asp);

    assert_eq!(pool.get_config().asp_membership, new_asp);
}

#[test]
fn update_admin_transfers_control() {
    let setup = setup_test_contracts();
    let mut pool = register_pool(&setup, u(1_000), 8);

    let new_admin = account(35);
    pool.update_admin(new_admin);

    assert_eq!(pool.get_config().admin, new_admin);
}

#[test]
fn merkle_init_only_once() {
    let mut slot: Option<MerkleTreeWithHistory> = None;
    assert_eq!(MerkleTreeWithHistory::init(&mut slot, &toy_hash, 8), Ok(()));

    let result = MerkleTreeWithHistory::init(&mut slot, &toy_hash, 8);
    assert_eq!(result, Err(MerkleError::AlreadyInitialized));
}

#[test]
fn merkle_insert_updates_root_and_index() {
    let mut slot: Option<MerkleTreeWithHistory> = None;
    MerkleTreeWithHistory::init(&mut slot, &toy_hash, 8).unwrap();
    let mut tree = slot.unwrap();
    let leaf1 = u(0x01);
    let leaf2 = u(0x02);

    let (idx_0, idx_1) = tree
        .insert_two_leaves(&toy_hash, leaf1, leaf2)
        .unwrap_or_else(|err| panic!("expected leaf insertion to succeed: {err:?}"));
    assert_eq!(idx_0, 0);
    assert_eq!(idx_1, 1);

    let root = tree.get_last_root();
    assert!(tree.is_known_root(&root));
    assert_eq!(tree.next_index(), 2);
}

#[test]
fn merkle_insert_fails_when_full() {
    let mut slot: Option<MerkleTreeWithHistory> = None;
    MerkleTreeWithHistory::init(&mut slot, &toy_hash, 1).unwrap();
    let mut tree = slot.unwrap();
    let leaf1 = u(0x0A);
    let leaf2 = u(0x0B);

    let result1 = tree.insert_two_leaves(&toy_hash, leaf1, leaf2);
    assert!(result1.is_ok());

    let result2 = tree.insert_two_leaves(&toy_hash, leaf1, leaf2);
    assert_eq!(result2, Err(MerkleError::MerkleTreeFull));
}

#[test]
fn merkle_init_rejects_zero_levels() {
    let mut slot: Option<MerkleTreeWithHistory> = None;
    let result = MerkleTreeWithHistory::init(&mut slot, &toy_hash, 0);
    assert_eq!(result, Err(MerkleError::WrongLevels));
    let result = MerkleTreeWithHistory::init(&mut slot, &toy_hash, 33);
    assert_eq!(result, Err(MerkleError::WrongLevels));
}

#[test]
fn merkle_zero_root_is_never_known() {
    let mut slot: Option<MerkleTreeWithHistory> = None;
    MerkleTreeWithHistory::init(&mut slot, &toy_hash, 4).unwrap();
    let tree = slot.unwrap();
    assert!(!tree.is_known_root(&u(0)));
    assert!(tree.is_known_root(&tree.get_last_root()));
}

#[test]
fn merkle_history_forgets_roots_after_a_hundred_insertions() {
    let mut slot: Option<MerkleTreeWithHistory> = None;
    MerkleTreeWithHistory::init(&mut slot, &toy_hash, 10).unwrap();
    let mut tree = slot.unwrap();
    let first = tree.get_last_root();
    let mut roots = vec![first];
    for i in 0..100u128 {
        tree.insert_two_leaves(&toy_hash, u(2 * i + 1), u(2 * i + 2)).unwrap();
        roots.push(tree.get_last_root());
    }
    // The initial root is 100 insertions back: forgotten.
    assert!(!tree.is_known_root(&first));
    // The root after the first insertion is 99 insertions back: remembered.
    assert!(tree.is_known_root(&roots[1]));
    assert!(tree.is_known_root(&roots[100]));
}

#[test]
fn register_emits_public_key_event_schema() {
    let owner = account(40);
    let account_keys = Account { owner, encryption_key: vec![7u8; 32], note_key: vec![9u8; 32] };

    let event = PoolContract::register(account_keys);

    assert_eq!(event.owner, owner);
    assert_eq!(event.encryption_key, vec![7u8; 32]);
    assert_eq!(event.note_key, vec![9u8; 32]);
}

#[test]
fn deposit_transfers_tokens_and_returns_commitment_index() {
    let setup = setup_test_contracts();
    let mut pool = register_pool(&setup, u(1_000), 8);
    let mut ledger = Ledger::new();
    let sender = account(41);
    let commitment = u(0xCAFE);

    ledger.mint(sender, 500);
    let root_before = pool.get_root(&toy_hash);

    let commitment_index = deposit(&mut pool, &mut ledger, sender, 125, commitment).unwrap();

    assert_eq!(commitment_index, 0);
    assert!(pool.has_commitment(&commitment));
    assert_eq!(ledger.balance(&sender), 375);
    assert_eq!(ledger.balance(&pool_address()), 125);
    assert_ne!(pool.get_root(&toy_hash), root_before);
    assert_eq!(pool.next_index(&toy_hash), 2);
}

#[test]
fn deposit_emits_indexable_event_without_sender_metadata() {
    let setup = setup_test_contracts();
    let mut pool = register_pool(&setup, u(1_000), 8);
    let sender = account(42);
    let commitment = u(0xD06);

    let receipt = pool.deposit(&toy_hash, sender, 125, commitment).unwrap();

    assert_eq!(receipt.index, 0);
    assert_eq!(receipt.event.commitment, commitment);
    assert_eq!(receipt.event.pool, pool_address());
    assert_eq!(receipt.event.index, 0);
    assert_eq!(receipt.event.amount_bucket, 125);
    assert_eq!(receipt.event.asset, setup.token);
    assert_eq!(
        receipt.transfer,
        TokenTransfer { from: sender, to: pool_address(), amount: 125 }
    );
}

#[test]
fn deposit_keeps_stable_commitment_indices_across_multiple_deposits() {
    let setup = setup_test_contracts();
    let mut pool = register_pool(&setup, u(1_000), 8);
    let mut ledger = Ledger::new();
    let sender = account(43);
    let commitment0 = u(0xD10);
    let commitment1 = u(0xD11);

    ledger.mint(sender, 500);
    let root_before = pool.get_root(&toy_hash);

    let index0 = deposit(&mut pool, &mut ledger, sender, 125, commitment0).unwrap();
    assert_eq!(index0, 0);
    let root_after_first = pool.get_root(&toy_hash);

    let index1 = deposit(&mut pool, &mut ledger, sender, 75, commitment1).unwrap();
    assert_eq!(index1, 2);

    assert!(pool.has_commitment(&commitment0));
    assert!(pool.has_commitment(&commitment1));
    assert_eq!(ledger.balance(&sender), 300);
    assert_eq!(ledger.balance(&pool_address()), 200);
    assert_ne!(root_after_first, root_before);
    assert_ne!(pool.get_root(&toy_hash), root_after_first);
    assert!(pool.is_known_root(&toy_hash, &root_after_first));
}

#[test]
fn deposit_rejects_duplicate_commitment_without_transferring_again() {
    let setup = setup_test_contracts();
    let mut pool = register_pool(&setup, u(1_000), 8);
    let mut ledger = Ledger::new();
    let sender = account(44);
    let commitment = u(0xBEEF);

    ledger.mint(sender, 500);

    assert_eq!(deposit(&mut pool, &mut ledger, sender, 125, commitment), Ok(0));
    assert_eq!(
        deposit(&mut pool, &mut ledger, sender, 125, commitment),
        Err(ContractError::AlreadyInsertedCommitment)
    );

    assert_eq!(ledger.balance(&sender), 375);
    assert_eq!(ledger.balance(&pool_address()), 125);
}

#[test]
fn deposit_rejects_invalid_amounts_without_transferring() {
    let setup = setup_test_contracts();
    let mut pool = register_pool(&setup, u(100), 8);
    let mut ledger = Ledger::new();
    let sender = account(45);

    ledger.mint(sender, 500);

    assert_eq!(
        deposit(&mut pool, &mut ledger, sender, 0, u(0x01)),
        Err(ContractError::WrongExtAmount)
    );
    assert_eq!(
        deposit(&mut pool, &mut ledger, sender, 101, u(0x02)),
        Err(ContractError::WrongExtAmount)
    );
    assert_eq!(
        deposit(&mut pool, &mut ledger, sender, -5, u(0x03)),
        Err(ContractError::WrongExtAmount)
    );

    assert_eq!(ledger.balance(&sender), 500);
    assert_eq!(ledger.balance(&pool_address()), 0);
    assert_eq!(pool.next_index(&toy_hash), 0);
}

#[test]
fn deposit_accepts_the_maximum_amount() {
    let setup = setup_test_contracts();
    let mut pool = register_pool(&setup, u(100), 8);
    assert!(pool.deposit(&toy_hash, account(46), 100, u(0x10)).is_ok());
}

#[test]
fn deposit_rejects_commitment_outside_bn254_field_without_transferring() {
    let setup = setup_test_contracts();
    let mut pool = register_pool(&setup, u(1_000), 8);
    let mut ledger = Ledger::new();
    let sender = account(47);
    let invalid_commitment = bn256_modulus();

    ledger.mint(sender, 500);

    assert_eq!(
        deposit(&mut pool, &mut ledger, sender, 125, invalid_commitment),
        Err(ContractError::InvalidFieldElement)
    );

    assert!(!pool.has_commitment(&invalid_commitment));
    assert_eq!(ledger.balance(&sender), 500);
    assert_eq!(ledger.balance(&pool_address()), 0);
}

#[test]
fn deposit_fails_when_the_tree_is_full() {
    let setup = setup_test_contracts();
    let mut pool = register_pool(&setup, u(1_000), 1);
    assert_eq!(pool.deposit(&toy_hash, account(48), 1, u(0x20)).map(|r| r.index), Ok(0));
    assert_eq!(
        pool.deposit(&toy_hash, account(48), 1, u(0x21)).map(|r| r.index),
        Err(ContractError::MerkleTreeFull)
    );
}

#[test]
fn has_nullifier_is_false_before_any_spend() {
    let setup = setup_test_contracts();
    let pool = register_pool(&setup, u(1_000), 8);

    assert!(!pool.has_nullifier(&u(0x01)));
}

#[test]
fn verifier_public_inputs_follow_policy_transaction_order() {
    let ext_data_hash = U256 { hi: u128::from_be_bytes([0x77; 16]), lo: u128::from_be_bytes([0x77; 16]) };
    let root = u(1);
    let public_amount = u(2);
    let nullifier0 = u(3);
    let nullifier1 = u(4);
    let output_commitment0 = u(5);
    let output_commitment1 = u(6);
    let asp_membership_root = u(7);

    let proof = Proof {
        proof: mock_proof(),
        root,
        input_nullifiers: vec![nullifier0, nullifier1],
        output_commitment0,
        output_commitment1,
        public_amount,
        ext_data_hash,
        asp_membership_root,
    };

    let inputs = VerifierPublicInputs::from_proof(&proof).values;
    // The hash 0x77..77 is above the field order: the verifier's scalar type
    // reduces it.
    let r = num_bigint::BigUint::parse_bytes(
        b"21888242871839275222246405745257275088548364400416034343698204186575808495617",
        10,
    )
    .unwrap();
    let reduced = num_bigint::BigUint::from_bytes_be(&[0x77u8; 32]) % &r;
    let mut reduced_bytes = vec![0u8; 32];
    let rb = reduced.to_bytes_be();
    reduced_bytes[32 - rb.len()..].copy_from_slice(&rb);
    let reduced_hash = U256 {
        hi: u128::from_be_bytes(reduced_bytes[..16].try_into().unwrap()),
        lo: u128::from_be_bytes(reduced_bytes[16..].try_into().unwrap()),
    };
    assert_ne!(reduced_hash, ext_data_hash);
    let expected = vec![
        root,
        public_amount,
        reduced_hash,
        nullifier0,
        nullifier1,
        output_commitment0,
        output_commitment1,
        asp_membership_root,
        asp_membership_root,
    ];

    assert_eq!(inputs.len(), 9);
    assert_eq!(inputs, expected);
}

#[test]
fn transact_settles_against_the_mock_verifier() {
    let env = Env::default();
    let setup = setup_test_contracts();
    let mut case = mk_transact_case(&env, &setup);
    let mut ledger = Ledger::new();

    let nullifier0 = case.proof.input_nullifiers[0];
    let nullifier1 = case.proof.input_nullifiers[1];
    let commitment0 = case.proof.output_commitment0;
    let commitment1 = case.proof.output_commitment1;

    let settlement = run_transact(
        &env,
        &mut case.pool,
        &setup.asp,
        &mut ledger,
        &case.proof,
        &case.ext,
        case.sender,
    )
    .unwrap();

    assert!(case.pool.has_nullifier(&nullifier0));
    assert!(case.pool.has_nullifier(&nullifier1));
    assert!(case.pool.has_commitment(&commitment0));
    assert!(case.pool.has_commitment(&commitment1));
    assert_eq!(settlement.output_index0, 0);
    assert_eq!(settlement.output_index1, 1);
    assert_eq!(settlement.nullifier_events.len(), 2);
    assert_eq!(settlement.settlement_events.len(), 2);
    assert_eq!(settlement.settlement_events[0].recipient, None);
    assert_eq!(settlement.commitment_events[1].encrypted_output, vec![4, 5, 6]);
    assert!(settlement.deposit.is_none());
    assert!(settlement.payouts.is_empty());
}

#[test]
fn transact_rejects_a_spend_whose_asp_root_is_not_the_live_allowlist() {
    let env = Env::default();
    let setup = setup_test_contracts();
    let mut case = mk_transact_case(&env, &setup);
    let mut ledger = Ledger::new();

    let mut proof = case.proof.clone();
    proof.asp_membership_root = u(0xDEAD);

    let nullifier0 = proof.input_nullifiers[0];
    let commitment0 = proof.output_commitment0;

    assert!(run_transact(&env, &mut case.pool, &setup.asp, &mut ledger, &proof, &case.ext, case.sender)
        .is_err());

    assert!(!case.pool.has_nullifier(&nullifier0));
    assert!(!case.pool.has_commitment(&commitment0));
}

#[test]
fn transact_rejects_a_stale_asp_root_after_a_new_enrollment() {
    let env = Env::default();
    let mut setup = setup_test_contracts();
    let mut case = mk_transact_case(&env, &setup);
    let mut ledger = Ledger::new();

    setup.asp.insert_leaf(&toy_hash, u(0xA11CE), true).unwrap();

    assert_eq!(
        run_transact(&env, &mut case.pool, &setup.asp, &mut ledger, &case.proof, &case.ext, case.sender)
            .err(),
        Some(ContractError::InvalidProof)
    );
}

#[test]
fn transact_rejects_unknown_root() {
    let env = Env::default();
    let setup = setup_test_contracts();
    let mut case = mk_transact_case(&env, &setup);
    let mut ledger = Ledger::new();

    let mut proof = case.proof.clone();
    proof.root = u(0xBAD1);

    assert_eq!(
        run_transact(&env, &mut case.pool, &setup.asp, &mut ledger, &proof, &case.ext, case.sender)
            .err(),
        Some(ContractError::UnknownRoot)
    );
}

#[test]
fn transact_rejects_bad_ext_hash() {
    let env = Env::default();
    let setup = setup_test_contracts();
    let mut case = mk_transact_case(&env, &setup);
    let mut ledger = Ledger::new();

    let mut proof = case.proof.clone();
    proof.ext_data_hash = U256 { hi: 0x0101_0101_0101_0101_0101_0101_0101_0101, lo: 0x0101_0101_0101_0101_0101_0101_0101_0101 };

    assert!(run_transact(&env, &mut case.pool, &setup.asp, &mut ledger, &proof, &case.ext, case.sender)
        .is_err());
}

#[test]
fn transact_rejects_bad_public_amount() {
    let env = Env::default();
    let setup = setup_test_contracts();
    let mut case = mk_transact_case(&env, &setup);
    let mut ledger = Ledger::new();

    let mut proof = case.proof.clone();
    proof.public_amount = u(7);

    assert_eq!(
        run_transact(&env, &mut case.pool, &setup.asp, &mut ledger, &proof, &case.ext, case.sender)
            .err(),
        Some(ContractError::WrongExtAmount)
    );
}

#[test]
fn transact_rejects_a_replayed_nullifier() {
    let env = Env::default();
    let setup = setup_test_contracts();
    let mut case = mk_transact_case(&env, &setup);
    let mut ledger = Ledger::new();

    run_transact(&env, &mut case.pool, &setup.asp, &mut ledger, &case.proof, &case.ext, case.sender)
        .unwrap();

    let replay = Proof {
        proof: mock_proof(),
        root: case.pool.get_root(&toy_hash),
        input_nullifiers: case.proof.input_nullifiers.clone(),
        output_commitment0: u(0x301),
        output_commitment1: u(0x302),
        public_amount: u(0),
        ext_data_hash: case.proof.ext_data_hash,
        asp_membership_root: setup.asp.get_root(),
    };

    assert_eq!(
        run_transact(&env, &mut case.pool, &setup.asp, &mut ledger, &replay, &case.ext, case.sender)
            .err(),
        Some(ContractError::AlreadySpentNullifier)
    );
    assert!(!case.pool.has_commitment(&u(0x301)));
}

#[test]
fn transact_rejects_the_same_proof_twice() {
    let env = Env::default();
    let setup = setup_test_contracts();
    let mut case = mk_transact_case(&env, &setup);
    let mut ledger = Ledger::new();

    run_transact(&env, &mut case.pool, &setup.asp, &mut ledger, &case.proof, &case.ext, case.sender)
        .unwrap();
    assert_eq!(
        run_transact(&env, &mut case.pool, &setup.asp, &mut ledger, &case.proof, &case.ext, case.sender)
            .err(),
        Some(ContractError::AlreadySpentNullifier)
    );

    // With fresh nullifiers, the reused output commitments still refuse it.
    let mut again = case.proof.clone();
    again.input_nullifiers = vec![u(0x901), u(0x902)];
    assert_eq!(
        case.pool.transact_settle(&toy_hash, &again, &case.ext, case.sender, true).err(),
        Some(ContractError::AlreadyInsertedCommitment)
    );
}

#[test]
fn transact_rejects_repeated_nullifiers_in_one_proof() {
    let env = Env::default();
    let setup = setup_test_contracts();
    let mut case = mk_transact_case(&env, &setup);
    let mut ledger = Ledger::new();

    let mut proof = case.proof.clone();
    proof.input_nullifiers = vec![u(0x101), u(0x101)];
    assert_eq!(
        run_transact(&env, &mut case.pool, &setup.asp, &mut ledger, &proof, &case.ext, case.sender)
            .err(),
        Some(ContractError::AlreadySpentNullifier)
    );
}

#[test]
fn transact_rejects_values_outside_the_field() {
    let env = Env::default();
    let setup = setup_test_contracts();
    let mut case = mk_transact_case(&env, &setup);
    let mut ledger = Ledger::new();

    let mut proof = case.proof.clone();
    proof.output_commitment1 = bn256_modulus();
    assert_eq!(
        run_transact(&env, &mut case.pool, &setup.asp, &mut ledger, &proof, &case.ext, case.sender)
            .err(),
        Some(ContractError::InvalidFieldElement)
    );
}

#[test]
fn transact_rejects_an_empty_proof() {
    let env = Env::default();
    let setup = setup_test_contracts();
    let mut case = mk_transact_case(&env, &setup);
    let mut ledger = Ledger::new();

    let mut proof = case.proof.clone();
    proof.proof.a = vec![0u8; 64];
    proof.proof.b = vec![0u8; 128];
    proof.proof.c = vec![0u8; 64];
    assert_eq!(
        run_transact(&env, &mut case.pool, &setup.asp, &mut ledger, &proof, &case.ext, case.sender)
            .err(),
        Some(ContractError::InvalidProof)
    );
}

#[test]
fn get_ext_data_hash_matches_the_binding_hash() {
    let env = Env::default();
    let ext = mk_ext_data(account(51), -5);
    let bytes = ext_encoding(&ext);

    let digest: [u8; 32] = env
        .crypto()
        .keccak256(&soroban_sdk::Bytes::from_slice(&env, &bytes))
        .to_array();
    let expected = num_bigint::BigUint::from_bytes_be(&digest)
        % num_bigint::BigUint::parse_bytes(
            b"21888242871839275222246405745257275088548364400416034343698204186575808495617",
            10,
        )
        .unwrap();
    let got = PoolContract::get_ext_data_hash(&env, &bytes);
    let mut got_bytes = got.hi.to_be_bytes().to_vec();
    got_bytes.extend_from_slice(&got.lo.to_be_bytes());

    assert_eq!(num_bigint::BigUint::from_bytes_be(&got_bytes), expected);
    assert_eq!(got, PoolContract::get_ext_data_hash(&env, &bytes));
    assert_ne!(got, PoolContract::get_ext_data_hash(&env, &[1u8, 2, 3].to_vec()));
}

#[test]
fn transact_withdraws_the_full_amount_when_no_fee_is_configured() {
    let env = Env::default();
    let setup = setup_test_contracts();
    let mut ledger = Ledger::new();
    let (mut case, fee_recipient) = mk_transact_case_with_amount(&env, &setup, &mut ledger, 0, -40, 100);
    let recipient = case.ext.recipient;

    run_transact(&env, &mut case.pool, &setup.asp, &mut ledger, &case.proof, &case.ext, case.sender)
        .unwrap();

    assert_eq!(ledger.balance(&recipient), 40);
    assert_eq!(ledger.balance(&fee_recipient), 0);
    assert_eq!(ledger.balance(&pool_address()), 60);
}

#[test]
fn transact_withdrawal_splits_the_protocol_fee() {
    let env = Env::default();
    let setup = setup_test_contracts();
    let mut ledger = Ledger::new();
    let (mut case, fee_recipient) =
        mk_transact_case_with_amount(&env, &setup, &mut ledger, 250, -40, 100);
    let recipient = case.ext.recipient;

    let settlement =
        run_transact(&env, &mut case.pool, &setup.asp, &mut ledger, &case.proof, &case.ext, case.sender)
            .unwrap();

    assert_eq!(ledger.balance(&recipient), 39);
    assert_eq!(ledger.balance(&fee_recipient), 1);
    assert_eq!(ledger.balance(&pool_address()), 60);
    assert_eq!(settlement.settlement_events[0].recipient, Some(recipient));
    assert_eq!(settlement.settlement_events[0].amount_bucket, -40);
}

#[test]
fn transact_rejects_a_withdrawal_the_pool_cannot_cover() {
    let env = Env::default();
    let setup = setup_test_contracts();
    let mut ledger = Ledger::new();
    let (mut case, fee_recipient) = mk_transact_case_with_amount(&env, &setup, &mut ledger, 0, -40, 10);
    let recipient = case.ext.recipient;
    let nullifier0 = case.proof.input_nullifiers[0];

    assert!(run_transact(&env, &mut case.pool, &setup.asp, &mut ledger, &case.proof, &case.ext, case.sender)
        .is_err());

    assert_eq!(ledger.balance(&recipient), 0);
    assert_eq!(ledger.balance(&fee_recipient), 0);
    assert_eq!(ledger.balance(&pool_address()), 10);
    assert!(!case.pool.has_nullifier(&nullifier0));
    assert!(!case.pool.has_commitment(&case.proof.output_commitment0));
}

#[test]
fn transact_takes_a_deposit_through_the_single_entrypoint() {
    let env = Env::default();
    let setup = setup_test_contracts();
    let mut ledger = Ledger::new();
    let (mut case, _) = mk_transact_case_with_amount(&env, &setup, &mut ledger, 0, 25, 0);
    ledger.mint(case.sender, 100);

    run_transact(&env, &mut case.pool, &setup.asp, &mut ledger, &case.proof, &case.ext, case.sender)
        .unwrap();

    assert_eq!(ledger.balance(&case.sender), 75);
    assert_eq!(ledger.balance(&pool_address()), 25);
    assert!(case.pool.has_commitment(&case.proof.output_commitment0));
}

#[test]
fn transact_rejects_a_deposit_above_the_maximum() {
    let env = Env::default();
    let setup = setup_test_contracts();
    let mut ledger = Ledger::new();
    let (mut case, _) = mk_transact_case_with_amount(&env, &setup, &mut ledger, 0, 1_001, 0);
    ledger.mint(case.sender, 5_000);

    assert_eq!(
        run_transact(&env, &mut case.pool, &setup.asp, &mut ledger, &case.proof, &case.ext, case.sender)
            .err(),
        Some(ContractError::WrongExtAmount)
    );
    assert_eq!(ledger.balance(&case.sender), 5_000);
}

#[test]
fn a_reentrant_token_cannot_insert_a_commitment_twice() {
    let setup = setup_test_contracts();
    let mut pool = register_pool(&setup, u(1_000), 8);
    let sender = account(52);
    let commitment = u(0xFEED);

    // The state changes before the transfer is handed back, so a token that
    // re-enters `deposit` with the same commitment from inside the transfer
    // finds it already inserted.
    let receipt = pool.deposit(&toy_hash, sender, 10, commitment).unwrap();
    let reentered = pool.deposit(&toy_hash, sender, 10, commitment);

    assert_eq!(reentered.err(), Some(ContractError::AlreadyInsertedCommitment));
    assert_eq!(receipt.index, 0);
    assert_eq!(pool.next_index(&toy_hash), 2);
}

#[test]
fn public_amount_encodes_deposits_and_withdrawals() {
    assert_eq!(PoolContract::get_public_amount(&I256::from_i32(25)), Ok(u(25)));
    assert_eq!(PoolContract::get_public_amount(&I256::from_i32(0)), Ok(u(0)));
    let field = bn256_modulus();
    let minus_ten = PoolContract::get_public_amount(&I256::from_i32(-10)).unwrap();
    assert_eq!(minus_ten.add(&u(10)), field);
    let too_big = I256 { hi: 0x0100_0000_0000_0000_0000_0000_0000_0000, lo: 0 };
    assert_eq!(
        PoolContract::get_public_amount(&too_big),
        Err(ContractError::WrongExtAmount)
    );
    let just_below = I256 { hi: 0x00ff_ffff_ffff_ffff_ffff_ffff_ffff_ffff, lo: u128::MAX };
    assert!(PoolContract::get_public_amount(&just_below).is_ok());
}

#[test]
fn fee_amount_rounds_down_and_reports_overflow() {
    assert_eq!(PoolContract::calculate_fee_amount(40, 250), Ok(1));
    assert_eq!(PoolContract::calculate_fee_amount(39, 250), Ok(0));
    assert_eq!(PoolContract::calculate_fee_amount(1_000, 10_000), Ok(1_000));
    assert_eq!(PoolContract::calculate_fee_amount(-40, 250), Ok(-1));
    assert_eq!(
        PoolContract::calculate_fee_amount(i128::MAX, 2),
        Err(ContractError::Overflow)
    );
}

#[test]
fn transact_asks_the_allowlist_then_the_verifier() {
    let env = Env::default();
    let setup = setup_test_contracts();
    let case = mk_transact_case(&env, &setup);
    let ext_hash = compute_ext_hash(&env, &case.ext);
    let live = setup.asp.get_root();

    assert!(matches!(
        case.pool.transact_step(&toy_hash, &case.proof, &case.ext, &ext_hash, None, None),
        TransactStep::AskMembershipRoot
    ));
    match case.pool.transact_step(&toy_hash, &case.proof, &case.ext, &ext_hash, Some(live), None) {
        TransactStep::AskVerifier(inputs) => {
            assert_eq!(inputs.values, VerifierPublicInputs::from_proof(&case.proof).values)
        },
        other => panic!("expected a verifier request, got {other:?}"),
    }
    assert!(matches!(
        case.pool.transact_step(&toy_hash, &case.proof, &case.ext, &ext_hash, Some(live), Some(false)),
        TransactStep::Settle(false)
    ));
    assert!(matches!(
        case.pool.transact_step(&toy_hash, &case.proof, &case.ext, &ext_hash, Some(u(1)), None),
        TransactStep::Refuse(ContractError::InvalidProof)
    ));
    assert!(matches!(
        case.pool.transact_step(&toy_hash, &case.proof, &case.ext, &u(5), None, None),
        TransactStep::Refuse(ContractError::WrongExtHash)
    ));
}

#[test]
fn settlement_refuses_a_proof_the_verifier_rejected() {
    let env = Env::default();
    let setup = setup_test_contracts();
    let mut case = mk_transact_case(&env, &setup);
    let r = case.pool.transact_settle(&toy_hash, &case.proof, &case.ext, case.sender, false);
    assert_eq!(r.err(), Some(ContractError::InvalidProof));
    assert!(!case.pool.has_nullifier(&case.proof.input_nullifiers[0]));
    assert_eq!(case.pool.next_index(&toy_hash), 0);
}

#[test]
fn public_amount_of_the_smallest_amount_is_refused() {
    let min = I256 { hi: i128::MIN, lo: 0 };
    assert_eq!(PoolContract::get_public_amount(&min), Err(ContractError::WrongExtAmount));
    assert_eq!(PoolContract::calculate_public_amount(&min), Err(ContractError::WrongExtAmount));
}

#[test]
fn transact_refuses_the_smallest_amount() {
    let env = Env::default();
    let setup = setup_test_contracts();
    let mut case = mk_transact_case(&env, &setup);
    let mut ledger = Ledger::new();
    let mut ext = case.ext.clone();
    ext.ext_amount = I256 { hi: i128::MIN, lo: 0 };
    let mut proof = case.proof.clone();
    proof.ext_data_hash = compute_ext_hash(&env, &ext);
    assert_eq!(
        run_transact(&env, &mut case.pool, &setup.asp, &mut ledger, &proof, &ext, case.sender).err(),
        Some(ContractError::WrongExtAmount)
    );
}

#[test]
fn settlement_checks_nullifiers_before_commitments() {
    let env = Env::default();
    let setup = setup_test_contracts();
    let mut case = mk_transact_case(&env, &setup);
    let mut ledger = Ledger::new();
    run_transact(&env, &mut case.pool, &setup.asp, &mut ledger, &case.proof, &case.ext, case.sender)
        .unwrap();
    // Both the nullifiers and the output commitments are reused.
    assert_eq!(
        case.pool.transact_settle(&toy_hash, &case.proof, &case.ext, case.sender, true).err(),
        Some(ContractError::AlreadySpentNullifier)
    );
}
