use veil::address::{Address, AddressKind};
use veil::asp_membership::{ASPMembership, Error as AspError};
use veil::faucet::{Error, Faucet};
use veil::field::bn256_modulus;
use veil::merkle::empty_leaf;
use veil::uint::U256;

const LEVELS: u32 = 16;
const COOLDOWN: u32 = 100;

fn toy_hash(l: U256, r: U256) -> U256 {
    let hi = l.hi.rotate_left(7) ^ r.lo.wrapping_mul(0x9E37_79B9_7F4A_7C15) ^ 0x5555;
    let lo = l.lo.wrapping_mul(31).wrapping_add(r.hi.rotate_left(13)) ^ r.lo ^ l.hi;
    U256 { hi: hi % 0x3000_0000_0000_0000_0000_0000_0000_0000, lo }
}

fn u(n: u128) -> U256 {
    U256::from_u128(n)
}

fn account(n: u128) -> Address {
    Address { kind: AddressKind::Account, key: u(n) }
}

fn contract(n: u128) -> Address {
    Address { kind: AddressKind::Contract, key: u(n) }
}

/// The allowlist, a faucet holding its admin role, and the token balances
/// the faucet mints into.
struct Setup {
    asp: ASPMembership,
    faucet: Faucet,
    token: Option<Address>,
    minted: Vec<(Address, i128)>,
    ledger: u32,
}

fn setup(with_token: bool) -> Setup {
    let admin = account(1);
    let token = if with_token { Some(contract(2)) } else { None };
    let mut asp = ASPMembership::new(&toy_hash, admin, LEVELS).unwrap();
    let faucet_id = contract(3);
    let faucet = Faucet::new(admin, token, contract(4), 100, COOLDOWN).unwrap();
    asp.update_admin(faucet_id, true).unwrap();
    Setup { asp, faucet, token, minted: Vec::new(), ledger: 1 }
}

fn balance(s: &Setup, who: &Address) -> i128 {
    s.minted.iter().filter(|(a, _)| a == who).map(|(_, b)| *b).sum()
}

/// `onboard` as the entrypoint runs it: the cooldown, then the enrolment,
/// then the mint.
fn onboard(s: &mut Setup, to: Address, leaf: U256) -> Result<(), Error> {
    let onboarding = s.faucet.onboard(to, leaf, s.ledger)?;
    s.asp.insert_leaf(&toy_hash, onboarding.leaf, true).unwrap();
    if onboarding.token.is_some() {
        s.minted.push((to, onboarding.amount));
    }
    Ok(())
}

fn drip(s: &mut Setup, to: Address) -> Result<(), Error> {
    let amount = s.faucet.drip(to, s.ledger)?;
    s.minted.push((to, amount));
    Ok(())
}

#[test]
fn onboard_enrols_the_caller_and_moves_the_allowlist_root() {
    let mut s = setup(false);
    let tester = account(10);
    let before = s.asp.get_root();

    onboard(&mut s, tester, u(0xA11CE)).unwrap();

    assert_ne!(s.asp.get_root(), before);
}

#[test]
fn onboard_also_mints_when_a_token_is_configured() {
    let mut s = setup(true);
    let tester = account(11);
    assert!(s.token.is_some());

    onboard(&mut s, tester, u(0xB0B)).unwrap();

    assert_eq!(balance(&s, &tester), 100);
}

#[test]
fn a_faucet_without_a_token_enrols_but_refuses_to_drip() {
    let mut s = setup(false);
    let tester = account(12);

    onboard(&mut s, tester, u(0xC0FFEE)).unwrap();
    assert_eq!(drip(&mut s, tester), Err(Error::NoTokenConfigured));
}

#[test]
fn the_cooldown_holds_a_second_call_and_releases_it_later() {
    let mut s = setup(true);
    let tester = account(13);

    onboard(&mut s, tester, u(0x01)).unwrap();
    assert_eq!(
        drip(&mut s, tester),
        Err(Error::CooldownActive),
        "a second call inside the cooldown window must be refused"
    );
    assert_eq!(balance(&s, &tester), 100);

    s.ledger += COOLDOWN;
    drip(&mut s, tester).unwrap();

    assert_eq!(balance(&s, &tester), 200);
}

#[test]
fn the_cooldown_is_per_recipient() {
    let mut s = setup(false);
    let first = account(14);
    let second = account(15);

    onboard(&mut s, first, u(0x11)).unwrap();
    onboard(&mut s, second, u(0x22)).unwrap();

    assert_eq!(onboard(&mut s, first, u(0x33)), Err(Error::CooldownActive));
}

#[test]
fn the_cooldown_ends_exactly_after_the_configured_ledgers() {
    let mut s = setup(true);
    let tester = account(16);
    drip(&mut s, tester).unwrap();
    s.ledger += COOLDOWN - 1;
    assert_eq!(drip(&mut s, tester), Err(Error::CooldownActive));
    s.ledger += 1;
    assert_eq!(drip(&mut s, tester), Ok(()));
}

#[test]
fn a_cooldown_near_the_last_ledger_saturates() {
    let mut f = Faucet::new(account(1), Some(contract(2)), contract(4), 5, COOLDOWN).unwrap();
    let tester = account(17);
    assert_eq!(f.drip(tester, u32::MAX - 10), Ok(5));
    assert_eq!(f.drip(tester, u32::MAX - 1), Err(Error::CooldownActive));
    // The window end saturates at the last ledger, which is then allowed.
    assert_eq!(f.drip(tester, u32::MAX), Ok(5));
}

#[test]
fn settings_are_readable_and_admin_gated() {
    let mut s = setup(true);
    assert_eq!(s.faucet.drip_amount(), 100);
    assert_eq!(s.faucet.cooldown_ledgers(), COOLDOWN);

    s.faucet.set_drip(250, 7).unwrap();
    assert_eq!(s.faucet.drip_amount(), 250);
    assert_eq!(s.faucet.cooldown_ledgers(), 7);

    let new_admin = account(18);
    s.faucet.update_admin(new_admin);
    assert_eq!(s.faucet.drip_amount(), 250);
    assert_eq!(s.faucet.admin(), new_admin);
}

#[test]
fn a_non_positive_drip_is_refused() {
    let mut s = setup(true);
    assert_eq!(s.faucet.set_drip(0, 7), Err(Error::InvalidAmount));
    assert_eq!(s.faucet.set_drip(-3, 7), Err(Error::InvalidAmount));
    assert_eq!(s.faucet.drip_amount(), 100);
    assert_eq!(s.faucet.cooldown_ledgers(), COOLDOWN);
}

#[test]
fn a_minting_faucet_needs_a_positive_drip() {
    assert_eq!(
        Faucet::new(account(1), Some(contract(2)), contract(4), 0, COOLDOWN).err(),
        Some(Error::InvalidAmount)
    );
    assert!(Faucet::new(account(1), None, contract(4), 0, COOLDOWN).is_ok());
}

#[test]
fn allowlist_starts_admin_only_with_the_empty_root() {
    let admin = account(1);
    let asp = ASPMembership::new(&toy_hash, admin, 2).unwrap();
    assert!(asp.admin_insert_only());
    assert_eq!(asp.admin(), admin);
    let z0 = empty_leaf();
    let z1 = toy_hash(z0, z0);
    let z2 = toy_hash(z1, z1);
    assert_eq!(asp.get_root(), z2);
}

#[test]
fn allowlist_root_is_the_tree_over_the_enrolled_leaves() {
    let mut asp = ASPMembership::new(&toy_hash, account(1), 2).unwrap();
    let a = u(0xA);
    let b = u(0xB);
    let c = u(0xC);
    let z = empty_leaf();
    let e0 = asp.insert_leaf(&toy_hash, a, true).unwrap();
    assert_eq!(e0.index, 0);
    assert_eq!(e0.root, toy_hash(toy_hash(a, z), toy_hash(z, z)));
    let e1 = asp.insert_leaf(&toy_hash, b, true).unwrap();
    assert_eq!(e1.root, toy_hash(toy_hash(a, b), toy_hash(z, z)));
    let e2 = asp.insert_leaf(&toy_hash, c, true).unwrap();
    assert_eq!(e2.index, 2);
    assert_eq!(e2.root, toy_hash(toy_hash(a, b), toy_hash(c, z)));
    assert_eq!(asp.get_root(), e2.root);
}

#[test]
fn allowlist_refuses_a_full_tree_and_values_outside_the_field() {
    let mut asp = ASPMembership::new(&toy_hash, account(1), 1).unwrap();
    assert_eq!(asp.insert_leaf(&toy_hash, bn256_modulus(), true).err(), Some(AspError::InvalidFieldElement));
    asp.insert_leaf(&toy_hash, u(1), true).unwrap();
    asp.insert_leaf(&toy_hash, u(2), true).unwrap();
    let root = asp.get_root();
    assert_eq!(asp.insert_leaf(&toy_hash, u(3), true).err(), Some(AspError::MerkleTreeFull));
    assert_eq!(asp.get_root(), root);
}

#[test]
fn allowlist_rejects_bad_heights() {
    assert_eq!(ASPMembership::new(&toy_hash, account(1), 0).err().is_some(), true);
    assert_eq!(ASPMembership::new(&toy_hash, account(1), 33).err(), Some(AspError::WrongLevels));
}

#[test]
fn allowlist_hash_pair_checks_the_field() {
    assert_eq!(ASPMembership::hash_pair(&toy_hash, u(1), u(2)), Ok(toy_hash(u(1), u(2))));
    assert_eq!(
        ASPMembership::hash_pair(&toy_hash, bn256_modulus(), u(2)),
        Err(AspError::InvalidFieldElement)
    );
    assert_eq!(
        ASPMembership::hash_pair(&toy_hash, u(2), bn256_modulus()),
        Err(AspError::InvalidFieldElement)
    );
}

#[test]
fn allowlist_admin_settings_keep_the_tree() {
    let mut asp = ASPMembership::new(&toy_hash, account(1), 4).unwrap();
    asp.insert_leaf(&toy_hash, u(9), true).unwrap();
    let root = asp.get_root();
    asp.set_admin_insert_only(false, true).unwrap();
    assert!(!asp.admin_insert_only());
    asp.update_admin(account(2), true).unwrap();
    assert_eq!(asp.admin(), account(2));
    assert_eq!(asp.get_root(), root);
}

#[test]
fn enrolment_is_admin_only_until_opened() {
    let admin = account(1);
    let mut asp = ASPMembership::new(&toy_hash, admin, 4).unwrap();
    let root = asp.get_root();
    assert_eq!(asp.insert_leaf(&toy_hash, u(5), false).err(), Some(AspError::NotAuthorized));
    assert_eq!(asp.get_root(), root);

    // Without the admin's signature the flag cannot be changed.
    assert_eq!(asp.set_admin_insert_only(false, false), Err(AspError::NotAuthorized));
    assert!(asp.admin_insert_only());

    assert_eq!(asp.set_admin_insert_only(false, true), Ok(()));
    assert!(asp.insert_leaf(&toy_hash, u(5), false).is_ok());
    assert_ne!(asp.get_root(), root);
}

#[test]
fn admin_rotation_needs_the_admin() {
    let mut asp = ASPMembership::new(&toy_hash, account(1), 4).unwrap();
    assert_eq!(asp.update_admin(account(2), false), Err(AspError::NotAuthorized));
    assert_eq!(asp.admin(), account(1));
    assert_eq!(asp.update_admin(account(2), true), Ok(()));
    assert_eq!(asp.admin(), account(2));
}
