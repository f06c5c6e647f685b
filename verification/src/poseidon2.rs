//! Poseidon2 over the BN254 scalar field, width 3: the hash of two values
//! with a domain separator that derives public keys and allowlist leaves.
use vstd::prelude::*;
use zkhash::ark_ff::{BigInteger, PrimeField};
use zkhash::fields::bn256::FpBN256;
use zkhash::poseidon2::poseidon2::Poseidon2;
use zkhash::poseidon2::poseidon2_instance_bn256::POSEIDON2_BN256_PARAMS;
use crate::field::{field_modulus, reduce_mod_field};
use crate::uint::{lemma_u256_of_view, u256_of, U256};

verus! {

/// The first element of the width-3 Poseidon2 permutation of `(a, b, c)`.
pub uninterp spec fn poseidon2_t3_first(a: nat, b: nat, c: nat) -> nat;

/// Calls `zkhash::poseidon2::poseidon2::Poseidon2::permutation` with the
/// width-3 BN254 instance `POSEIDON2_BN256_PARAMS` on three field elements
/// and returns the first element of the result. Claimed: the result is a
/// field element that depends on the three inputs alone.
#[verifier::external_body]
fn poseidon2_permute_t3(a: &U256, b: &U256, c: &U256) -> (r: U256)
    requires
        a@ < field_modulus(),
        b@ < field_modulus(),
        c@ < field_modulus(),
    ensures
        r@ == poseidon2_t3_first(a@, b@, c@),
        r@ < field_modulus(),
{
    let state = Poseidon2::new(&POSEIDON2_BN256_PARAMS).permutation(&[
        FpBN256::from_be_bytes_mod_order(&[a.hi.to_be_bytes(), a.lo.to_be_bytes()].concat()),
        FpBN256::from_be_bytes_mod_order(&[b.hi.to_be_bytes(), b.lo.to_be_bytes()].concat()),
        FpBN256::from_be_bytes_mod_order(&[c.hi.to_be_bytes(), c.lo.to_be_bytes()].concat()),
    ]);
    let out = state[0].into_bigint().to_bytes_be();
    U256 {
        hi: u128::from_be_bytes(out[..16].try_into().unwrap()),
        lo: u128::from_be_bytes(out[16..].try_into().unwrap()),
    }
}

/// The hash of `a` and `b` with the domain separator `domain` (zero when
/// absent), each read as a field element.
pub open spec fn poseidon2_hash2_spec(a: U256, b: U256, domain: Option<U256>) -> U256 {
    let d = match domain {
        Some(d) => d@,
        None => 0,
    };
    u256_of(
        poseidon2_t3_first(
            a@ % field_modulus(),
            b@ % field_modulus(),
            d % field_modulus(),
        ),
    )
}

/// Hashes two values with a domain separator: the first element of the
/// width-3 permutation of `(a, b, domain)`, a missing separator read as zero.
pub fn poseidon2_hash2(a: U256, b: U256, domain: Option<U256>) -> (r: U256)
    ensures
        r == poseidon2_hash2_spec(a, b, domain),
        r@ < field_modulus(),
{
    let d = match domain {
        Some(d) => d,
        None => U256::zero(),
    };
    let a = reduce_mod_field(a);
    let b = reduce_mod_field(b);
    let d = reduce_mod_field(d);
    let r = poseidon2_permute_t3(&a, &b, &d);
    proof {
        lemma_u256_of_view(r);
    }
    r
}

} // verus!
