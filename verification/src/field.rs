//! The BN254 scalar field: the range every public proof value must lie in.
use vstd::prelude::*;
use crate::uint::U256;

verus! {

/// The order of the BN254 scalar field.
pub open spec fn field_modulus() -> nat {
    21888242871839275222246405745257275088548364400416034343698204186575808495617nat
}

/// The order of the BN254 scalar field.
pub fn bn256_modulus() -> (r: U256)
    ensures
        r@ == field_modulus(),
{
    U256 { hi: 0x30644e72e131a029b85045b68181585d, lo: 0x2833e84879b9709143e1f593f0000001 }
}

/// Whether `v` lies in the field.
pub fn is_field_element(v: &U256) -> (r: bool)
    ensures
        r == (v@ < field_modulus()),
{
    let m = bn256_modulus();
    v.lt(&m)
}

/// `v` reduced modulo the field order.
pub fn reduce_mod_field(v: U256) -> (r: U256)
    ensures
        r@ == v@ % field_modulus(),
        r@ < field_modulus(),
{
    let m = bn256_modulus();
    let mut x = v;
    while m.le(&x)
        invariant
            m@ == field_modulus(),
            x@ % field_modulus() == v@ % field_modulus(),
        decreases x@,
    {
        let ghost before = x@;
        x = x.sub(&m);
        proof {
            vstd::arithmetic::div_mod::lemma_mod_sub_multiples_vanish(
                before as int,
                field_modulus() as int,
            );
        }
    }
    proof {
        vstd::arithmetic::div_mod::lemma_small_mod(x@, field_modulus());
    }
    x
}

} // verus!
