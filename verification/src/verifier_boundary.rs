//! The public inputs of the policy transaction circuit, in the order the
//! verifier expects them.
use vstd::prelude::*;
use crate::types::Proof;
use crate::uint::{lemma_u256_of_view, u256_of, U256};
use crate::field::{field_modulus, reduce_mod_field};

verus! {

/// The public inputs handed to the verifier, as field elements.
#[derive(Clone, Debug)]
pub struct VerifierPublicInputs {
    pub values: Vec<U256>,
}

/// The public input order: the pool root, the public amount, the external
/// data hash, the input nullifiers in proof order, the two output
/// commitments, then the allowlist root once per input nullifier.
pub open spec fn raw_public_inputs_spec(proof: Proof) -> Seq<U256> {
    let ns = proof.input_nullifiers@;
    seq![proof.root, proof.public_amount, proof.ext_data_hash] + ns + seq![
        proof.output_commitment0,
        proof.output_commitment1,
    ] + Seq::new(ns.len(), |i: int| proof.asp_membership_root)
}

/// `v` as a field element: reduced modulo the field order.
pub open spec fn field_value(v: U256) -> U256 {
    u256_of(v@ % field_modulus())
}

/// The public inputs in circuit order, each reduced into the field as the
/// verifier's scalar type reduces it.
pub open spec fn public_inputs_spec(proof: Proof) -> Seq<U256> {
    raw_public_inputs_spec(proof).map_values(|v: U256| field_value(v))
}

impl VerifierPublicInputs {
    /// Lays out `proof`'s public inputs in circuit order.
    pub fn from_proof(proof: &Proof) -> (r: VerifierPublicInputs)
        ensures
            r.values@ == public_inputs_spec(*proof),
    {
        let ns = &proof.input_nullifiers;
        let mut values: Vec<U256> = Vec::new();
        values.push(proof.root);
        values.push(proof.public_amount);
        values.push(proof.ext_data_hash);
        let ghost head = values@;
        let mut i: usize = 0;
        while i < ns.len()
            invariant
                i <= ns@.len(),
                head == seq![proof.root, proof.public_amount, proof.ext_data_hash],
                values@ == head + ns@.subrange(0, i as int),
            decreases ns@.len() - i,
        {
            values.push(ns[i]);
            i = i + 1;
            proof {
                assert(values@ =~= head + ns@.subrange(0, i as int));
            }
        }
        proof {
            assert(ns@.subrange(0, ns@.len() as int) =~= ns@);
        }
        values.push(proof.output_commitment0);
        values.push(proof.output_commitment1);
        let ghost mid = values@;
        let mut j: usize = 0;
        while j < ns.len()
            invariant
                j <= ns@.len(),
                values@ == mid + Seq::new(j as nat, |k: int| proof.asp_membership_root),
            decreases ns@.len() - j,
        {
            values.push(proof.asp_membership_root);
            j = j + 1;
            proof {
                assert(values@ =~= mid + Seq::new(j as nat, |k: int| proof.asp_membership_root));
            }
        }
        proof {
            assert(values@ =~= raw_public_inputs_spec(*proof));
        }
        let mut reduced: Vec<U256> = Vec::new();
        let mut i: usize = 0;
        while i < values.len()
            invariant
                i <= values@.len(),
                values@ == raw_public_inputs_spec(*proof),
                reduced@.len() == i,
                forall|k: int| 0 <= k < i ==> #[trigger] reduced@[k] == field_value(values@[k]),
            decreases values@.len() - i,
        {
            let r = reduce_mod_field(values[i]);
            proof {
                lemma_u256_of_view(r);
            }
            reduced.push(r);
            i = i + 1;
        }
        proof {
            assert(reduced@ =~= public_inputs_spec(*proof));
        }
        VerifierPublicInputs { values: reduced }
    }
}

/// For two input notes there are nine public inputs, the count the circuit
/// declares.
pub proof fn lemma_two_inputs_give_nine(proof: Proof)
    requires
        proof.input_nullifiers@.len() == 2,
    ensures
        public_inputs_spec(proof).len() == 9,
{
}

} // verus!
