//! The Groth16 verifier over BN254: from a verification key, a proof and its
//! public inputs, the inputs of the pairing equation
//! e(-A, B) * e(alpha, beta) * e(vk_x, gamma) * e(C, delta) == 1.
use vstd::prelude::*;
use soroban_sdk::Env;
use crate::crypto::{
    g1_add, g1_add_value, g1_mul, g1_mul_value, g1_neg, g1_neg_spec, g1_valid, g1_x, g1_y, g2_valid,
    pairing_check, pairing_holds, points,
};
use crate::groth16::{Groth16Error, Groth16Proof};
use crate::uint::U256;

verus! {

/// A Groth16 verification key: alpha in G1, beta, gamma and delta in G2, and
/// one G1 point per public input plus one for the constant term.
#[derive(Clone, Debug)]
pub struct VerificationKey {
    pub alpha: Vec<u8>,
    pub beta: Vec<u8>,
    pub gamma: Vec<u8>,
    pub delta: Vec<u8>,
    pub ic: Vec<Vec<u8>>,
}

/// The points of a multi-pairing check, paired index by index.
#[derive(Clone, Debug)]
pub struct PairingCheck {
    pub g1: Vec<Vec<u8>>,
    pub g2: Vec<Vec<u8>>,
}

/// `ic[0] + sum_{i < n} ic[i + 1] * inputs[i]`, folded left to right.
pub open spec fn vk_x_spec(ic: Seq<Seq<u8>>, inputs: Seq<U256>, n: nat) -> Seq<u8>
    decreases n,
{
    if n == 0 {
        ic[0]
    } else {
        g1_add_value(
            vk_x_spec(ic, inputs, (n - 1) as nat),
            g1_mul_value(ic[n as int], inputs[n - 1]@),
        )
    }
}

/// The sum, left to right, of `acc` and the points `terms`.
pub open spec fn g1_sum(acc: Seq<u8>, terms: Seq<Seq<u8>>) -> Seq<u8>
    decreases terms.len(),
{
    if terms.len() == 0 {
        acc
    } else {
        g1_add_value(g1_sum(acc, terms.drop_last()), terms.last())
    }
}

/// vk_x is the constant point `ic[0]` plus, for each public input `i`, the
/// key point `ic[i + 1]` multiplied by that input.
pub proof fn lemma_vk_x_pairs_input_with_next_point(ic: Seq<Seq<u8>>, inputs: Seq<U256>, n: nat)
    ensures
        vk_x_spec(ic, inputs, n) == g1_sum(
            ic[0],
            Seq::new(n, |i: int| g1_mul_value(ic[i + 1], inputs[i]@)),
        ),
    decreases n,
{
    let terms = Seq::new(n, |i: int| g1_mul_value(ic[i + 1], inputs[i]@));
    if n > 0 {
        lemma_vk_x_pairs_input_with_next_point(ic, inputs, (n - 1) as nat);
        assert(terms.drop_last() =~= Seq::new(
            (n - 1) as nat,
            |i: int| g1_mul_value(ic[i + 1], inputs[i]@),
        ));
        assert(terms.last() == g1_mul_value(ic[n as int], inputs[n - 1]@));
    }
}

/// With a single public input, vk_x is `ic[0] + ic[1] * inputs[0]`; with two,
/// `ic[0] + ic[1] * inputs[0] + ic[2] * inputs[1]`.
pub proof fn lemma_vk_x_first_inputs(ic: Seq<Seq<u8>>, inputs: Seq<U256>)
    ensures
        vk_x_spec(ic, inputs, 1) == g1_add_value(ic[0], g1_mul_value(ic[1], inputs[0]@)),
        vk_x_spec(ic, inputs, 2) == g1_add_value(
            g1_add_value(ic[0], g1_mul_value(ic[1], inputs[0]@)),
            g1_mul_value(ic[2], inputs[1]@),
        ),
{
    lemma_vk_x_pairs_input_with_next_point(ic, inputs, 1);
    lemma_vk_x_pairs_input_with_next_point(ic, inputs, 2);
    let t1 = Seq::new(1, |i: int| g1_mul_value(ic[i + 1], inputs[i]@));
    let t2 = Seq::new(2, |i: int| g1_mul_value(ic[i + 1], inputs[i]@));
    assert(t1.drop_last().len() == 0);
    assert(t2.drop_last() =~= t1);
    assert(g1_sum(ic[0], t1.drop_last()) == ic[0]);
}

/// The G1 points of a key are valid encodings.
pub open spec fn vk_g1_valid(vk: VerificationKey) -> bool {
    &&& g1_valid(vk.alpha@)
    &&& forall|i: int| 0 <= i < vk.ic@.len() ==> g1_valid(#[trigger] vk.ic@[i]@)
}

/// Groth16 verifier contract over BN254.
pub struct CircomGroth16Verifier;

impl CircomGroth16Verifier {
    /// Builds the pairing equation for `proof` on `pub_inputs` under `vk`:
    /// refuses inputs whose count does not match the key before touching any
    /// point; otherwise, on valid G1 encodings of the key and of A, folds the
    /// inputs into vk_x and pairs (-A, alpha, vk_x, C) with
    /// (B, beta, gamma, delta).
    pub fn prepare_pairing(
        env: &Env,
        vk: &VerificationKey,
        proof: &Groth16Proof,
        pub_inputs: &Vec<U256>,
    ) -> (r: Result<PairingCheck, Groth16Error>)
        requires
            pub_inputs@.len() + 1 == vk.ic@.len() ==> vk_g1_valid(*vk) && g1_valid(proof.a@),
        ensures
            pub_inputs@.len() + 1 != vk.ic@.len() ==> r == Err::<PairingCheck, Groth16Error>(
                Groth16Error::MalformedPublicInputs,
            ),
            pub_inputs@.len() + 1 == vk.ic@.len() ==> r is Ok,
            r matches Ok(pc) ==> {
                &&& pc.g1@.len() == 4
                &&& pc.g2@.len() == 4
                &&& g1_valid(pc.g1@[0]@)
                &&& pc.g1@[0]@ == g1_neg_spec(proof.a@)
                &&& g1_valid(pc.g1@[2]@)
                &&& g1_x(pc.g1@[0]@) == g1_x(proof.a@)
                &&& g1_y(pc.g1@[0]@) == (if g1_y(proof.a@) == 0 {
                    0
                } else {
                    crate::crypto::base_field_modulus() - g1_y(proof.a@)
                })
                &&& pc.g1@[1]@ == vk.alpha@
                &&& pc.g1@[2]@ == vk_x_spec(points(vk.ic@), pub_inputs@, pub_inputs@.len())
                &&& pc.g1@[2]@ == g1_sum(
                    vk.ic@[0]@,
                    Seq::new(
                        pub_inputs@.len(),
                        |i: int| g1_mul_value(vk.ic@[i + 1]@, pub_inputs@[i]@),
                    ),
                )
                &&& pc.g1@[3]@ == proof.c@
                &&& pc.g2@[0]@ == proof.b@
                &&& pc.g2@[1]@ == vk.beta@
                &&& pc.g2@[2]@ == vk.gamma@
                &&& pc.g2@[3]@ == vk.delta@
            },
    {
        let n = pub_inputs.len();
        let m = vk.ic.len();
        if n >= m || n + 1 != m {
            return Err(Groth16Error::MalformedPublicInputs);
        }
        let ghost ic = points(vk.ic@);
        proof {
            assert(g1_valid(vk.ic@[0]@));
        }
        let mut vk_x = vk.ic[0].clone();
        let mut i: usize = 0;
        while i < pub_inputs.len()
            invariant
                vk_g1_valid(*vk),
                ic == points(vk.ic@),
                pub_inputs@.len() + 1 == vk.ic@.len(),
                i <= pub_inputs@.len(),
                vk_x@ == vk_x_spec(ic, pub_inputs@, i as nat),
                g1_valid(vk_x@),
            decreases pub_inputs@.len() - i,
        {
            proof {
                assert(g1_valid(vk.ic@[i + 1]@));
            }
            let prod = g1_mul(env, &vk.ic[i + 1], &pub_inputs[i]);
            vk_x = g1_add(env, &vk_x, &prod);
            i = i + 1;
        }
        proof {
            lemma_vk_x_pairs_input_with_next_point(ic, pub_inputs@, pub_inputs@.len());
            assert(Seq::new(pub_inputs@.len(), |j: int| g1_mul_value(ic[j + 1], pub_inputs@[j]@))
                =~= Seq::new(
                pub_inputs@.len(),
                |j: int| g1_mul_value(vk.ic@[j + 1]@, pub_inputs@[j]@),
            ));
        }
        let neg_a = g1_neg(&proof.a);
        let mut g1: Vec<Vec<u8>> = Vec::new();
        g1.push(neg_a);
        g1.push(vk.alpha.clone());
        g1.push(vk_x);
        g1.push(proof.c.clone());
        let mut g2: Vec<Vec<u8>> = Vec::new();
        g2.push(proof.b.clone());
        g2.push(vk.beta.clone());
        g2.push(vk.gamma.clone());
        g2.push(vk.delta.clone());
        Ok(PairingCheck { g1, g2 })
    }

    /// Verifies `proof` on `pub_inputs` under `vk`: refuses inputs whose
    /// count does not match the key, otherwise answers `Ok(true)` exactly when
    /// e(-A, B) * e(alpha, beta) * e(vk_x, gamma) * e(C, delta) == 1 and
    /// `InvalidProof` otherwise.
    pub fn verify_with_vk(
        env: &Env,
        vk: &VerificationKey,
        proof: &Groth16Proof,
        pub_inputs: &Vec<U256>,
    ) -> (r: Result<bool, Groth16Error>)
        requires
            pub_inputs@.len() + 1 == vk.ic@.len() ==> {
                &&& vk_g1_valid(*vk)
                &&& g1_valid(proof.a@)
                &&& g1_valid(proof.c@)
                &&& g2_valid(proof.b@)
                &&& g2_valid(vk.beta@)
                &&& g2_valid(vk.gamma@)
                &&& g2_valid(vk.delta@)
            },
        ensures
            pub_inputs@.len() + 1 != vk.ic@.len() ==> r == Err::<bool, Groth16Error>(
                Groth16Error::MalformedPublicInputs,
            ),
            pub_inputs@.len() + 1 == vk.ic@.len() ==> r == (if pairing_holds(
                seq![
                    g1_neg_spec(proof.a@),
                    vk.alpha@,
                    vk_x_spec(points(vk.ic@), pub_inputs@, pub_inputs@.len()),
                    proof.c@,
                ],
                seq![proof.b@, vk.beta@, vk.gamma@, vk.delta@],
            ) {
                Ok::<bool, Groth16Error>(true)
            } else {
                Err(Groth16Error::InvalidProof)
            }),
            pub_inputs@.len() + 1 == vk.ic@.len() ==> r == (if pairing_holds(
                seq![
                    g1_neg_spec(proof.a@),
                    vk.alpha@,
                    g1_sum(
                        vk.ic@[0]@,
                        Seq::new(
                            pub_inputs@.len(),
                            |i: int| g1_mul_value(vk.ic@[i + 1]@, pub_inputs@[i]@),
                        ),
                    ),
                    proof.c@,
                ],
                seq![proof.b@, vk.beta@, vk.gamma@, vk.delta@],
            ) {
                Ok::<bool, Groth16Error>(true)
            } else {
                Err(Groth16Error::InvalidProof)
            }),
    {
        let pc = match Self::prepare_pairing(env, vk, proof, pub_inputs) {
            Ok(pc) => pc,
            Err(e) => {
                return Err(e);
            },
        };
        proof {
            assert(points(pc.g1@) =~= seq![
                g1_neg_spec(proof.a@),
                vk.alpha@,
                vk_x_spec(points(vk.ic@), pub_inputs@, pub_inputs@.len()),
                proof.c@,
            ]);
            assert(points(pc.g2@) =~= seq![proof.b@, vk.beta@, vk.gamma@, vk.delta@]);
            assert forall|i: int| 0 <= i < pc.g1@.len() implies g1_valid(#[trigger] pc.g1@[i]@) by {
                if i == 1 {
                    assert(g1_valid(vk.alpha@));
                }
            }
            assert forall|i: int| 0 <= i < pc.g2@.len() implies g2_valid(#[trigger] pc.g2@[i]@) by {
            }
        }
        let holds = pairing_check(env, &pc.g1, &pc.g2);
        Self::verdict(holds)
    }

    /// The verifier's answer once the pairing equation has been evaluated:
    /// `Ok(true)` when it holds, `InvalidProof` when it does not.
    pub fn verdict(pairing_holds: bool) -> (r: Result<bool, Groth16Error>)
        ensures
            r == (if pairing_holds {
                Ok::<bool, Groth16Error>(true)
            } else {
                Err(Groth16Error::InvalidProof)
            }),
    {
        if pairing_holds {
            Ok(true)
        } else {
            Err(Groth16Error::InvalidProof)
        }
    }
}

} // verus!
