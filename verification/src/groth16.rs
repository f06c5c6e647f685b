//! Groth16 proofs over BN254 in the byte layout of the ledger's BN254 host
//! functions (A in G1, B in G2, C in G1), and the demo verifier that accepts
//! one fixed proof.
use vstd::prelude::*;
use crate::uint::U256;

verus! {

/// Bytes of an uncompressed G1 point.
pub const G1_SIZE: usize = 64;

/// Bytes of an uncompressed G2 point.
pub const G2_SIZE: usize = 128;

/// Bytes of a serialised proof: A, then B, then C.
pub const PROOF_SIZE: usize = 256;

/// Public inputs of the two-input, two-output policy transaction.
pub const MOCK_POLICY_PUBLIC_INPUTS: u32 = 9;

/// Verification failures.
#[derive(Clone, Copy, Debug, PartialEq, Eq, Structural)]
pub enum Groth16Error {
    InvalidProof,
    MalformedPublicInputs,
    MalformedProof,
}

/// A Groth16 proof: the points A (G1), B (G2) and C (G1), each as its
/// uncompressed big-endian encoding.
#[derive(Clone, Debug)]
pub struct Groth16Proof {
    pub a: Vec<u8>,
    pub b: Vec<u8>,
    pub c: Vec<u8>,
}

/// Every byte of `s` is zero.
pub open spec fn all_zero(s: Seq<u8>) -> bool {
    forall|i: int| 0 <= i < s.len() ==> s[i] == 0
}

/// The point sizes are right.
pub open spec fn proof_well_sized(p: Groth16Proof) -> bool {
    p.a@.len() == G1_SIZE && p.b@.len() == G2_SIZE && p.c@.len() == G1_SIZE
}

/// A proof whose three points are all zero bytes carries nothing.
pub open spec fn proof_empty(p: Groth16Proof) -> bool {
    all_zero(p.a@) && all_zero(p.b@) && all_zero(p.c@)
}

/// Whether every byte of `s` is zero.
pub fn bytes_all_zero(s: &Vec<u8>) -> (r: bool)
    ensures
        r == all_zero(s@),
{
    let mut i: usize = 0;
    while i < s.len()
        invariant
            i <= s@.len(),
            forall|j: int| 0 <= j < i ==> s@[j] == 0,
        decreases s@.len() - i,
    {
        if s[i] != 0 {
            return false;
        }
        i = i + 1;
    }
    true
}

/// Whether `a` and `b` hold the same bytes.
pub fn bytes_eq(a: &Vec<u8>, b: &Vec<u8>) -> (r: bool)
    ensures
        r == (a@ == b@),
{
    if a.len() != b.len() {
        return false;
    }
    let mut i: usize = 0;
    while i < a.len()
        invariant
            a@.len() == b@.len(),
            i <= a@.len(),
            forall|j: int| 0 <= j < i ==> a@[j] == b@[j],
        decreases a@.len() - i,
    {
        if a[i] != b[i] {
            return false;
        }
        i = i + 1;
    }
    proof {
        assert(a@ =~= b@);
    }
    true
}

/// Copies `s[from..to]`.
pub fn copy_range(s: &Vec<u8>, from: usize, to: usize) -> (r: Vec<u8>)
    requires
        from <= to <= s@.len(),
    ensures
        r@ == s@.subrange(from as int, to as int),
{
    let mut out: Vec<u8> = Vec::new();
    let mut i = from;
    while i < to
        invariant
            from <= i <= to <= s@.len(),
            out@ == s@.subrange(from as int, i as int),
        decreases to - i,
    {
        out.push(s[i]);
        i = i + 1;
        proof {
            assert(out@ =~= s@.subrange(from as int, i as int));
        }
    }
    out
}

/// Appends `src` to `dst`.
pub fn append_bytes(dst: &mut Vec<u8>, src: &Vec<u8>)
    ensures
        final(dst)@ == old(dst)@ + src@,
{
    let mut i: usize = 0;
    while i < src.len()
        invariant
            i <= src@.len(),
            dst@ == old(dst)@ + src@.subrange(0, i as int),
        decreases src@.len() - i,
    {
        dst.push(src[i]);
        i = i + 1;
        proof {
            assert(dst@ =~= old(dst)@ + src@.subrange(0, i as int));
        }
    }
    proof {
        assert(src@.subrange(0, src@.len() as int) =~= src@);
    }
}

impl Groth16Proof {
    /// Whether the proof carries nothing: all three points are zero bytes.
    pub fn is_empty(&self) -> (r: bool)
        ensures
            r == proof_empty(*self),
    {
        bytes_all_zero(&self.a) && bytes_all_zero(&self.b) && bytes_all_zero(&self.c)
    }

    /// Splits a serialised proof into its points; anything but exactly
    /// `PROOF_SIZE` bytes is malformed.
    pub fn try_from_bytes(bytes: &Vec<u8>) -> (r: Result<Groth16Proof, Groth16Error>)
        ensures
            r is Ok <==> bytes@.len() == PROOF_SIZE,
            r is Err ==> r == Err::<Groth16Proof, Groth16Error>(Groth16Error::MalformedProof),
            r matches Ok(p) ==> {
                &&& p.a@ == bytes@.subrange(0, 64)
                &&& p.b@ == bytes@.subrange(64, 192)
                &&& p.c@ == bytes@.subrange(192, 256)
            },
    {
        if bytes.len() != PROOF_SIZE {
            return Err(Groth16Error::MalformedProof);
        }
        let a = copy_range(bytes, 0, 64);
        let b = copy_range(bytes, 64, 192);
        let c = copy_range(bytes, 192, 256);
        Ok(Groth16Proof { a, b, c })
    }

    /// The serialised proof: A, then B, then C.
    pub fn to_bytes(&self) -> (r: Vec<u8>)
        ensures
            r@ == self.a@ + self.b@ + self.c@,
    {
        let mut out: Vec<u8> = Vec::new();
        append_bytes(&mut out, &self.a);
        append_bytes(&mut out, &self.b);
        append_bytes(&mut out, &self.c);
        proof {
            assert(out@ =~= self.a@ + self.b@ + self.c@);
        }
        out
    }
}

/// Serialising and parsing a proof gives back its points.
pub proof fn lemma_proof_bytes_round_trip(p: Groth16Proof)
    requires
        proof_well_sized(p),
    ensures
        ({
            let bytes = p.a@ + p.b@ + p.c@;
            &&& bytes.len() == PROOF_SIZE
            &&& bytes.subrange(0, 64) == p.a@
            &&& bytes.subrange(64, 192) == p.b@
            &&& bytes.subrange(192, 256) == p.c@
        }),
{
    let bytes = p.a@ + p.b@ + p.c@;
    assert(bytes.subrange(0, 64) =~= p.a@);
    assert(bytes.subrange(64, 192) =~= p.b@);
    assert(bytes.subrange(192, 256) =~= p.c@);
}

/// The G1 point of the demo proof: x = 1, y = 2.
pub open spec fn mock_g1_spec() -> Seq<u8> {
    Seq::new(64, |i: int| if i == 31 { 1u8 } else if i == 63 { 2u8 } else { 0u8 })
}

/// The G2 point of the demo proof: every coordinate limb is 1.
pub open spec fn mock_g2_spec() -> Seq<u8> {
    Seq::new(128, |i: int| if i == 31 || i == 63 || i == 95 || i == 127 { 1u8 } else { 0u8 })
}

fn mock_g1_bytes() -> (r: Vec<u8>)
    ensures
        r@ == mock_g1_spec(),
{
    let mut v: Vec<u8> = Vec::new();
    let mut i: usize = 0;
    while i < 64
        invariant
            i <= 64,
            v@.len() == i,
            forall|j: int| 0 <= j < i ==> v@[j] == mock_g1_spec()[j],
        decreases 64 - i,
    {
        let b: u8 = if i == 31 {
            1
        } else if i == 63 {
            2
        } else {
            0
        };
        v.push(b);
        i = i + 1;
    }
    proof {
        assert(v@ =~= mock_g1_spec());
    }
    v
}

fn mock_g2_bytes() -> (r: Vec<u8>)
    ensures
        r@ == mock_g2_spec(),
{
    let mut v: Vec<u8> = Vec::new();
    let mut i: usize = 0;
    while i < 128
        invariant
            i <= 128,
            v@.len() == i,
            forall|j: int| 0 <= j < i ==> v@[j] == mock_g2_spec()[j],
        decreases 128 - i,
    {
        let b: u8 = if i == 31 || i == 63 || i == 95 || i == 127 {
            1
        } else {
            0
        };
        v.push(b);
        i = i + 1;
    }
    proof {
        assert(v@ =~= mock_g2_spec());
    }
    v
}

/// The one proof the demo verifier accepts.
pub open spec fn is_mock_proof(p: Groth16Proof) -> bool {
    p.a@ == mock_g1_spec() && p.b@ == mock_g2_spec() && p.c@ == mock_g1_spec()
}

/// Builds the deterministic proof accepted by the demo verifier.
pub fn mock_proof() -> (r: Groth16Proof)
    ensures
        is_mock_proof(r),
        proof_well_sized(r),
{
    Groth16Proof { a: mock_g1_bytes(), b: mock_g2_bytes(), c: mock_g1_bytes() }
}

/// The demo verifier: checks the public input count and that the proof is
/// the fixed demo proof. It performs no Groth16 verification.
pub fn verify_mock_policy_transaction(proof: &Groth16Proof, public_inputs: &Vec<U256>) -> (r: Result<
    bool,
    Groth16Error,
>)
    ensures
        r == (if public_inputs@.len() != MOCK_POLICY_PUBLIC_INPUTS {
            Err(Groth16Error::MalformedPublicInputs)
        } else if proof_empty(*proof) {
            Err(Groth16Error::MalformedProof)
        } else if !is_mock_proof(*proof) {
            Err(Groth16Error::InvalidProof)
        } else {
            Ok(true)
        }),
{
    if public_inputs.len() != MOCK_POLICY_PUBLIC_INPUTS as usize {
        return Err(Groth16Error::MalformedPublicInputs);
    }
    if proof.is_empty() {
        return Err(Groth16Error::MalformedProof);
    }
    let expected = mock_proof();
    if !bytes_eq(&proof.a, &expected.a) || !bytes_eq(&proof.b, &expected.b) || !bytes_eq(
        &proof.c,
        &expected.c,
    ) {
        return Err(Groth16Error::InvalidProof);
    }
    Ok(true)
}

/// The demo verifier contract, with the real verifier's `verify` API.
pub struct MockGroth16Verifier;

impl MockGroth16Verifier {
    /// Accepts the demo proof with the policy transaction's public input
    /// count, refuses anything else.
    pub fn verify(proof: Groth16Proof, public_inputs: Vec<U256>) -> (r: Result<bool, Groth16Error>)
        ensures
            r == (if public_inputs@.len() != MOCK_POLICY_PUBLIC_INPUTS {
                Err(Groth16Error::MalformedPublicInputs)
            } else if proof_empty(proof) {
                Err(Groth16Error::MalformedProof)
            } else if !is_mock_proof(proof) {
                Err(Groth16Error::InvalidProof)
            } else {
                Ok(true)
            }),
    {
        verify_mock_policy_transaction(&proof, &public_inputs)
    }
}

} // verus!
