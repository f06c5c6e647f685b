//! The proof fixture: a Groth16 proof with its public inputs and the values a
//! pool and an allowlist must hold for the proof to settle, and the byte
//! encodings those values travel in.
use vstd::prelude::*;
use crate::uint::U256;
use crate::bytes::{be_value, u256_to_be_bytes, u256_from_be_bytes};
use crate::field::{field_modulus, reduce_mod_field};
use crate::groth16::{Groth16Proof, proof_well_sized, G1_SIZE, G2_SIZE};
use crate::fixture_tree::FixtureError;
use crate::policy_inputs::PolicyInputs;

verus! {

/// `p` is a leading part of `s`.
pub open spec fn is_prefix_of(p: Seq<char>, s: Seq<char>) -> bool {
    p.len() <= s.len() && p == s.subrange(0, p.len() as int)
}

/// A path whose components read the same on every platform: not empty, no
/// trailing or doubled `/`, no `\\` or `:`, and no `.` component.
pub open spec fn plain_path(s: Seq<char>) -> bool {
    &&& s.len() > 0
    &&& s.last() != '/'
    &&& forall|i: int| 0 <= i < s.len() ==> #[trigger] s[i] != '\\' && s[i] != ':'
    &&& forall|i: int| 0 <= i < s.len() - 1 ==> !(#[trigger] s[i] == '/' && s[i + 1] == '/')
    &&& forall|i: int|
        0 <= i < s.len() && #[trigger] s[i] == '.' ==> !((i == 0 || s[i - 1] == '/') && (i + 1
            == s.len() || s[i + 1] == '/'))
}

/// Position of the last `/` of `s`, or -1.
pub open spec fn last_slash(s: Seq<char>) -> int
    decreases s.len(),
{
    if s.len() == 0 {
        -1
    } else if s.last() == '/' {
        s.len() - 1
    } else {
        last_slash(s.drop_last())
    }
}

/// The parent of a plain path: everything before its last `/`; the root
/// `/` when that `/` leads the path; the empty path when there is none.
pub open spec fn parent_path(s: Seq<char>) -> Seq<char> {
    let k = last_slash(s);
    if k < 0 {
        Seq::empty()
    } else if k == 0 {
        seq!['/']
    } else {
        s.subrange(0, k)
    }
}

/// `std::path::Path::parent` on a UTF-8 path. The parent of a plain path is
/// the path without its last component (the standard library slices it out
/// of the path it was given); the empty path and the root `/` have none.
/// Of a path with doubled or trailing separators, `.` components, or
/// platform prefixes and separators, only that a parent is a leading part of
/// the path is stated: how such paths split depends on the platform.
#[verifier::external_body]
fn path_parent(path: &str) -> (r: Option<String>)
    ensures
        r matches Some(p) ==> is_prefix_of(p@, path@),
        r matches Some(p) ==> (plain_path(path@) ==> p@ == parent_path(path@)),
        r is Some <== plain_path(path@),
        path@.len() == 0 || path@ == seq!['/'] ==> r == None::<String>,
{
    match std::path::Path::new(path).parent() {
        Some(p) => Some(p.to_string_lossy().into_owned()),
        None => None,
    }
}

/// `s[..k]` for `0 <= k <= s.len()`, with `k` the last `/`.
proof fn lemma_last_slash(s: Seq<char>)
    ensures
        -1 <= last_slash(s) < s.len(),
        last_slash(s) >= 0 ==> s[last_slash(s)] == '/',
        forall|i: int| last_slash(s) < i < s.len() ==> s[i] != '/',
    decreases s.len(),
{
    if s.len() > 0 && s.last() != '/' {
        let d = s.drop_last();
        lemma_last_slash(d);
        assert forall|i: int| last_slash(s) < i < s.len() implies s[i] != '/' by {
            if i < s.len() - 1 {
                assert(s[i] == d[i]);
            }
        }
    }
}

/// The parent of a plain path is the empty path, the root, or plain.
proof fn lemma_parent_plain(s: Seq<char>)
    requires
        plain_path(s),
    ensures
        parent_path(s).len() == 0 || parent_path(s) == seq!['/'] || plain_path(parent_path(s)),
        is_prefix_of(parent_path(s), s),
{
    lemma_last_slash(s);
    let k = last_slash(s);
    if k > 0 {
        let p = s.subrange(0, k);
        assert(p.last() == s[k - 1]);
        assert(s[k - 1] != '/');
        assert forall|i: int| 0 <= i < p.len() implies #[trigger] p[i] != '\\' && p[i] != ':' by {
            assert(p[i] == s[i]);
        }
        assert forall|i: int| 0 <= i < p.len() - 1 implies !(#[trigger] p[i] == '/' && p[i + 1]
            == '/') by {
            assert(p[i] == s[i] && p[i + 1] == s[i + 1]);
        }
        assert forall|i: int|
            0 <= i < p.len() && #[trigger] p[i] == '.' implies !((i == 0 || p[i - 1] == '/') && (i
                + 1 == p.len() || p[i + 1] == '/')) by {
            assert(p[i] == s[i]);
            assert(s[i] == '.');
            if i > 0 {
                assert(p[i - 1] == s[i - 1]);
            }
            if i + 1 < p.len() {
                assert(p[i + 1] == s[i + 1]);
            }
        }
        assert(plain_path(p));
    } else if k == 0 {
        assert(seq!['/'] =~= s.subrange(0, 1));
    } else {
        assert(Seq::<char>::empty() =~= s.subrange(0, 0));
    }
}

/// The repository root: two directories above the fixture tool's manifest
/// directory. For a plain manifest path with at least two components above
/// it, the result is the path with its last two components removed; a path
/// with fewer ancestors is refused.
pub fn repo_root(manifest_dir: &str) -> (r: Result<String, FixtureError>)
    ensures
        r matches Ok(root) ==> is_prefix_of(root@, manifest_dir@),
        r matches Err(e) ==> e == FixtureError::MissingParent,
        plain_path(manifest_dir@) && plain_path(parent_path(manifest_dir@)) ==> (r matches Ok(
            root,
        ) && root@ == parent_path(parent_path(manifest_dir@))),
        plain_path(manifest_dir@) && !plain_path(parent_path(manifest_dir@)) ==> r is Err,
        manifest_dir@.len() == 0 ==> r is Err,
{
    let tools_dir = match path_parent(manifest_dir) {
        Some(p) => p,
        None => {
            return Err(FixtureError::MissingParent);
        },
    };
    proof {
        if plain_path(manifest_dir@) {
            lemma_parent_plain(manifest_dir@);
        }
    }
    let root = match path_parent(tools_dir.as_str()) {
        Some(p) => p,
        None => {
            return Err(FixtureError::MissingParent);
        },
    };
    proof {
        assert(root@ =~= manifest_dir@.subrange(0, root@.len() as int));
    }
    Ok(root)
}

/// The 32 big-endian bytes of a value in a fixed-size array.
pub fn to_be_array(v: &U256) -> (r: [u8; 32])
    ensures
        r@.len() == 32,
        be_value(r@) == v@,
{
    let bytes = u256_to_be_bytes(v);
    let mut out = [0u8; 32];
    let mut i: usize = 0;
    while i < 32
        invariant
            i <= 32,
            bytes@.len() == 32,
            out@.len() == 32,
            forall|j: int| 0 <= j < i ==> out@[j] == bytes@[j],
        decreases 32 - i,
    {
        out[i] = bytes[i];
        i = i + 1;
    }
    proof {
        assert(out@ =~= bytes@);
    }
    out
}

/// The value of 32 big-endian bytes held in a fixed-size array.
pub fn from_be_array(bytes: &[u8; 32]) -> (r: U256)
    ensures
        r@ == be_value(bytes@),
{
    let mut v: Vec<u8> = Vec::new();
    let mut i: usize = 0;
    while i < 32
        invariant
            i <= 32,
            bytes@.len() == 32,
            v@ == bytes@.subrange(0, i as int),
        decreases 32 - i,
    {
        v.push(bytes[i]);
        i = i + 1;
        proof {
            assert(v@ =~= bytes@.subrange(0, i as int));
        }
    }
    proof {
        assert(v@ =~= bytes@);
    }
    u256_from_be_bytes(&v)
}

/// Reads a big-endian 32-byte value as a field element, reducing it modulo
/// the field order.
pub fn scalar_from_be_bytes(bytes: &[u8; 32]) -> (r: U256)
    ensures
        r@ == be_value(bytes@) % field_modulus(),
{
    let v = from_be_array(bytes);
    reduce_mod_field(v)
}

/// The big-endian 32-byte encoding of a field element.
pub fn fr_to_be_bytes(value: &U256) -> (r: [u8; 32])
    ensures
        r@.len() == 32,
        be_value(r@) == value@,
{
    to_be_array(value)
}

/// Each public input as a 32-byte big-endian field element, in order: the
/// form the on-chain verifier consumes.
pub fn public_input_be_bytes(public_inputs: &[U256]) -> (r: Vec<[u8; 32]>)
    ensures
        r@.len() == public_inputs@.len(),
        forall|i: int|
            0 <= i < r@.len() ==> (#[trigger] r@[i])@.len() == 32 && be_value(r@[i]@)
                == public_inputs@[i]@,
{
    let mut out: Vec<[u8; 32]> = Vec::new();
    let mut i: usize = 0;
    while i < public_inputs.len()
        invariant
            i <= public_inputs@.len(),
            out@.len() == i,
            forall|j: int|
                0 <= j < i ==> (#[trigger] out@[j])@.len() == 32 && be_value(out@[j]@)
                    == public_inputs@[j]@,
        decreases public_inputs@.len() - i,
    {
        let b = fr_to_be_bytes(&public_inputs[i]);
        out.push(b);
        i = i + 1;
    }
    out
}

/// Copies `len` bytes of `s` starting at `from` into an array of `N` bytes.
fn slice_to_array<const N: usize>(s: &Vec<u8>, from: usize) -> (r: [u8; N])
    requires
        from + N <= s@.len(),
    ensures
        r@ == s@.subrange(from as int, from + N),
{
    let n = s.len();
    let mut out = [0u8; N];
    let mut i: usize = 0;
    while i < N
        invariant
            n == s@.len(),
            i <= N,
            from + N <= s@.len(),
            out@.len() == N,
            forall|j: int| 0 <= j < i ==> out@[j] == s@[from + j],
        decreases N - i,
    {
        out[i] = s[from + i];
        i = i + 1;
    }
    proof {
        assert(out@ =~= s@.subrange(from as int, from + N));
    }
    out
}

/// The proof points in the verifier's byte layout: A (G1, 64 bytes), B (G2,
/// 128 bytes), C (G1, 64 bytes).
pub fn proof_soroban_parts(proof: &Groth16Proof) -> (r: ([u8; 64], [u8; 128], [u8; 64]))
    requires
        proof_well_sized(*proof),
    ensures
        r.0@ == proof.a@,
        r.1@ == proof.b@,
        r.2@ == proof.c@,
{
    let a: [u8; 64] = slice_to_array(&proof.a, 0);
    let b: [u8; 128] = slice_to_array(&proof.b, 0);
    let c: [u8; 64] = slice_to_array(&proof.c, 0);
    proof {
        assert(proof.a@.subrange(0, 64) =~= proof.a@);
        assert(proof.b@.subrange(0, 128) =~= proof.b@);
        assert(proof.c@.subrange(0, 64) =~= proof.c@);
    }
    (a, b, c)
}

/// Public inputs of the two-input, two-output policy circuit.
pub const POLICY_PUBLIC_INPUTS: usize = 9;

/// A generated policy-transaction fixture: the Groth16 proof, its public
/// inputs in circuit order, and the values the circuit was fed.
pub struct Fixture {
    /// The proof, in the verifier's byte layout.
    pub proof: Groth16Proof,
    /// The public inputs, in circuit order.
    pub public_inputs: Vec<U256>,
    policy_inputs: PolicyInputs,
}

impl Fixture {
    /// The values the circuit was fed.
    pub closed spec fn inputs_spec(&self) -> PolicyInputs {
        self.policy_inputs
    }

    /// The proof.
    pub closed spec fn proof_spec(&self) -> Groth16Proof {
        self.proof
    }

    /// The public inputs, in circuit order.
    pub closed spec fn public_inputs_spec(&self) -> Seq<U256> {
        self.public_inputs@
    }

    /// Assembles a fixture from a proof and the public inputs the circuit
    /// exposed; a circuit that exposed another number of public inputs than
    /// the policy circuit's is refused.
    pub fn from_parts(
        proof: Groth16Proof,
        public_inputs: Vec<U256>,
        policy_inputs: PolicyInputs,
    ) -> (r: Result<Fixture, FixtureError>)
        ensures
            public_inputs@.len() != POLICY_PUBLIC_INPUTS ==> r == Err::<Fixture, FixtureError>(
                FixtureError::PublicInputCount,
            ),
            public_inputs@.len() == POLICY_PUBLIC_INPUTS ==> (r matches Ok(f) && f.proof_spec() == proof
                && f.public_inputs_spec() == public_inputs@ && f.inputs_spec() == policy_inputs),
    {
        if public_inputs.len() != POLICY_PUBLIC_INPUTS {
            return Err(FixtureError::PublicInputCount);
        }
        Ok(Fixture { proof, public_inputs, policy_inputs })
    }

    /// The values the circuit was fed.
    pub fn policy_inputs(&self) -> (r: &PolicyInputs)
        ensures
            *r == self.inputs_spec(),
    {
        &self.policy_inputs
    }

    /// Commitments of the input notes, in pool leaf order. Depositing these
    /// in order rebuilds the pool tree the proof was generated against.
    pub fn input_commitments(&self) -> (r: &[[u8; 32]])
        ensures
            r@ == self.inputs_spec().input_commitments@,
    {
        self.policy_inputs.input_commitments.as_slice()
    }

    /// Allowlist leaves, in enrolment order. Inserting these in order
    /// reproduces the allowlist root the proof was generated against.
    pub fn membership_leaves(&self) -> (r: &[[u8; 32]])
        ensures
            r@ == self.inputs_spec().membership_leaves@,
    {
        self.policy_inputs.membership_leaves.as_slice()
    }

    /// The public inputs in circuit order, big-endian encoded.
    pub fn public_inputs_be(&self) -> (r: Vec<[u8; 32]>)
        ensures
            r@.len() == self.public_inputs_spec().len(),
            forall|i: int|
                0 <= i < r@.len() ==> (#[trigger] r@[i])@.len() == 32 && be_value(r@[i]@)
                    == self.public_inputs_spec()[i]@,
    {
        public_input_be_bytes(self.public_inputs.as_slice())
    }

    /// The proof in the byte layout the verifier expects: A, then B, then C.
    pub fn proof_bytes(&self) -> (r: Vec<u8>)
        ensures
            r@ == self.proof_spec().a@ + self.proof_spec().b@ + self.proof_spec().c@,
    {
        self.proof.to_bytes()
    }
}

} // verus!
