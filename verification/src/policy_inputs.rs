//! The deterministic policy transaction behind the proof fixture: two input
//! notes spent from a pool tree, two output notes, and the allowlist tree
//! that enrols both spenders. Every value the circuit is fed is computed
//! here from the note constants and the hash functions.
use vstd::prelude::*;
use crate::uint::U256;
use crate::merkle::{hasher_ok, tree_root, width, empty_leaf, empty_leaf_spec};
use crate::bytes::be_value;
use crate::fixture::fr_to_be_bytes;
use crate::poseidon2::{poseidon2_hash2, poseidon2_hash2_spec};
use crate::fixture_tree::{
    FixtureError, leaf_count, merkle_root, merkle_proof, path_ok, depth, lemma_depth_width,
    is_pow_two,
};

verus! {

/// Height of the pool tree and the allowlist tree the circuit proves against.
pub const LEVELS: usize = 10;

/// A three-to-one hash with a domain separator, `(a, b, c, domain)`, that
/// can be called on anything and is a function of its arguments.
pub open spec fn hash3_ok<H: Fn(U256, U256, U256, U256) -> U256>(h: &H) -> bool {
    &&& forall|a: U256, b: U256, c: U256, d: U256| #[trigger] h.requires((a, b, c, d))
    &&& forall|a: U256, b: U256, c: U256, d: U256, x: U256, y: U256|
        #[trigger] h.ensures((a, b, c, d), x) && #[trigger] h.ensures((a, b, c, d), y) ==> x
            == y
}

/// What the three-to-one hash returns.
pub open spec fn hash3_of<H: Fn(U256, U256, U256, U256) -> U256>(
    h: &H,
    a: U256,
    b: U256,
    c: U256,
    d: U256,
) -> U256 {
    choose|o: U256| h.ensures((a, b, c, d), o)
}

/// The small value `v`.
pub open spec fn small(v: u128) -> U256 {
    U256 { hi: 0, lo: v }
}

/// A note the fixture transaction spends.
#[derive(Clone, Copy, Debug)]
pub struct InputNote {
    pub leaf_index: usize,
    pub private_key: U256,
    pub blinding: U256,
    pub amount: U256,
}

/// A note the fixture transaction creates.
#[derive(Clone, Copy, Debug)]
pub struct OutputNote {
    pub public_key: U256,
    pub blinding: U256,
    pub amount: U256,
}

/// The spent notes. Deposits insert commitments in two-leaf batches, so a
/// deposited commitment always lands on an even leaf: the second note sits
/// on leaf 2, which two deposits reproduce.
pub open spec fn input_notes_spec() -> Seq<InputNote> {
    seq![
        InputNote { leaf_index: 0, private_key: small(101), blinding: small(201), amount: small(0) },
        InputNote { leaf_index: 2, private_key: small(102), blinding: small(211), amount: small(13) },
    ]
}

/// The created notes.
pub open spec fn output_notes_spec() -> Seq<OutputNote> {
    seq![
        OutputNote { public_key: small(501), blinding: small(601), amount: small(13) },
        OutputNote { public_key: small(502), blinding: small(602), amount: small(0) },
    ]
}

/// The spent notes.
pub fn input_notes() -> (r: Vec<InputNote>)
    ensures
        r@ == input_notes_spec(),
{
    let v = vec![
        InputNote {
            leaf_index: 0,
            private_key: U256::from_u128(101),
            blinding: U256::from_u128(201),
            amount: U256::from_u128(0),
        },
        InputNote {
            leaf_index: 2,
            private_key: U256::from_u128(102),
            blinding: U256::from_u128(211),
            amount: U256::from_u128(13),
        },
    ];
    proof {
        assert(v@ =~= input_notes_spec());
    }
    v
}

/// The created notes.
pub fn output_notes() -> (r: Vec<OutputNote>)
    ensures
        r@ == output_notes_spec(),
{
    let v = vec![
        OutputNote {
            public_key: U256::from_u128(501),
            blinding: U256::from_u128(601),
            amount: U256::from_u128(13),
        },
        OutputNote {
            public_key: U256::from_u128(502),
            blinding: U256::from_u128(602),
            amount: U256::from_u128(0),
        },
    ];
    proof {
        assert(v@ =~= output_notes_spec());
    }
    v
}

/// The public key of a spending key.
pub open spec fn public_key_spec(private_key: U256) -> U256 {
    poseidon2_hash2_spec(private_key, small(0), Some(small(3)))
}

/// The commitment to a note of `amount` for `public_key`.
pub open spec fn commitment_spec<H3: Fn(U256, U256, U256, U256) -> U256>(
    h3: &H3,
    amount: U256,
    public_key: U256,
    blinding: U256,
) -> U256 {
    hash3_of(h3, amount, public_key, blinding, small(1))
}

/// The signature over a commitment at a tree position.
pub open spec fn signature_spec<H3: Fn(U256, U256, U256, U256) -> U256>(
    h3: &H3,
    private_key: U256,
    commitment: U256,
    path_index: U256,
) -> U256 {
    hash3_of(h3, private_key, commitment, path_index, small(4))
}

/// The nullifier of a commitment at a tree position.
pub open spec fn nullifier_spec<H3: Fn(U256, U256, U256, U256) -> U256>(
    h3: &H3,
    commitment: U256,
    path_index: U256,
    signature: U256,
) -> U256 {
    hash3_of(h3, commitment, path_index, signature, small(2))
}

/// The allowlist leaf of a public key.
pub open spec fn membership_leaf_spec(public_key: U256) -> U256 {
    poseidon2_hash2_spec(public_key, small(0), Some(small(1)))
}

/// The pool's leaf layer: each deposit inserted its commitment followed by a
/// literal zero, the rest of the tree was never touched.
pub open spec fn pool_layer(cm0: U256, cm1: U256) -> Seq<U256> {
    Seq::new(
        width(LEVELS as nat),
        |j: int|
            if j == 0 {
                cm0
            } else if j == 2 {
                cm1
            } else if j == 1 || j == 3 {
                small(0)
            } else {
                empty_leaf_spec()
            },
    )
}

/// The allowlist's leaf layer: one leaf per enrolment, in order.
pub open spec fn membership_layer(l0: U256, l1: U256) -> Seq<U256> {
    Seq::new(
        width(LEVELS as nat),
        |j: int|
            if j == 0 {
                l0
            } else if j == 1 {
                l1
            } else {
                empty_leaf_spec()
            },
    )
}

/// Everything the circuit is fed, and the values a pool and an allowlist
/// must hold for the proof to settle.
#[derive(Clone, Debug)]
pub struct PolicyInputs {
    pub root: U256,
    pub public_amount: U256,
    pub ext_data_hash: U256,
    pub public_keys: Vec<U256>,
    pub nullifiers: Vec<U256>,
    pub output_commitments: Vec<U256>,
    pub membership_root: U256,
    pub path_indices: Vec<U256>,
    pub input_path_elements: Vec<Vec<U256>>,
    pub membership_path_indices: Vec<u64>,
    pub membership_path_elements: Vec<Vec<U256>>,
    /// Commitments of the input notes, big-endian, in pool leaf order.
    pub input_commitments: Vec<[u8; 32]>,
    /// Allowlist leaves, big-endian, in enrolment order.
    pub membership_leaves: Vec<[u8; 32]>,
    /// Allowlist leaves, in enrolment order.
    pub membership_leaf_values: Vec<U256>,
    /// The circuit's input signals with their values, in the order the
    /// witness builder takes them.
    pub values: Vec<(String, Vec<U256>)>,
}

/// The names and values of a list of input signals.
pub open spec fn record_views(r: Seq<(String, Vec<U256>)>) -> Seq<(Seq<char>, Seq<U256>)> {
    r.map_values(|x: (String, Vec<U256>)| (x.0@, x.1@))
}

/// The circuit's input signals, in the order the witness builder takes
/// them: the public inputs, then each allowlist proof, then the spent notes
/// and their paths, then the created notes.
pub open spec fn policy_records_spec(p: PolicyInputs) -> Seq<(Seq<char>, Seq<U256>)> {
    let ins = input_notes_spec();
    let outs = output_notes_spec();
    seq![
        ("root"@, seq![p.root]),
        ("publicAmount"@, seq![p.public_amount]),
        ("extDataHash"@, seq![p.ext_data_hash]),
        ("inputNullifier"@, p.nullifiers@),
        ("outputCommitment"@, p.output_commitments@),
        ("membershipRoots"@, seq![p.membership_root, p.membership_root]),
        ("membershipProofs[0][0].leaf"@, seq![p.membership_leaf_values@[0]]),
        ("membershipProofs[0][0].blinding"@, seq![small(0)]),
        ("membershipProofs[0][0].pathIndices"@, seq![small(p.membership_path_indices@[0] as u128)]),
        ("membershipProofs[0][0].pathElements"@, p.membership_path_elements@[0]@),
        ("membershipProofs[1][0].leaf"@, seq![p.membership_leaf_values@[1]]),
        ("membershipProofs[1][0].blinding"@, seq![small(0)]),
        ("membershipProofs[1][0].pathIndices"@, seq![small(p.membership_path_indices@[1] as u128)]),
        ("membershipProofs[1][0].pathElements"@, p.membership_path_elements@[1]@),
        ("inAmount"@, seq![ins[0].amount, ins[1].amount]),
        ("inPrivateKey"@, seq![ins[0].private_key, ins[1].private_key]),
        ("inBlinding"@, seq![ins[0].blinding, ins[1].blinding]),
        ("inPathIndices"@, p.path_indices@),
        ("inPathElements"@, p.input_path_elements@[0]@ + p.input_path_elements@[1]@),
        ("outAmount"@, seq![outs[0].amount, outs[1].amount]),
        ("outPubkey"@, seq![outs[0].public_key, outs[1].public_key]),
        ("outBlinding"@, seq![outs[0].blinding, outs[1].blinding]),
    ]
}

/// Appends the signal `name` with `values`.
fn push_record(records: &mut Vec<(String, Vec<U256>)>, name: &str, values: Vec<U256>)
    ensures
        record_views(final(records)@) == record_views(old(records)@).push((name@, values@)),
{
    let ghost before = records@;
    records.push((name.to_owned(), values));
    proof {
        assert(record_views(records@) =~= record_views(before).push((name@, values@)));
    }
}

/// The circuit's input signals of the fixture transaction with their
/// values, in the order the witness builder takes them.
pub fn policy_records(p: &PolicyInputs) -> (r: Vec<(String, Vec<U256>)>)
    requires
        p.nullifiers@.len() == 2,
        p.membership_leaf_values@.len() == 2,
        p.membership_path_indices@.len() == 2,
        p.membership_path_elements@.len() == 2,
        p.input_path_elements@.len() == 2,
    ensures
        record_views(r@) == policy_records_spec(*p),
{
    let ins = input_notes();
    let outs = output_notes();
    let zero = U256::from_u128(0);
    let mut r: Vec<(String, Vec<U256>)> = Vec::new();
    push_record(&mut r, "root", vec![p.root]);
    push_record(&mut r, "publicAmount", vec![p.public_amount]);
    push_record(&mut r, "extDataHash", vec![p.ext_data_hash]);
    push_record(&mut r, "inputNullifier", p.nullifiers.clone());
    push_record(&mut r, "outputCommitment", p.output_commitments.clone());
    push_record(&mut r, "membershipRoots", vec![p.membership_root, p.membership_root]);
    push_record(&mut r, "membershipProofs[0][0].leaf", vec![p.membership_leaf_values[0]]);
    push_record(&mut r, "membershipProofs[0][0].blinding", vec![zero]);
    push_record(
        &mut r,
        "membershipProofs[0][0].pathIndices",
        vec![U256::from_u128(p.membership_path_indices[0] as u128)],
    );
    push_record(&mut r, "membershipProofs[0][0].pathElements", p.membership_path_elements[0].clone());
    push_record(&mut r, "membershipProofs[1][0].leaf", vec![p.membership_leaf_values[1]]);
    push_record(&mut r, "membershipProofs[1][0].blinding", vec![zero]);
    push_record(
        &mut r,
        "membershipProofs[1][0].pathIndices",
        vec![U256::from_u128(p.membership_path_indices[1] as u128)],
    );
    push_record(&mut r, "membershipProofs[1][0].pathElements", p.membership_path_elements[1].clone());
    push_record(&mut r, "inAmount", vec![ins[0].amount, ins[1].amount]);
    push_record(&mut r, "inPrivateKey", vec![ins[0].private_key, ins[1].private_key]);
    push_record(&mut r, "inBlinding", vec![ins[0].blinding, ins[1].blinding]);
    push_record(&mut r, "inPathIndices", p.path_indices.clone());
    let mut flat = p.input_path_elements[0].clone();
    let mut second = p.input_path_elements[1].clone();
    flat.append(&mut second);
    push_record(&mut r, "inPathElements", flat);
    push_record(&mut r, "outAmount", vec![outs[0].amount, outs[1].amount]);
    push_record(&mut r, "outPubkey", vec![outs[0].public_key, outs[1].public_key]);
    push_record(&mut r, "outBlinding", vec![outs[0].blinding, outs[1].blinding]);
    proof {
        let rv = record_views(r@);
        let sp = policy_records_spec(*p);
        assert(rv.len() == 22);
        assert(rv[0] == sp[0]);
        assert(rv[1] == sp[1]);
        assert(rv[2] == sp[2]);
        assert(rv[3] == sp[3]);
        assert(rv[4] == sp[4]);
        assert(rv[5] == sp[5]);
        assert(rv[6] == sp[6]);
        assert(rv[7] == sp[7]);
        assert(rv[8] == sp[8]);
        assert(rv[9] == sp[9]);
        assert(rv[10] == sp[10]);
        assert(rv[11] == sp[11]);
        assert(rv[12] == sp[12]);
        assert(rv[13] == sp[13]);
        assert(rv[14] == sp[14]);
        assert(rv[15] == sp[15]);
        assert(rv[16] == sp[16]);
        assert(rv[17] == sp[17]);
        assert(rv[18] == sp[18]);
        assert(rv[19] == sp[19]);
        assert(rv[20] == sp[20]);
        assert(rv[21] == sp[21]);
        assert(rv =~= sp);
    }
    r
}

/// The values of the fixture transaction, for given hash functions and
/// external-data hash.
pub open spec fn policy_inputs_ok<
    C: Fn(U256, U256) -> U256,
    H3: Fn(U256, U256, U256, U256) -> U256,
>(c: &C, h3: &H3, ext_data_hash: U256, p: PolicyInputs) -> bool {
    let ins = input_notes_spec();
    let outs = output_notes_spec();
    let pk0 = public_key_spec(ins[0].private_key);
    let pk1 = public_key_spec(ins[1].private_key);
    let cm0 = commitment_spec(h3, ins[0].amount, pk0, ins[0].blinding);
    let cm1 = commitment_spec(h3, ins[1].amount, pk1, ins[1].blinding);
    let layer = pool_layer(cm0, cm1);
    let ml0 = membership_leaf_spec(pk0);
    let ml1 = membership_leaf_spec(pk1);
    let mlayer = membership_layer(ml0, ml1);
    let pi0 = small(0);
    let pi1 = small(2);
    &&& p.root == tree_root(c, layer, LEVELS as nat)
    &&& p.public_amount == small(0)
    &&& p.ext_data_hash == ext_data_hash
    &&& p.public_keys@ == seq![pk0, pk1]
    &&& p.path_indices@ == seq![pi0, pi1]
    &&& p.nullifiers@ == seq![
        nullifier_spec(h3, cm0, pi0, signature_spec(h3, ins[0].private_key, cm0, pi0)),
        nullifier_spec(h3, cm1, pi1, signature_spec(h3, ins[1].private_key, cm1, pi1)),
    ]
    &&& p.output_commitments@ == seq![
        commitment_spec(h3, outs[0].amount, outs[0].public_key, outs[0].blinding),
        commitment_spec(h3, outs[1].amount, outs[1].public_key, outs[1].blinding),
    ]
    &&& p.membership_root == tree_root(c, mlayer, LEVELS as nat)
    &&& p.membership_path_indices@ == seq![0u64, 1u64]
    &&& p.input_path_elements@.len() == 2
    &&& path_ok(c, layer, p.input_path_elements@[0]@, 0)
    &&& path_ok(c, layer, p.input_path_elements@[1]@, 2)
    &&& p.input_path_elements@[0]@.len() == LEVELS
    &&& p.input_path_elements@[1]@.len() == LEVELS
    &&& p.membership_path_elements@.len() == 2
    &&& path_ok(c, mlayer, p.membership_path_elements@[0]@, 0)
    &&& path_ok(c, mlayer, p.membership_path_elements@[1]@, 1)
    &&& p.membership_path_elements@[0]@.len() == LEVELS
    &&& p.membership_path_elements@[1]@.len() == LEVELS
    &&& p.input_commitments@.len() == 2
    &&& be_value(p.input_commitments@[0]@) == cm0@
    &&& be_value(p.input_commitments@[1]@) == cm1@
    &&& p.input_commitments@[0]@.len() == 32
    &&& p.input_commitments@[1]@.len() == 32
    &&& p.membership_leaves@.len() == 2
    &&& be_value(p.membership_leaves@[0]@) == ml0@
    &&& be_value(p.membership_leaves@[1]@) == ml1@
    &&& p.membership_leaves@[0]@.len() == 32
    &&& p.membership_leaves@[1]@.len() == 32
    &&& p.membership_leaf_values@ == seq![ml0, ml1]
    &&& record_views(p.values@) == policy_records_spec(p)
}

/// A layer of `n` unfilled leaves.
fn empty_layer(n: usize) -> (r: Vec<U256>)
    ensures
        r@.len() == n,
        forall|i: int| 0 <= i < n ==> r@[i] == empty_leaf_spec(),
{
    let mut v: Vec<U256> = Vec::new();
    let mut i: usize = 0;
    while i < n
        invariant
            i <= n,
            v@.len() == i,
            forall|j: int| 0 <= j < i ==> v@[j] == empty_leaf_spec(),
        decreases n - i,
    {
        v.push(empty_leaf());
        i = i + 1;
    }
    v
}

fn call_hash3<H3: Fn(U256, U256, U256, U256) -> U256>(
    h3: &H3,
    a: U256,
    b: U256,
    c: U256,
    d: U256,
) -> (r: U256)
    requires
        hash3_ok(h3),
    ensures
        r == hash3_of(h3, a, b, c, d),
{
    h3(a, b, c, d)
}

/// A leaf layer is a power of two long when it has the circuit's width.
proof fn lemma_layer_shape(n: nat)
    requires
        n == width(LEVELS as nat),
    ensures
        is_pow_two(n),
        depth(n) == LEVELS,
        n >= 4,
{
    lemma_depth_width(LEVELS as nat);
    crate::fixture_tree::lemma_width_gt(LEVELS as nat);
    assert(width(LEVELS as nat) == n);
}

/// Builds every value of the fixture transaction: the pool tree holding the
/// two input commitments, their authentication paths and nullifiers, the
/// output commitments, and the allowlist tree enrolling both spenders.
pub fn build_policy_inputs<
    C: Fn(U256, U256) -> U256,
    H3: Fn(U256, U256, U256, U256) -> U256,
>(c: &C, h3: &H3, ext_data_hash: U256) -> (r: Result<PolicyInputs, FixtureError>)
    requires
        hasher_ok(c),
        hash3_ok(h3),
    ensures
        r matches Ok(p) && policy_inputs_ok(c, h3, ext_data_hash, p),
        r matches Ok(p) ==> input_notes_spec()[0].amount@ + input_notes_spec()[1].amount@
            + p.public_amount@ == output_notes_spec()[0].amount@ + output_notes_spec()[1].amount@,
{
    let inputs = input_notes();
    let outputs = output_notes();
    let count = match leaf_count(LEVELS) {
        Ok(n) => n,
        Err(e) => {
            return Err(e);
        },
    };
    proof {
        lemma_layer_shape(count as nat);
    }
    let zero = U256::zero();
    let one = U256::from_u128(1);
    let n0 = inputs[0];
    let n1 = inputs[1];

    // Input notes: public keys and commitments, placed in the pool layer.
    let pk0 = poseidon2_hash2(n0.private_key, zero, Some(U256::from_u128(3)));
    let cm0 = call_hash3(h3, n0.amount, pk0, n0.blinding, one);
    let pk1 = poseidon2_hash2(n1.private_key, zero, Some(U256::from_u128(3)));
    let cm1 = call_hash3(h3, n1.amount, pk1, n1.blinding, one);
    let mut tx_leaves = empty_layer(count);
    if n0.leaf_index >= tx_leaves.len() || n1.leaf_index >= tx_leaves.len() {
        return Err(FixtureError::IndexOutsideTree);
    }
    tx_leaves.set(n0.leaf_index, cm0);
    if n0.leaf_index + 1 < tx_leaves.len() {
        tx_leaves.set(n0.leaf_index + 1, zero);
    }
    tx_leaves.set(n1.leaf_index, cm1);
    if n1.leaf_index + 1 < tx_leaves.len() {
        tx_leaves.set(n1.leaf_index + 1, zero);
    }
    let ghost layer = pool_layer(cm0, cm1);
    proof {
        assert(tx_leaves@ =~= layer);
    }
    let root = match merkle_root(c, tx_leaves.clone()) {
        Ok(v) => v,
        Err(e) => {
            return Err(e);
        },
    };

    // Authentication paths and nullifiers of the spent notes.
    let (path0, bits0, levels0) = match merkle_proof(c, &tx_leaves, n0.leaf_index) {
        Ok(t) => t,
        Err(e) => {
            return Err(e);
        },
    };
    let (path1, bits1, levels1) = match merkle_proof(c, &tx_leaves, n1.leaf_index) {
        Ok(t) => t,
        Err(e) => {
            return Err(e);
        },
    };
    if levels0 != LEVELS || levels1 != LEVELS {
        return Err(FixtureError::UnexpectedDepth);
    }
    let pi0 = U256::from_u128(bits0 as u128);
    let pi1 = U256::from_u128(bits1 as u128);
    let sig0 = call_hash3(h3, n0.private_key, cm0, pi0, U256::from_u128(4));
    let sig1 = call_hash3(h3, n1.private_key, cm1, pi1, U256::from_u128(4));
    let null0 = call_hash3(h3, cm0, pi0, sig0, U256::from_u128(2));
    let null1 = call_hash3(h3, cm1, pi1, sig1, U256::from_u128(2));

    // The allowlist enrols each spender's public key, one leaf per enrolment.
    let ml0 = poseidon2_hash2(pk0, zero, Some(one));
    let ml1 = poseidon2_hash2(pk1, zero, Some(one));
    let mut membership = empty_layer(count);
    membership.set(0, ml0);
    membership.set(1, ml1);
    let ghost mlayer = membership_layer(ml0, ml1);
    proof {
        assert(membership@ =~= mlayer);
    }
    let membership_root = match merkle_root(c, membership.clone()) {
        Ok(v) => v,
        Err(e) => {
            return Err(e);
        },
    };
    let (mpath0, mbits0, mlevels0) = match merkle_proof(c, &membership, 0) {
        Ok(t) => t,
        Err(e) => {
            return Err(e);
        },
    };
    let (mpath1, mbits1, mlevels1) = match merkle_proof(c, &membership, 1) {
        Ok(t) => t,
        Err(e) => {
            return Err(e);
        },
    };
    if mlevels0 != LEVELS || mlevels1 != LEVELS {
        return Err(FixtureError::UnexpectedDepth);
    }

    // Output notes.
    let o0 = outputs[0];
    let o1 = outputs[1];
    let oc0 = call_hash3(h3, o0.amount, o0.public_key, o0.blinding, one);
    let oc1 = call_hash3(h3, o1.amount, o1.public_key, o1.blinding, one);

    let public_keys = vec![pk0, pk1];
    let nullifiers = vec![null0, null1];
    let output_commitments = vec![oc0, oc1];
    let path_indices = vec![pi0, pi1];
    let input_path_elements = vec![path0, path1];
    let membership_path_indices = vec![mbits0, mbits1];
    let membership_path_elements = vec![mpath0, mpath1];
    let input_commitments = vec![fr_to_be_bytes(&cm0), fr_to_be_bytes(&cm1)];
    let membership_leaves = vec![fr_to_be_bytes(&ml0), fr_to_be_bytes(&ml1)];
    let mut p = PolicyInputs {
        root,
        public_amount: zero,
        ext_data_hash,
        public_keys,
        nullifiers,
        output_commitments,
        membership_root,
        path_indices,
        input_path_elements,
        membership_path_indices,
        membership_path_elements,
        input_commitments,
        membership_leaves,
        membership_leaf_values: vec![ml0, ml1],
        values: Vec::new(),
    };
    proof {
        assert(p.public_keys@ =~= seq![pk0, pk1]);
        assert(p.path_indices@ =~= seq![pi0, pi1]);
        assert(p.nullifiers@ =~= seq![null0, null1]);
        assert(p.output_commitments@ =~= seq![oc0, oc1]);
        assert(p.membership_path_indices@ =~= seq![mbits0, mbits1]);
        assert(p.membership_leaf_values@ =~= seq![ml0, ml1]);
    }
    let values = policy_records(&p);
    let ghost before = p;
    p.values = values;
    proof {
        assert(policy_records_spec(p) == policy_records_spec(before));
        lemma_fixture_transaction_balances(c, h3, ext_data_hash, p);
    }
    Ok(p)
}

/// The fixture transaction balances, as the circuit demands: the amounts of
/// the spent notes plus the public amount equal the amounts of the created
/// notes, both as notes and as the `inAmount`, `publicAmount` and
/// `outAmount` signals the circuit is fed.
pub proof fn lemma_fixture_transaction_balances<
    C: Fn(U256, U256) -> U256,
    H3: Fn(U256, U256, U256, U256) -> U256,
>(c: &C, h3: &H3, ext_data_hash: U256, p: PolicyInputs)
    requires
        policy_inputs_ok(c, h3, ext_data_hash, p),
    ensures
        input_notes_spec()[0].amount@ + input_notes_spec()[1].amount@ + p.public_amount@
            == output_notes_spec()[0].amount@ + output_notes_spec()[1].amount@,
        ({
            let rv = record_views(p.values@);
            &&& rv[1].0 == "publicAmount"@
            &&& rv[14].0 == "inAmount"@
            &&& rv[19].0 == "outAmount"@
            &&& rv[14].1[0]@ + rv[14].1[1]@ + rv[1].1[0]@ == rv[19].1[0]@ + rv[19].1[1]@
        }),
{
    let rv = record_views(p.values@);
    assert(rv == policy_records_spec(p));
    assert(small(0)@ == 0);
    assert(small(13)@ == 13);
}

/// Two deposits, of `cm0` then of `cm1`, each inserting its commitment and
/// a zero, give the pool the fixture's tree: a pool built that way holds the
/// root the fixture proof was generated against.
pub proof fn lemma_deposits_rebuild_pool_root<C: Fn(U256, U256) -> U256>(
    c: &C,
    cm0: U256,
    cm1: U256,
)
    ensures
        tree_root(c, seq![cm0, small(0), cm1, small(0)], LEVELS as nat) == tree_root(
            c,
            pool_layer(cm0, cm1),
            LEVELS as nat,
        ),
{
    let s = seq![cm0, small(0), cm1, small(0)];
    let n = width(LEVELS as nat);
    crate::fixture_tree::lemma_width_gt(LEVELS as nat);
    assert(crate::fixture_tree::padded(s, n) =~= pool_layer(cm0, cm1));
    crate::fixture_tree::lemma_padded_node(c, s, n, LEVELS as nat, 0);
}

/// Enrolling the two spenders' leaves in order gives the allowlist the
/// fixture's allowlist tree.
pub proof fn lemma_enrolments_rebuild_membership_root<C: Fn(U256, U256) -> U256>(
    c: &C,
    l0: U256,
    l1: U256,
)
    ensures
        tree_root(c, seq![l0, l1], LEVELS as nat) == tree_root(
            c,
            membership_layer(l0, l1),
            LEVELS as nat,
        ),
{
    let s = seq![l0, l1];
    let n = width(LEVELS as nat);
    crate::fixture_tree::lemma_width_gt(LEVELS as nat);
    assert(crate::fixture_tree::padded(s, n) =~= membership_layer(l0, l1));
    crate::fixture_tree::lemma_padded_node(c, s, n, LEVELS as nat, 0);
}

} // verus!
