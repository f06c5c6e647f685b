//! The ledger host's hash and BN254 curve operations, reached through the
//! ledger SDK's environment handle.
use vstd::prelude::*;
use soroban_sdk::crypto::bn254::{Bn254Fr, Bn254G1Affine, Bn254G2Affine};
use soroban_sdk::{Bytes, Env};
use crate::bytes::{be_bytes, be_value, lemma_be_bytes_unique, u256_from_be_bytes, u256_to_be_bytes};
use crate::groth16::{append_bytes, copy_range};
use crate::uint::U256;

verus! {

#[verifier::external_type_specification]
#[verifier::external_body]
pub struct ExEnv(Env);

/// The order of the BN254 base field, over which curve points' coordinates
/// are taken.
pub open spec fn base_field_modulus() -> nat {
    21888242871839275222246405745257275088696311157297823662689037894645226208583nat
}

/// The x coordinate of an encoded G1 point.
pub open spec fn g1_x(p: Seq<u8>) -> nat {
    be_value(p.subrange(0, 32))
}

/// The y coordinate of an encoded G1 point.
pub open spec fn g1_y(p: Seq<u8>) -> nat {
    be_value(p.subrange(32, 64))
}

/// An encoding the host accepts as a G1 point: 64 bytes, coordinates in the
/// base field, and either the point at infinity (all zero) or a point of
/// y^2 = x^3 + 3.
pub open spec fn g1_valid(p: Seq<u8>) -> bool {
    let q = base_field_modulus();
    let x = g1_x(p);
    let y = g1_y(p);
    &&& p.len() == 64
    &&& x < q
    &&& y < q
    &&& ((x == 0 && y == 0) || (y * y) % q == (x * x * x + 3) % q)
}

/// Keccak-256 of `data`, its 32 bytes read big-endian.
pub uninterp spec fn keccak256_value(data: Seq<u8>) -> nat;

/// G1 addition of two encoded points, as the host encodes the sum.
pub uninterp spec fn g1_add_value(p: Seq<u8>, q: Seq<u8>) -> Seq<u8>;

/// G1 multiplication of an encoded point by `s` reduced modulo the scalar
/// field order, as the host encodes the product.
pub uninterp spec fn g1_mul_value(p: Seq<u8>, s: nat) -> Seq<u8>;

/// Calls `soroban_sdk::crypto::Crypto::keccak256` on `data`. Claimed: the
/// digest, read big-endian, depends on `data` alone. Not claimed: that the
/// host's resource budget suffices, which depends on the environment.
#[verifier::external_body]
pub(crate) fn keccak256(env: &Env, data: &Vec<u8>) -> (r: U256)
    ensures
        r@ == keccak256_value(data@),
{
    let d: [u8; 32] = env.crypto().keccak256(&Bytes::from_slice(env, data.as_slice())).to_array();
    let hi: [u8; 16] = d[..16].try_into().unwrap();
    let lo: [u8; 16] = d[16..].try_into().unwrap();
    U256 { hi: u128::from_be_bytes(hi), lo: u128::from_be_bytes(lo) }
}

/// Calls `soroban_sdk::crypto::bn254::Bn254::g1_add`. Claimed: on two valid
/// encodings the host returns the encoding of their sum, a valid point that
/// depends on the two operands alone.
#[verifier::external_body]
pub(crate) fn g1_add(env: &Env, p: &Vec<u8>, q: &Vec<u8>) -> (r: Vec<u8>)
    requires
        g1_valid(p@),
        g1_valid(q@),
    ensures
        r@ == g1_add_value(p@, q@),
        g1_valid(r@),
{
    let a = Bn254G1Affine::from_array(env, &p.as_slice().try_into().unwrap());
    let b = Bn254G1Affine::from_array(env, &q.as_slice().try_into().unwrap());
    env.crypto().bn254().g1_add(&a, &b).to_array().to_vec()
}

/// Calls `soroban_sdk::crypto::bn254::Bn254::g1_mul` with the scalar `s`,
/// which the SDK reduces modulo the scalar field order. Claimed: on a valid
/// encoding the host returns the encoding of the product, a valid point that
/// depends on the point and the scalar alone.
#[verifier::external_body]
pub(crate) fn g1_mul(env: &Env, p: &Vec<u8>, s: &U256) -> (r: Vec<u8>)
    requires
        g1_valid(p@),
    ensures
        r@ == g1_mul_value(p@, s@),
        g1_valid(r@),
{
    let a = Bn254G1Affine::from_array(env, &p.as_slice().try_into().unwrap());
    let mut be = [0u8; 32];
    be[..16].copy_from_slice(&s.hi.to_be_bytes());
    be[16..].copy_from_slice(&s.lo.to_be_bytes());
    let fr = Bn254Fr::from_bytes(soroban_sdk::BytesN::from_array(env, &be));
    env.crypto().bn254().g1_mul(&a, &fr).to_array().to_vec()
}

/// The base field order.
fn base_field_modulus_u256() -> (r: U256)
    ensures
        r@ == base_field_modulus(),
{
    U256 { hi: 0x30644e72e131a029b85045b68181585d, lo: 0x97816a916871ca8d3c208c16d87cfd47 }
}

/// Negating y in the base field keeps its square.
proof fn lemma_neg_square(y: int, q: int)
    requires
        0 < y < q,
    ensures
        ((q - y) * (q - y)) % q == (y * y) % q,
{
    assert((q - y) * (q - y) == q * (q - 2 * y) + y * y) by (nonlinear_arith);
    vstd::arithmetic::div_mod::lemma_mod_multiples_vanish(q - 2 * y, y * y, q);
}

/// The negation of y in the base field.
pub open spec fn neg_y(y: nat) -> nat {
    if y == 0 {
        0
    } else {
        (base_field_modulus() - y) as nat
    }
}

/// The encoding of the negation of the encoded G1 point `p`.
pub open spec fn g1_neg_spec(p: Seq<u8>) -> Seq<u8> {
    p.subrange(0, 32) + be_bytes(neg_y(g1_y(p)), 32)
}

/// The negation of an encoded G1 point: x is kept and y replaced by its
/// negation in the base field. A y outside the base field has no negation.
pub fn g1_neg(p: &Vec<u8>) -> (r: Vec<u8>)
    requires
        p@.len() == 64,
        g1_y(p@) < base_field_modulus(),
    ensures
        r@ == g1_neg_spec(p@),
        r@.len() == 64,
        g1_x(r@) == g1_x(p@),
        g1_y(r@) == (if g1_y(p@) == 0 {
            0
        } else {
            base_field_modulus() - g1_y(p@)
        }),
        g1_valid(p@) ==> g1_valid(r@),
{
    let mut out = copy_range(p, 0, 32);
    let y_bytes = copy_range(p, 32, 64);
    let y = u256_from_be_bytes(&y_bytes);
    let q = base_field_modulus_u256();
    let ny = if y.hi == 0 && y.lo == 0 {
        y
    } else {
        q.sub(&y)
    };
    let ny_bytes = u256_to_be_bytes(&ny);
    let ghost x_bytes = out@;
    append_bytes(&mut out, &ny_bytes);
    proof {
        assert(out@.subrange(0, 32) =~= x_bytes);
        assert(out@.subrange(32, 64) =~= ny_bytes@);
        assert(x_bytes == p@.subrange(0, 32));
        lemma_be_bytes_unique(ny_bytes@);
        assert(out@ =~= g1_neg_spec(p@));
        if g1_valid(p@) && y@ != 0 {
            lemma_neg_square(y@ as int, base_field_modulus() as int);
        }
    }
    out
}

/// An element `c0 + c1 * u` of the quadratic extension of the base field,
/// where `u^2 = -1`, as the pair `(c0, c1)`.
pub open spec fn fq() -> int {
    base_field_modulus() as int
}

pub open spec fn fp2_add(a: (int, int), b: (int, int)) -> (int, int) {
    ((a.0 + b.0) % fq(), (a.1 + b.1) % fq())
}

pub open spec fn fp2_sub(a: (int, int), b: (int, int)) -> (int, int) {
    ((a.0 - b.0) % fq(), (a.1 - b.1) % fq())
}

pub open spec fn fp2_mul(a: (int, int), b: (int, int)) -> (int, int) {
    ((a.0 * b.0 - a.1 * b.1) % fq(), (a.0 * b.1 + a.1 * b.0) % fq())
}

/// `a^e` in the base field.
pub open spec fn fp_pow(a: int, e: nat) -> int
    decreases e,
{
    if e == 0 {
        1
    } else {
        let h = fp_pow(a, e / 2);
        if e % 2 == 1 {
            (h * h % fq()) * a % fq()
        } else {
            h * h % fq()
        }
    }
}

/// The inverse in the extension field (zero for zero).
pub open spec fn fp2_inv(a: (int, int)) -> (int, int) {
    let n = fp_pow((a.0 * a.0 + a.1 * a.1) % fq(), (fq() - 2) as nat);
    (a.0 * n % fq(), (-a.1) * n % fq())
}

/// The coefficient `b = 3 / (9 + u)` of the twist `y^2 = x^3 + b`.
pub open spec fn twist_b() -> (int, int) {
    (
        19485874751759354771024239261021720505790618469301721065564631296452457478373int,
        266929791119991161246907387137283842545076965332900288569378510910307636690int,
    )
}

/// A point of the twist in affine coordinates, `None` for infinity.
pub open spec fn g2_add(p: Option<((int, int), (int, int))>, q: Option<((int, int), (int, int))>) -> Option<
    ((int, int), (int, int)),
> {
    match (p, q) {
        (None, _) => q,
        (_, None) => p,
        (Some((x1, y1)), Some((x2, y2))) => {
            if x1 == x2 && (y1 != y2 || y1 == (0int, 0int)) {
                None
            } else {
                let l = if x1 == x2 {
                    fp2_mul(fp2_mul((3int, 0int), fp2_mul(x1, x1)), fp2_inv(fp2_add(y1, y1)))
                } else {
                    fp2_mul(fp2_sub(y2, y1), fp2_inv(fp2_sub(x2, x1)))
                };
                let x3 = fp2_sub(fp2_sub(fp2_mul(l, l), x1), x2);
                let y3 = fp2_sub(fp2_mul(l, fp2_sub(x1, x3)), y1);
                Some((x3, y3))
            }
        },
    }
}

/// `n` times the twist point `p`.
pub open spec fn g2_mul(p: Option<((int, int), (int, int))>, n: nat) -> Option<
    ((int, int), (int, int)),
>
    decreases n,
{
    if n == 0 {
        None
    } else {
        let d = g2_add(g2_mul(p, n / 2), g2_mul(p, n / 2));
        if n % 2 == 1 {
            g2_add(d, p)
        } else {
            d
        }
    }
}

/// The coordinates of an encoded G2 point: x then y, each as the big-endian
/// `c1` followed by `c0`.
pub open spec fn g2_coords(b: Seq<u8>) -> ((int, int), (int, int)) {
    (
        (be_value(b.subrange(32, 64)) as int, be_value(b.subrange(0, 32)) as int),
        (be_value(b.subrange(96, 128)) as int, be_value(b.subrange(64, 96)) as int),
    )
}

/// An encoding the host accepts as a G2 point: 128 bytes, coordinates in the
/// base field, and either the point at infinity (all zero) or a point of the
/// twist whose multiple by the scalar field order is infinity.
pub open spec fn g2_valid(b: Seq<u8>) -> bool {
    let (x, y) = g2_coords(b);
    &&& b.len() == 128
    &&& 0 <= x.0 < fq() && 0 <= x.1 < fq() && 0 <= y.0 < fq() && 0 <= y.1 < fq()
    &&& (x == (0int, 0int) && y == (0int, 0int)) || (fp2_mul(y, y) == fp2_add(
        fp2_mul(fp2_mul(x, x), x),
        twist_b(),
    ) && g2_mul(Some((x, y)), crate::field::field_modulus()) is None)
}

/// The views of a vector of points.
pub open spec fn points(v: Seq<Vec<u8>>) -> Seq<Seq<u8>> {
    v.map_values(|p: Vec<u8>| p@)
}

/// Whether the product of the pairings of the G1 points `g1` with the G2
/// points `g2`, index by index, is the identity.
pub uninterp spec fn pairing_holds(g1: Seq<Seq<u8>>, g2: Seq<Seq<u8>>) -> bool;

/// Calls `soroban_sdk::crypto::bn254::Bn254::pairing_check` on the points.
/// Claimed: on equally many, at least one, valid G1 and G2 encodings the
/// host answers, and its answer depends on the points alone. The host's
/// resource budget is not stated.
#[verifier::external_body]
pub(crate) fn pairing_check(env: &Env, g1: &Vec<Vec<u8>>, g2: &Vec<Vec<u8>>) -> (r: bool)
    requires
        g1@.len() == g2@.len(),
        g1@.len() > 0,
        forall|i: int| 0 <= i < g1@.len() ==> g1_valid(#[trigger] g1@[i]@),
        forall|i: int| 0 <= i < g2@.len() ==> g2_valid(#[trigger] g2@[i]@),
    ensures
        r == pairing_holds(points(g1@), points(g2@)),
{
    let a = soroban_sdk::Vec::from_iter(
        env,
        g1.iter().map(|p| Bn254G1Affine::from_array(env, &p.as_slice().try_into().unwrap())),
    );
    let b = soroban_sdk::Vec::from_iter(
        env,
        g2.iter().map(|p| Bn254G2Affine::from_array(env, &p.as_slice().try_into().unwrap())),
    );
    env.crypto().bn254().pairing_check(a, b)
}

} // verus!
