//! Big-endian byte strings read as integers, and the conversions between
//! 256-bit values and their 32-byte encodings.
use vstd::prelude::*;
use crate::uint::{base, U256};

verus! {

/// The integer whose big-endian bytes are `s`.
pub open spec fn be_value(s: Seq<u8>) -> nat
    decreases s.len(),
{
    if s.len() == 0 {
        0
    } else {
        be_value(s.drop_last()) * 256 + s.last() as nat
    }
}

/// 256^n.
pub open spec fn pow256(n: nat) -> nat
    decreases n,
{
    if n == 0 {
        1
    } else {
        256 * pow256((n - 1) as nat)
    }
}

pub proof fn lemma_pow256_16()
    ensures
        pow256(16) == base(),
{
    reveal_with_fuel(pow256, 17);
}

pub proof fn lemma_pow256_pos(n: nat)
    ensures
        pow256(n) >= 1,
    decreases n,
{
    if n > 0 {
        lemma_pow256_pos((n - 1) as nat);
    }
}

pub proof fn lemma_pow256_mono(a: nat, b: nat)
    requires
        a <= b,
    ensures
        1 <= pow256(a) <= pow256(b),
    decreases b,
{
    lemma_pow256_pos(a);
    if b > a {
        lemma_pow256_mono(a, (b - 1) as nat);
    }
}

/// The value of `n` bytes is below 256^n.
pub proof fn lemma_be_value_bound(s: Seq<u8>)
    ensures
        be_value(s) < pow256(s.len()),
    decreases s.len(),
{
    if s.len() > 0 {
        lemma_be_value_bound(s.drop_last());
        let v = be_value(s.drop_last());
        let p = pow256((s.len() - 1) as nat);
        assert(v * 256 + s.last() < 256 * p) by (nonlinear_arith)
            requires
                v < p,
                s.last() < 256,
        ;
    }
}

/// Reading a concatenation: the prefix shifted left by the suffix's length,
/// plus the suffix.
pub proof fn lemma_be_value_concat(a: Seq<u8>, b: Seq<u8>)
    ensures
        be_value(a + b) == be_value(a) * pow256(b.len()) + be_value(b),
    decreases b.len(),
{
    if b.len() == 0 {
        assert(a + b =~= a);
        assert(pow256(0) == 1);
        assert(be_value(b) == 0);
    } else {
        let b0 = b.drop_last();
        lemma_be_value_concat(a, b0);
        assert((a + b).drop_last() =~= a + b0);
        assert((a + b).last() == b.last());
        let p = pow256(b0.len());
        let va = be_value(a);
        let vb0 = be_value(b0);
        let l = b.last() as nat;
        assert(pow256(b.len()) == 256 * p);
        assert(be_value(a + b0) == va * p + vb0);
        assert(be_value(a + b) == be_value(a + b0) * 256 + l);
        assert(be_value(b) == vb0 * 256 + l);
        assert((va * p + vb0) * 256 + l == va * (256 * p) + (vb0 * 256 + l)) by (nonlinear_arith);
        assert(be_value(a + b) == va * (256 * p) + be_value(b));
    }
}

/// The `len` big-endian bytes of `n` (its value modulo 256^len).
pub open spec fn be_bytes(n: nat, len: nat) -> Seq<u8>
    decreases len,
{
    if len == 0 {
        Seq::empty()
    } else {
        be_bytes(n / 256, (len - 1) as nat).push((n % 256) as u8)
    }
}

/// The big-endian bytes of a value are the only bytes of that length with
/// that value.
pub proof fn lemma_be_bytes_unique(s: Seq<u8>)
    ensures
        s == be_bytes(be_value(s), s.len()),
    decreases s.len(),
{
    if s.len() > 0 {
        let d = s.drop_last();
        lemma_be_bytes_unique(d);
        let n = be_value(s);
        vstd::arithmetic::div_mod::lemma_fundamental_div_mod_converse(
            n as int,
            256,
            be_value(d) as int,
            s.last() as int,
        );
        assert(be_bytes(n, s.len()) =~= s);
    }
}

/// Reads 16 big-endian bytes of `s` starting at `start`.
pub fn u128_from_be(s: &Vec<u8>, start: usize) -> (r: u128)
    requires
        start + 16 <= s@.len(),
    ensures
        r == be_value(s@.subrange(start as int, start + 16)),
{
    let n = s.len();
    let end = start + 16;
    let mut acc: u128 = 0;
    let mut i: usize = start;
    proof {
        assert(s@.subrange(start as int, start as int) =~= Seq::<u8>::empty());
    }
    while i < end
        invariant
            end == start + 16,
            start <= i <= start + 16 <= s@.len(),
            acc == be_value(s@.subrange(start as int, i as int)),
        decreases start + 16 - i,
    {
        proof {
            lemma_be_value_bound(s@.subrange(start as int, i as int));
            lemma_pow256_mono((i - start) as nat, 15);
            reveal_with_fuel(pow256, 16);
            assert(pow256(15) == 0x1_0000_0000_0000_0000_0000_0000_0000_00nat);
            assert(s@.subrange(start as int, i + 1).drop_last() =~= s@.subrange(
                start as int,
                i as int,
            ));
        }
        acc = acc * 256 + s[i] as u128;
        i = i + 1;
    }
    acc
}

/// The 16 big-endian bytes of `v`.
pub fn u128_to_be(v: u128) -> (r: Vec<u8>)
    ensures
        r@.len() == 16,
        be_value(r@) == v,
{
    let mut out: Vec<u8> = Vec::new();
    let mut x: u128 = v;
    let mut k: usize = 0;
    proof {
        assert(pow256(0) == 1);
        assert(be_value(out@) == 0);
    }
    while k < 16
        invariant
            k <= 16,
            out@.len() == k,
            be_value(out@) + x * pow256(k as nat) == v,
        decreases 16 - k,
    {
        let b = (x % 256) as u8;
        let ghost old_out = out@;
        let ghost old_x = x;
        out.insert(0, b);
        x = x / 256;
        proof {
            assert(out@ =~= seq![b] + old_out);
            lemma_be_value_concat(seq![b], old_out);
            assert(seq![b].drop_last() =~= Seq::<u8>::empty());
            assert(be_value(Seq::<u8>::empty()) == 0);
            assert(be_value(seq![b]) == be_value(seq![b].drop_last()) * 256 + b);
            assert(be_value(seq![b]) == b);
            let p = pow256(k as nat);
            assert(pow256((k + 1) as nat) == 256 * p);
            assert(old_x == x * 256 + b);
            assert(b * p + be_value(old_out) + x * (256 * p) == be_value(old_out) + (x * 256 + b)
                * p) by (nonlinear_arith);
        }
        k = k + 1;
    }
    proof {
        lemma_pow256_16();
        if x > 0 {
            assert(x * pow256(16) >= pow256(16)) by (nonlinear_arith)
                requires
                    x >= 1,
            ;
        }
    }
    out
}

/// The 32 big-endian bytes of `v`.
pub fn u256_to_be_bytes(v: &U256) -> (r: Vec<u8>)
    ensures
        r@.len() == 32,
        be_value(r@) == v@,
{
    let mut out = u128_to_be(v.hi);
    let lo = u128_to_be(v.lo);
    let ghost hi_bytes = out@;
    let mut i: usize = 0;
    while i < 16
        invariant
            i <= 16,
            lo@.len() == 16,
            out@ == hi_bytes + lo@.subrange(0, i as int),
        decreases 16 - i,
    {
        out.push(lo[i]);
        i = i + 1;
        proof {
            assert(out@ =~= hi_bytes + lo@.subrange(0, i as int));
        }
    }
    proof {
        assert(lo@.subrange(0, 16) =~= lo@);
        lemma_be_value_concat(hi_bytes, lo@);
        lemma_pow256_16();
    }
    out
}

/// The value of 32 big-endian bytes.
pub fn u256_from_be_bytes(s: &Vec<u8>) -> (r: U256)
    requires
        s@.len() == 32,
    ensures
        r@ == be_value(s@),
{
    let hi = u128_from_be(s, 0);
    let lo = u128_from_be(s, 16);
    proof {
        assert(s@ =~= s@.subrange(0, 16) + s@.subrange(16, 32));
        lemma_be_value_concat(s@.subrange(0, 16), s@.subrange(16, 32));
        lemma_pow256_16();
    }
    U256 { hi, lo }
}

} // verus!
