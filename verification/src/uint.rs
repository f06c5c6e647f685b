//! Fixed-width integers of the pool's value domain, modelled as pairs of
//! 128-bit halves and viewed as mathematical integers.
use vstd::prelude::*;

verus! {

/// 2^128, the weight of the high half.
pub open spec fn base() -> nat {
    0x1_0000_0000_0000_0000_0000_0000_0000_0000nat
}

/// 2^256, one more than the largest `U256`.
pub open spec fn u256_bound() -> nat {
    base() * base()
}

/// An unsigned 256-bit integer: `hi * 2^128 + lo`.
#[derive(Clone, Copy, Debug, PartialEq, Eq, Structural)]
pub struct U256 {
    pub hi: u128,
    pub lo: u128,
}

impl View for U256 {
    type V = nat;

    open spec fn view(&self) -> nat {
        self.hi as nat * base() + self.lo as nat
    }
}

/// Two `U256` values are equal exactly when their integers are.
pub proof fn lemma_u256_view_injective(a: U256, b: U256)
    ensures
        (a@ == b@) == (a == b),
{
}

/// The `U256` whose value is `n`, for `n` below 2^256.
pub open spec fn u256_of(n: nat) -> U256 {
    U256 { hi: (n / base()) as u128, lo: (n % base()) as u128 }
}

/// A `U256` is the `U256` of its value.
pub proof fn lemma_u256_of_view(v: U256)
    ensures
        u256_of(v@) == v,
{
    let b = base();
    assert(v@ == v.hi as nat * b + v.lo as nat);
    vstd::arithmetic::div_mod::lemma_fundamental_div_mod_converse(
        v@ as int,
        b as int,
        v.hi as int,
        v.lo as int,
    );
}

/// Every `U256` is below 2^256.
pub proof fn lemma_u256_bound(a: U256)
    ensures
        a@ < u256_bound(),
{
    assert(a.hi as nat * base() <= (base() - 1) * base()) by (nonlinear_arith)
        requires
            a.hi < base(),
    ;
}

impl U256 {
    /// The value `v`.
    pub fn from_u128(v: u128) -> (r: U256)
        ensures
            r@ == v,
            r == (U256 { hi: 0, lo: v }),
    {
        U256 { hi: 0, lo: v }
    }

    /// The value `v`.
    pub fn from_u32(v: u32) -> (r: U256)
        ensures
            r@ == v,
    {
        U256 { hi: 0, lo: v as u128 }
    }

    /// Zero.
    pub fn zero() -> (r: U256)
        ensures
            r@ == 0,
            r == (U256 { hi: 0, lo: 0 }),
    {
        U256 { hi: 0, lo: 0 }
    }

    /// Whether `self < other`.
    pub fn lt(&self, other: &U256) -> (r: bool)
        ensures
            r == (self@ < other@),
    {
        self.hi < other.hi || (self.hi == other.hi && self.lo < other.lo)
    }

    /// Whether `self <= other`.
    pub fn le(&self, other: &U256) -> (r: bool)
        ensures
            r == (self@ <= other@),
    {
        self.hi < other.hi || (self.hi == other.hi && self.lo <= other.lo)
    }

    /// Whether `self == other`.
    pub fn eq(&self, other: &U256) -> (r: bool)
        ensures
            r == (self@ == other@),
            r == (*self == *other),
    {
        self.hi == other.hi && self.lo == other.lo
    }

    /// `self - other`, for `other <= self`.
    pub fn sub(&self, other: &U256) -> (r: U256)
        requires
            other@ <= self@,
        ensures
            r@ == self@ - other@,
    {
        if self.lo >= other.lo {
            U256 { hi: self.hi - other.hi, lo: self.lo - other.lo }
        } else {
            U256 { hi: self.hi - other.hi - 1, lo: (u128::MAX - other.lo) + self.lo + 1 }
        }
    }

    /// `self + other`, when the sum stays below 2^256.
    pub fn add(&self, other: &U256) -> (r: U256)
        requires
            self@ + other@ < u256_bound(),
        ensures
            r@ == self@ + other@,
    {
        if self.lo <= u128::MAX - other.lo {
            U256 { hi: self.hi + other.hi, lo: self.lo + other.lo }
        } else {
            U256 { hi: self.hi + other.hi + 1, lo: self.lo - (u128::MAX - other.lo) - 1 }
        }
    }
}


/// A signed 256-bit integer in two's complement: `hi * 2^128 + lo`.
#[derive(Clone, Copy, Debug, PartialEq, Eq, Structural)]
pub struct I256 {
    pub hi: i128,
    pub lo: u128,
}

impl View for I256 {
    type V = int;

    open spec fn view(&self) -> int {
        self.hi as int * base() + self.lo as int
    }
}

/// The smallest `I256`, -2^255.
pub open spec fn i256_min() -> int {
    -(base() * base() / 2)
}

/// Every `I256` lies in [-2^255, 2^255).
pub proof fn lemma_i256_range(a: I256)
    ensures
        i256_min() <= a@ < base() * base() / 2,
        a@ == i256_min() <==> (a.hi == i128::MIN && a.lo == 0),
{
    assert(base() * base() / 2 == 0x8000_0000_0000_0000_0000_0000_0000_0000nat * base()) by (nonlinear_arith);
    assert(a.hi as int * base() >= i128::MIN as int * base()) by (nonlinear_arith)
        requires
            a.hi >= i128::MIN,
    ;
    assert(a.hi as int * base() <= i128::MAX as int * base()) by (nonlinear_arith)
        requires
            a.hi <= i128::MAX,
    ;
    if a.hi > i128::MIN {
        assert(a.hi as int * base() >= (i128::MIN as int + 1) * base()) by (nonlinear_arith)
            requires
                a.hi >= i128::MIN + 1,
        ;
    }
}

impl I256 {
    /// The value `v`.
    pub fn from_i128(v: i128) -> (r: I256)
        ensures
            r@ == v,
    {
        if v >= 0 {
            I256 { hi: 0, lo: v as u128 }
        } else {
            I256 { hi: -1, lo: ((v - i128::MIN) as u128) + 0x8000_0000_0000_0000_0000_0000_0000_0000 }
        }
    }

    /// The value `v`.
    pub fn from_i32(v: i32) -> (r: I256)
        ensures
            r@ == v,
    {
        I256::from_i128(v as i128)
    }

    /// Whether the value is above zero.
    pub fn is_positive(&self) -> (r: bool)
        ensures
            r == (self@ > 0),
    {
        self.hi > 0 || (self.hi == 0 && self.lo > 0)
    }

    /// Whether the value is below zero.
    pub fn is_negative(&self) -> (r: bool)
        ensures
            r == (self@ < 0),
    {
        assert(self.hi < 0 ==> self.hi as int * base() <= -(base() as int)) by (nonlinear_arith)
            requires
                self.hi < 0 ==> self.hi <= -1,
        ;
        assert(self.hi > 0 ==> self.hi as int * base() >= base()) by (nonlinear_arith)
            requires
                self.hi > 0 ==> self.hi >= 1,
        ;
        self.hi < 0
    }

    /// `0 - self`; the one value without a negation, -2^255, is excluded.
    pub fn neg(&self) -> (r: I256)
        requires
            self@ != i256_min(),
        ensures
            r@ == -self@,
    {
        proof {
            lemma_i256_range(*self);
        }
        if self.lo == 0 {
            I256 { hi: -self.hi, lo: 0 }
        } else {
            let hi = if self.hi == i128::MIN { i128::MAX } else { -self.hi - 1 };
            I256 { hi, lo: (u128::MAX - self.lo) + 1 }
        }
    }

    /// The value as an `i128`, when it fits.
    pub fn to_i128(&self) -> (r: Option<i128>)
        ensures
            r is Some <==> i128::MIN <= self@ <= i128::MAX,
            r matches Some(v) ==> v == self@,
    {
        proof {
            assert(self.hi >= 1 ==> self.hi as int * base() >= base()) by (nonlinear_arith);
            assert(self.hi <= -2 ==> self.hi as int * base() <= -2 * base()) by (nonlinear_arith);
        }
        if self.hi == 0 && self.lo <= 0x7fff_ffff_ffff_ffff_ffff_ffff_ffff_ffff {
            Some(self.lo as i128)
        } else if self.hi == -1 && self.lo >= 0x8000_0000_0000_0000_0000_0000_0000_0000 {
            Some(((self.lo - 0x8000_0000_0000_0000_0000_0000_0000_0000) as i128) + i128::MIN)
        } else {
            None
        }
    }

    /// The absolute value; the one value without one, -2^255, is excluded.
    pub fn abs_u256(&self) -> (r: U256)
        requires
            self@ != i256_min(),
        ensures
            r@ == if self@ >= 0 { self@ } else { -self@ },
    {
        let v = if self.is_negative() { self.neg() } else { *self };
        proof {
            assert(v.hi < 0 ==> v.hi as int * base() <= -(base() as int)) by (nonlinear_arith)
                requires
                    v.hi < 0 ==> v.hi <= -1,
            ;
        }
        U256 { hi: v.hi as u128, lo: v.lo }
    }
}

} // verus!
