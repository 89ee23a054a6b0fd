//! Exact scalars: fractions of 64-bit integers, with one point at infinity.
use vstd::prelude::*;

verus! {

/// The fraction `num / den`, or positive infinity when `den` is zero.
///
/// Two scalars with proportional parts denote the same number; the order and
/// the equivalence below compare the numbers, not the representations.
#[derive(Clone, Copy, Debug)]
pub struct Scalar {
    pub num: i64,
    pub den: i64,
}

/// A point or vector whose coordinates are scalars.
#[derive(Clone, Copy, Debug)]
pub struct Scalar3 {
    pub x: Scalar,
    pub y: Scalar,
    pub z: Scalar,
}

/// `an / ad <= bn / bd` for non-negative denominators, by cross-multiplication.
pub open spec fn frac_le(an: int, ad: int, bn: int, bd: int) -> bool {
    an * bd <= bn * ad
}

/// A numerator and denominator that denote a number or positive infinity.
pub open spec fn frac_wf(n: int, d: int) -> bool {
    d > 0 || (d == 0 && n == 1)
}

/// The order of fractions is transitive.
pub proof fn lemma_frac_le_trans(an: int, ad: int, bn: int, bd: int, cn: int, cd: int)
    requires
        frac_wf(an, ad),
        frac_wf(bn, bd),
        frac_wf(cn, cd),
        frac_le(an, ad, bn, bd),
        frac_le(bn, bd, cn, cd),
    ensures
        frac_le(an, ad, cn, cd),
{
    if bd == 0 {
        assert(bn * cd == cd) by (nonlinear_arith)
            requires
                bn == 1,
        ;
        assert(cn * bd == 0) by (nonlinear_arith)
            requires
                bd == 0,
        ;
        assert(cd == 0);
        assert(an * cd == 0) by (nonlinear_arith)
            requires
                cd == 0,
        ;
        assert(cn * ad == ad) by (nonlinear_arith)
            requires
                cn == 1,
        ;
    } else {
        assert(an * cd <= cn * ad) by (nonlinear_arith)
            requires
                an * bd <= bn * ad,
                bn * cd <= cn * bd,
                bd > 0,
                ad >= 0,
                cd >= 0,
        {
            assert((an * bd) * cd <= (bn * ad) * cd);
            assert((bn * cd) * ad <= (cn * bd) * ad);
            assert((an * cd) * bd <= (cn * ad) * bd);
        }
    }
}

impl Scalar {
    /// Whether the parts denote a number or positive infinity.
    pub open spec fn wf(self) -> bool {
        frac_wf(self.num as int, self.den as int)
    }

    pub open spec fn is_finite_spec(self) -> bool {
        self.den > 0
    }

    /// `self <= o` as numbers.
    pub open spec fn le(self, o: Scalar) -> bool {
        frac_le(self.num as int, self.den as int, o.num as int, o.den as int)
    }

    /// `self < o` as numbers.
    pub open spec fn lt(self, o: Scalar) -> bool {
        self.num * o.den < o.num * self.den
    }

    /// `self` and `o` denote the same number.
    pub open spec fn eqv(self, o: Scalar) -> bool {
        self.num * o.den == o.num * self.den
    }

    /// The order is transitive.
    pub proof fn lemma_le_trans(a: Scalar, b: Scalar, c: Scalar)
        requires
            a.wf(),
            b.wf(),
            c.wf(),
            a.le(b),
            b.le(c),
        ensures
            a.le(c),
    {
        lemma_frac_le_trans(
            a.num as int,
            a.den as int,
            b.num as int,
            b.den as int,
            c.num as int,
            c.den as int,
        );
    }

    /// The fraction `num / den`.
    pub fn new(num: i64, den: i64) -> (r: Scalar)
        requires
            den > 0,
        ensures
            r == (Scalar { num, den }),
            r.wf(),
    {
        Scalar { num, den }
    }

    /// The whole number `v`.
    pub fn from_int(v: i64) -> (r: Scalar)
        ensures
            r == (Scalar { num: v, den: 1 }),
            r.wf(),
    {
        Scalar { num: v, den: 1 }
    }

    pub fn zero() -> (r: Scalar)
        ensures
            r == (Scalar { num: 0, den: 1 }),
            r.wf(),
    {
        Scalar { num: 0, den: 1 }
    }

    /// Positive infinity, above every number.
    pub fn infinity() -> (r: Scalar)
        ensures
            r == (Scalar { num: 1, den: 0 }),
            r.wf(),
    {
        Scalar { num: 1, den: 0 }
    }

    pub fn is_finite(&self) -> (r: bool)
        ensures
            r == self.is_finite_spec(),
    {
        self.den > 0
    }

    /// `self <= o` as numbers.
    pub fn leq(&self, o: &Scalar) -> (r: bool)
        requires
            self.den >= 0,
            o.den >= 0,
        ensures
            r == self.le(*o),
    {
        let an: i128 = self.num as i128;
        let ad: i128 = self.den as i128;
        let bn: i128 = o.num as i128;
        let bd: i128 = o.den as i128;
        proof {
            lemma_product_fits(an as int, bd as int);
            lemma_product_fits(bn as int, ad as int);
        }
        an * bd <= bn * ad
    }

    /// `self < o` as numbers.
    pub fn less(&self, o: &Scalar) -> (r: bool)
        requires
            self.den >= 0,
            o.den >= 0,
        ensures
            r == self.lt(*o),
    {
        let an: i128 = self.num as i128;
        let ad: i128 = self.den as i128;
        let bn: i128 = o.num as i128;
        let bd: i128 = o.den as i128;
        proof {
            lemma_product_fits(an as int, bd as int);
            lemma_product_fits(bn as int, ad as int);
        }
        an * bd < bn * ad
    }

    /// Whether the two scalars denote the same number.
    pub fn same(&self, o: &Scalar) -> (r: bool)
        requires
            self.den >= 0,
            o.den >= 0,
        ensures
            r == self.eqv(*o),
    {
        let an: i128 = self.num as i128;
        let ad: i128 = self.den as i128;
        let bn: i128 = o.num as i128;
        let bd: i128 = o.den as i128;
        proof {
            lemma_product_fits(an as int, bd as int);
            lemma_product_fits(bn as int, ad as int);
        }
        an * bd == bn * ad
    }

    /// Whether the scalar denotes zero.
    pub fn is_zero(&self) -> (r: bool)
        ensures
            r == (self.num == 0),
    {
        self.num == 0
    }
}

/// The product of two 64-bit values fits in 128 bits.
pub proof fn lemma_product_fits(a: int, b: int)
    requires
        -0x8000_0000_0000_0000 <= a <= 0x8000_0000_0000_0000,
        -0x8000_0000_0000_0000 <= b <= 0x8000_0000_0000_0000,
    ensures
        -0x4000_0000_0000_0000_0000_0000_0000_0000 <= a * b
            <= 0x4000_0000_0000_0000_0000_0000_0000_0000,
{
    assert(-0x4000_0000_0000_0000_0000_0000_0000_0000 <= a * b
        <= 0x4000_0000_0000_0000_0000_0000_0000_0000) by (nonlinear_arith)
        requires
            -0x8000_0000_0000_0000 <= a <= 0x8000_0000_0000_0000,
            -0x8000_0000_0000_0000 <= b <= 0x8000_0000_0000_0000,
    ;
}

/// The integer square root of `x`, rounded down: found by halving the
/// range that holds it.
pub fn isqrt(x: u128) -> (r: u128)
    ensures
        r * r <= x < (r + 1) * (r + 1),
{
    let mut lo: u128 = 0;
    let mut hi: u128 = 0x1_0000_0000_0000_0000;
    while hi - lo > 1
        invariant
            lo < hi <= 0x1_0000_0000_0000_0000,
            lo * lo <= x,
            hi == 0x1_0000_0000_0000_0000 || x < hi * hi,
        decreases hi - lo,
    {
        let mid: u128 = lo + (hi - lo) / 2;
        assert(mid * mid <= 0xffff_ffff_ffff_ffff_ffff_ffff_ffff_ffff) by (nonlinear_arith)
            requires
                0 <= mid <= 0xffff_ffff_ffff_ffff,
        ;
        if mid * mid <= x {
            lo = mid;
        } else {
            hi = mid;
        }
    }
    proof {
        if hi == 0x1_0000_0000_0000_0000 {
            assert((lo + 1) * (lo + 1) == 0x1_0000_0000_0000_0000_0000_0000_0000_0000) by (nonlinear_arith)
                requires
                    lo + 1 == 0x1_0000_0000_0000_0000,
            ;
        }
    }
    lo
}

/// Whether `a * b <= c * d`, for factors whose products need not fit in
/// 128 bits.
///
/// Calls `num::BigInt`: the four factors are converted with `BigInt::from`,
/// multiplied and compared. `num` documents `BigInt` as a signed integer of
/// arbitrary size, so the products and the comparison are exact. The claim
/// is taken from that documentation and is not proved here.
#[verifier::external_body]
pub(crate) fn product_le(a: i128, b: i128, c: i128, d: i128) -> (r: bool)
    ensures
        r == (a * b <= c * d),
{
    num::BigInt::from(a) * num::BigInt::from(b) <= num::BigInt::from(c) * num::BigInt::from(d)
}

} // verus!
