//! Greatest common divisors, and directions in lowest terms.
//!
//! A direction of the lattice has no unit vector unless it lies along an
//! axis. What stands for its unit vector is the shortest lattice vector
//! that points the same way: the vector divided by the greatest common
//! divisor of its components.
use crate::math::WideVector;
use crate::math::isometry::Int3;
use vstd::arithmetic::div_mod::lemma_fundamental_div_mod_converse;
use vstd::prelude::*;

verus! {

/// The greatest common divisor of `a` and `b`; that of zero and zero is zero.
pub open spec fn gcd(a: nat, b: nat) -> nat
    decreases b,
{
    if b == 0 {
        a
    } else {
        gcd(b, a % b)
    }
}

/// The size of `x`.
pub open spec fn magnitude(x: int) -> nat {
    if x < 0 {
        (-x) as nat
    } else {
        x as nat
    }
}

/// The greatest common divisor of the three components of `v`.
pub open spec fn gcd3(v: Int3) -> nat {
    gcd(gcd(magnitude(v.x), magnitude(v.y)), magnitude(v.z))
}

/// `x` divided by the positive number `g`, rounded towards zero.
pub open spec fn shrunk(x: int, g: int) -> int {
    if x < 0 {
        -((-x) / g)
    } else {
        x / g
    }
}

/// The vector in lowest terms: the shortest lattice vector that points the
/// way of `v`; the zero vector for the zero vector.
pub open spec fn reduced(v: Int3) -> Int3 {
    let g = gcd3(v) as int;
    if g == 0 {
        v
    } else {
        Int3 { x: shrunk(v.x, g), y: shrunk(v.y, g), z: shrunk(v.z, g) }
    }
}

/// A multiple of a positive number leaves no remainder, and divided by the
/// number it gives the factor.
pub proof fn lemma_multiple(k: int, g: int)
    requires
        g > 0,
    ensures
        (k * g) % g == 0,
        (k * g) / g == k,
{
    lemma_fundamental_div_mod_converse(k * g, g, k, 0);
}

/// A number that leaves no remainder is a multiple.
pub proof fn lemma_no_remainder(n: int, g: int)
    requires
        g > 0,
        n % g == 0,
    ensures
        n == (n / g) * g,
{
    vstd::arithmetic::div_mod::lemma_fundamental_div_mod(n, g);
    assert(g * (n / g) == (n / g) * g) by (nonlinear_arith);
}

/// The greatest common divisor with zero is the other number.
pub proof fn lemma_gcd_with_zero(a: nat)
    ensures
        gcd(a, 0) == a,
        gcd(0, a) == a,
{
    if a > 0 {
        lemma_fundamental_div_mod_converse(0, a as int, 0, 0);
        assert(gcd(0, a) == gcd(a, 0nat % a));
    }
}

/// The greatest common divisor of two numbers that are not both zero is
/// positive and divides both.
pub proof fn lemma_gcd_divides(a: nat, b: nat)
    ensures
        a > 0 || b > 0 ==> gcd(a, b) > 0,
        gcd(a, b) > 0 ==> a % gcd(a, b) == 0 && b % gcd(a, b) == 0,
        a == 0 && b == 0 ==> gcd(a, b) == 0,
    decreases b,
{
    if b == 0 {
        if a > 0 {
            lemma_multiple(1, a as int);
            lemma_multiple(0, a as int);
        }
    } else {
        let r = a % b;
        let q = a / b;
        vstd::arithmetic::div_mod::lemma_mod_bound(a as int, b as int);
        vstd::arithmetic::div_mod::lemma_fundamental_div_mod(a as int, b as int);
        lemma_gcd_divides(b, r);
        let g = gcd(b, r) as int;
        lemma_no_remainder(b as int, g);
        lemma_no_remainder(r as int, g);
        let kb = (b as int) / g;
        let kr = (r as int) / g;
        assert(a == (kb * q + kr) * g) by (nonlinear_arith)
            requires
                a == b * q + r,
                b == kb * g,
                r == kr * g,
        ;
        lemma_multiple(kb * q + kr, g);
    }
}

/// Whatever divides two numbers divides their greatest common divisor.
pub proof fn lemma_gcd_is_greatest(a: nat, b: nat, d: nat)
    requires
        d > 0,
        a % d == 0,
        b % d == 0,
    ensures
        gcd(a, b) % d == 0,
    decreases b,
{
    if b != 0 {
        let r = a % b;
        let q = a / b;
        vstd::arithmetic::div_mod::lemma_mod_bound(a as int, b as int);
        vstd::arithmetic::div_mod::lemma_fundamental_div_mod(a as int, b as int);
        lemma_no_remainder(a as int, d as int);
        lemma_no_remainder(b as int, d as int);
        let ka = (a as int) / (d as int);
        let kb = (b as int) / (d as int);
        assert(r == (ka - kb * q) * d) by (nonlinear_arith)
            requires
                a == b * q + r,
                a == ka * d,
                b == kb * d,
        ;
        lemma_multiple(ka - kb * q, d as int);
        lemma_gcd_is_greatest(b, r, d);
    }
}

/// The greatest common divisor of the multiples of two numbers by `k` is
/// the multiple by `k` of their greatest common divisor.
pub proof fn lemma_gcd_scales(k: nat, a: nat, b: nat)
    requires
        k > 0,
    ensures
        gcd(k * a, k * b) == k * gcd(a, b),
    decreases b,
{
    if b == 0 {
        assert(k * b == 0) by (nonlinear_arith)
            requires
                b == 0,
        ;
    } else {
        let r = a % b;
        let q = a / b;
        vstd::arithmetic::div_mod::lemma_mod_bound(a as int, b as int);
        vstd::arithmetic::div_mod::lemma_fundamental_div_mod(a as int, b as int);
        assert(k * a == q * (k * b) + k * r && 0 <= k * r < k * b && k * b > 0) by (nonlinear_arith)
            requires
                a == b * q + r,
                0 <= r < b,
                k > 0,
        ;
        lemma_fundamental_div_mod_converse((k * a) as int, (k * b) as int, q as int, (k * r) as int);
        assert((k * a) % (k * b) == k * r);
        lemma_gcd_scales(k, b, r);
    }
}

/// A vector that is not zero is its vector in lowest terms taken as many
/// times as the greatest common divisor of its components says, and the
/// components of the vector in lowest terms have no common divisor but one.
pub proof fn lemma_reduced(v: Int3)
    requires
        v.x != 0 || v.y != 0 || v.z != 0,
    ensures
        gcd3(v) >= 1,
        reduced(v).x * gcd3(v) == v.x,
        reduced(v).y * gcd3(v) == v.y,
        reduced(v).z * gcd3(v) == v.z,
        gcd3(reduced(v)) == 1,
        magnitude(reduced(v).x) <= magnitude(v.x),
        magnitude(reduced(v).y) <= magnitude(v.y),
        magnitude(reduced(v).z) <= magnitude(v.z),
{
    let ax = magnitude(v.x);
    let ay = magnitude(v.y);
    let az = magnitude(v.z);
    let h = gcd(ax, ay);
    let g = gcd(h, az);
    lemma_gcd_divides(ax, ay);
    lemma_gcd_divides(h, az);
    assert(g >= 1);
    let gi = g as int;
    // The divisor of the first two divides each of them.
    if h > 0 {
        lemma_no_remainder(h as int, gi);
        lemma_no_remainder(ax as int, h as int);
        lemma_no_remainder(ay as int, h as int);
        let kh = (h as int) / gi;
        let kx = (ax as int) / (h as int);
        let ky = (ay as int) / (h as int);
        assert(ax == (kx * kh) * gi && ay == (ky * kh) * gi) by (nonlinear_arith)
            requires
                h == kh * gi,
                ax == kx * h,
                ay == ky * h,
        ;
        lemma_multiple(kx * kh, gi);
        lemma_multiple(ky * kh, gi);
    } else {
        lemma_multiple(0, gi);
    }
    lemma_no_remainder(ax as int, gi);
    lemma_no_remainder(ay as int, gi);
    lemma_no_remainder(az as int, gi);
    let px = (ax as int) / gi;
    let py = (ay as int) / gi;
    let pz = (az as int) / gi;
    assert(px >= 0 && py >= 0 && pz >= 0 && px <= ax && py <= ay && pz <= az) by (nonlinear_arith)
        requires
            ax == px * gi,
            ay == py * gi,
            az == pz * gi,
            gi >= 1,
            ax >= 0,
            ay >= 0,
            az >= 0,
    ;
    let p = reduced(v);
    assert(magnitude(p.x) == px && magnitude(p.y) == py && magnitude(p.z) == pz);
    assert(p.x * gi == v.x && p.y * gi == v.y && p.z * gi == v.z) by (nonlinear_arith)
        requires
            ax == px * gi,
            ay == py * gi,
            az == pz * gi,
            p.x == (if v.x < 0 {
                -px
            } else {
                px
            }),
            p.y == (if v.y < 0 {
                -py
            } else {
                py
            }),
            p.z == (if v.z < 0 {
                -pz
            } else {
                pz
            }),
            ax == (if v.x < 0 {
                -v.x
            } else {
                v.x
            }),
            ay == (if v.y < 0 {
                -v.y
            } else {
                v.y
            }),
            az == (if v.z < 0 {
                -v.z
            } else {
                v.z
            }),
    ;
    // The divisor of the multiples is the multiple of the divisor.
    lemma_gcd_scales(g, px as nat, py as nat);
    lemma_gcd_scales(g, gcd(px as nat, py as nat), pz as nat);
    assert(g * (px as nat) == ax && g * (py as nat) == ay && g * (pz as nat) == az) by (nonlinear_arith)
        requires
            ax == px * gi,
            ay == py * gi,
            az == pz * gi,
            gi == g,
            px >= 0,
            py >= 0,
            pz >= 0,
    ;
    let one = gcd(gcd(px as nat, py as nat), pz as nat);
    assert(g == g * one);
    assert(one == 1) by (nonlinear_arith)
        requires
            g == g * one,
            g >= 1,
    ;
}

/// A vector along an axis is the unit vector of the axis in lowest terms.
pub proof fn lemma_reduced_on_axis(v: Int3)
    requires
        (v.x != 0 && v.y == 0 && v.z == 0) || (v.x == 0 && v.y != 0 && v.z == 0) || (v.x == 0 && v.y
            == 0 && v.z != 0),
    ensures
        magnitude(reduced(v).x) + magnitude(reduced(v).y) + magnitude(reduced(v).z) == 1,
        (v.x > 0) == (reduced(v).x > 0),
        (v.y > 0) == (reduced(v).y > 0),
        (v.z > 0) == (reduced(v).z > 0),
        (v.x < 0) == (reduced(v).x < 0),
        (v.y < 0) == (reduced(v).y < 0),
        (v.z < 0) == (reduced(v).z < 0),
{
    let ax = magnitude(v.x);
    let ay = magnitude(v.y);
    let az = magnitude(v.z);
    lemma_gcd_with_zero(ax);
    lemma_gcd_with_zero(ay);
    lemma_gcd_with_zero(az);
    let g = gcd3(v) as int;
    assert(g == ax + ay + az);
    lemma_multiple(1, g);
    lemma_multiple(0, g);
}

/// The greatest common divisor of `a` and `b`.
pub fn greatest_common_divisor(a: u64, b: u64) -> (r: u64)
    ensures
        r == gcd(a as nat, b as nat),
{
    let mut x: u64 = a;
    let mut y: u64 = b;
    while y != 0
        invariant
            gcd(x as nat, y as nat) == gcd(a as nat, b as nat),
        decreases y,
    {
        let t: u64 = x % y;
        x = y;
        y = t;
    }
    x
}

fn size_of(x: i64) -> (r: u64)
    requires
        x > i64::MIN,
    ensures
        r == magnitude(x as int),
{
    if x < 0 {
        (-x) as u64
    } else {
        x as u64
    }
}

fn shrink(x: i64, g: u64) -> (r: i64)
    requires
        x > i64::MIN,
        g > 0,
    ensures
        r == shrunk(x as int, g as int),
{
    let q: u64 = size_of(x) / g;
    proof {
        assert(magnitude(x as int) / (g as nat) <= magnitude(x as int)) by (nonlinear_arith)
            requires
                g > 0,
        ;
    }
    if x < 0 {
        -(q as i64)
    } else {
        q as i64
    }
}

impl WideVector {
    /// The vector in lowest terms: the shortest lattice vector that points
    /// the same way. Along an axis it is the unit vector.
    pub fn reduced(&self) -> (r: WideVector)
        requires
            self.negatable(),
        ensures
            Int3::of_wide(r) == reduced(Int3::of_wide(*self)),
            r.negatable(),
    {
        let g = greatest_common_divisor(
            greatest_common_divisor(size_of(self.x), size_of(self.y)),
            size_of(self.z),
        );
        if g == 0 {
            *self
        } else {
            WideVector { x: shrink(self.x, g), y: shrink(self.y, g), z: shrink(self.z, g) }
        }
    }
}

} // verus!
