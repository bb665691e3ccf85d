//! Exact arithmetic for the geometry: ratios of integers, and the products of
//! integer vectors computed in 128 bits with a proof that nothing overflows.
//!
//! Points and directions live on an integer lattice. Every quantity that the
//! intersection tests derive from them is an integer, or a ratio of two, and
//! is computed without rounding.
use crate::algebra::{
    bounded, cross, dot, lemma_product_bounded, minus, plus, scaled,
};
use crate::math::{Vector2, Vector3};
use vstd::prelude::*;

verus! {

/// The greatest absolute value of a coordinate of a point of the lattice, of a
/// component of a vertex normal and of a texture coordinate.
pub const LIMIT: i64 = 8192;

/// The greatest absolute value of a component of the direction of a ray: the
/// difference of two points of the lattice always qualifies.
pub const SLOPE_LIMIT: i64 = 16384;

/// A ratio of two integers with a positive denominator.
#[derive(Clone, Copy, Debug, PartialEq, Eq, Structural)]
pub struct Ratio {
    pub num: i64,
    pub den: i64,
}

/// The ratio of two integers as a real number.
pub open spec fn ratio_of(num: int, den: int) -> real {
    num as real / den as real
}

/// Ratios with positive denominators compare as their cross products do.
pub proof fn lemma_ratio_order(a: int, b: int, c: int, d: int)
    requires
        b > 0,
        d > 0,
    ensures
        ratio_of(a, b) < ratio_of(c, d) <==> a * d < c * b,
        ratio_of(a, b) <= ratio_of(c, d) <==> a * d <= c * b,
        ratio_of(a, b) == ratio_of(c, d) <==> a * d == c * b,
{
    let ar = a as real;
    let br = b as real;
    let cr = c as real;
    let dr = d as real;
    assert((a * d) as real == ar * dr) by (nonlinear_arith)
        requires
            ar == a as real,
            dr == d as real,
    ;
    assert((c * b) as real == cr * br) by (nonlinear_arith)
        requires
            cr == c as real,
            br == b as real,
    ;
    assert(ar / br < cr / dr <==> ar * dr < cr * br) by (nonlinear_arith)
        requires
            br > 0real,
            dr > 0real,
    ;
    assert(ar / br <= cr / dr <==> ar * dr <= cr * br) by (nonlinear_arith)
        requires
            br > 0real,
            dr > 0real,
    ;
}

/// A ratio with a positive denominator has the sign of its numerator.
pub proof fn lemma_ratio_sign(a: int, b: int)
    requires
        b > 0,
    ensures
        ratio_of(a, b) < 0real <==> a < 0,
        ratio_of(a, b) == 0real <==> a == 0,
        ratio_of(a, b) > 0real <==> a > 0,
{
    let ar = a as real;
    let br = b as real;
    assert((ar / br < 0real <==> ar < 0real) && (ar / br == 0real <==> ar == 0real) && (ar / br
        > 0real <==> ar > 0real)) by (nonlinear_arith)
        requires
            br > 0real,
    ;
}

impl Ratio {
    /// The denominator is positive.
    pub open spec fn wf(&self) -> bool {
        self.den > 0
    }

    /// The real number that the ratio stands for.
    pub open spec fn val(&self) -> real {
        ratio_of(self.num as int, self.den as int)
    }

    /// The ratio `num / den`.
    pub fn new(num: i64, den: i64) -> (r: Ratio)
        requires
            den > 0,
        ensures
            r == (Ratio { num, den }),
            r.wf(),
    {
        Ratio { num, den }
    }

    /// The ratio that stands for an integer.
    pub fn from_integer(n: i64) -> (r: Ratio)
        ensures
            r == (Ratio { num: n, den: 1 }),
            r.wf(),
            r.val() == n as real,
    {
        proof {
            let x = n as real;
            assert(x / 1real == x) by (nonlinear_arith);
        }
        Ratio { num: n, den: 1 }
    }

    /// Whether `self` is strictly less than `other`.
    pub fn less_than(&self, other: &Ratio) -> (b: bool)
        requires
            self.wf(),
            other.wf(),
        ensures
            b == (self.val() < other.val()),
            b == (self.num * other.den < other.num * self.den),
    {
        proof {
            lemma_ratio_order(self.num as int, self.den as int, other.num as int, other.den as int);
            lemma_product_bounded(
                self.num as int,
                other.den as int,
                0x8000_0000_0000_0000,
                0x8000_0000_0000_0000,
            );
            lemma_product_bounded(
                other.num as int,
                self.den as int,
                0x8000_0000_0000_0000,
                0x8000_0000_0000_0000,
            );
        }
        (self.num as i128) * (other.den as i128) < (other.num as i128) * (self.den as i128)
    }

    /// Whether `self` is strictly greater than `other`.
    pub fn greater_than(&self, other: &Ratio) -> (b: bool)
        requires
            self.wf(),
            other.wf(),
        ensures
            b == (self.val() > other.val()),
            b == (self.num * other.den > other.num * self.den),
    {
        other.less_than(self)
    }

    /// Whether the two ratios stand for the same number.
    pub fn same_value(&self, other: &Ratio) -> (b: bool)
        requires
            self.wf(),
            other.wf(),
        ensures
            b == (self.val() == other.val()),
            b == (self.num * other.den == other.num * self.den),
    {
        proof {
            lemma_ratio_order(self.num as int, self.den as int, other.num as int, other.den as int);
            lemma_product_bounded(
                self.num as int,
                other.den as int,
                0x8000_0000_0000_0000,
                0x8000_0000_0000_0000,
            );
            lemma_product_bounded(
                other.num as int,
                self.den as int,
                0x8000_0000_0000_0000,
                0x8000_0000_0000_0000,
            );
        }
        (self.num as i128) * (other.den as i128) == (other.num as i128) * (self.den as i128)
    }

    /// Whether the ratio is negative.
    pub fn is_negative(&self) -> (b: bool)
        requires
            self.wf(),
        ensures
            b == (self.val() < 0real),
            b == (self.num < 0),
    {
        proof {
            lemma_ratio_sign(self.num as int, self.den as int);
        }
        self.num < 0
    }
}

/// The same vector with 128-bit components.
pub fn widen(v: &Vector3<i64>) -> (r: Vector3<i128>)
    ensures
        r@ == v@,
{
    Vector3 { x: v.x as i128, y: v.y as i128, z: v.z as i128 }
}

/// The same vector with 128-bit components.
pub fn widen2(v: &Vector2<i64>) -> (r: Vector2<i128>)
    ensures
        r@ == v@,
{
    Vector2 { x: v.x as i128, y: v.y as i128 }
}

/// The product of two integers, each within its bound.
pub(crate) fn product(a: i128, b: i128, Ghost(ma): Ghost<int>, Ghost(mb): Ghost<int>) -> (r: i128)
    requires
        -ma <= a <= ma,
        -mb <= b <= mb,
        ma * mb <= i128::MAX,
    ensures
        r == a * b,
        -(ma * mb) <= r <= ma * mb,
{
    proof {
        lemma_product_bounded(a as int, b as int, ma, mb);
    }
    a * b
}

/// The dot product of two vectors, each within its bound.
pub(crate) fn dot_product(
    a: &Vector3<i128>,
    b: &Vector3<i128>,
    Ghost(ma): Ghost<int>,
    Ghost(mb): Ghost<int>,
) -> (r: i128)
    requires
        bounded(a@, ma),
        bounded(b@, mb),
        3 * (ma * mb) <= i128::MAX,
    ensures
        r == dot(a@, b@),
        -(3 * (ma * mb)) <= r <= 3 * (ma * mb),
{
    proof {
        lemma_product_bounded(a.x as int, b.x as int, ma, mb);
        lemma_product_bounded(a.y as int, b.y as int, ma, mb);
        lemma_product_bounded(a.z as int, b.z as int, ma, mb);
    }
    a.x * b.x + a.y * b.y + a.z * b.z
}

/// The cross product of two vectors, each within its bound.
pub(crate) fn cross_product(
    a: &Vector3<i128>,
    b: &Vector3<i128>,
    Ghost(ma): Ghost<int>,
    Ghost(mb): Ghost<int>,
) -> (r: Vector3<i128>)
    requires
        bounded(a@, ma),
        bounded(b@, mb),
        2 * (ma * mb) <= i128::MAX,
    ensures
        r@ == cross(a@, b@),
        bounded(r@, 2 * (ma * mb)),
{
    proof {
        lemma_product_bounded(a.y as int, b.z as int, ma, mb);
        lemma_product_bounded(a.z as int, b.y as int, ma, mb);
        lemma_product_bounded(a.z as int, b.x as int, ma, mb);
        lemma_product_bounded(a.x as int, b.z as int, ma, mb);
        lemma_product_bounded(a.x as int, b.y as int, ma, mb);
        lemma_product_bounded(a.y as int, b.x as int, ma, mb);
    }
    Vector3 {
        x: a.y * b.z - a.z * b.y,
        y: a.z * b.x - a.x * b.z,
        z: a.x * b.y - a.y * b.x,
    }
}

/// The difference of two vectors, each within its bound.
pub(crate) fn difference(
    a: &Vector3<i128>,
    b: &Vector3<i128>,
    Ghost(ma): Ghost<int>,
    Ghost(mb): Ghost<int>,
) -> (r: Vector3<i128>)
    requires
        bounded(a@, ma),
        bounded(b@, mb),
        ma + mb <= i128::MAX,
    ensures
        r@ == minus(a@, b@),
        bounded(r@, ma + mb),
{
    Vector3 { x: a.x - b.x, y: a.y - b.y, z: a.z - b.z }
}

/// The sum of two vectors, each within its bound.
pub(crate) fn sum(
    a: &Vector3<i128>,
    b: &Vector3<i128>,
    Ghost(ma): Ghost<int>,
    Ghost(mb): Ghost<int>,
) -> (r: Vector3<i128>)
    requires
        bounded(a@, ma),
        bounded(b@, mb),
        ma + mb <= i128::MAX,
    ensures
        r@ == plus(a@, b@),
        bounded(r@, ma + mb),
{
    Vector3 { x: a.x + b.x, y: a.y + b.y, z: a.z + b.z }
}

/// The product of a vector by a scalar, each within its bound.
pub(crate) fn scale(a: &Vector3<i128>, k: i128, Ghost(ma): Ghost<int>, Ghost(mk): Ghost<int>) -> (r:
    Vector3<i128>)
    requires
        bounded(a@, ma),
        -mk <= k <= mk,
        ma * mk <= i128::MAX,
    ensures
        r@ == scaled(a@, k as int),
        bounded(r@, ma * mk),
{
    proof {
        lemma_product_bounded(a.x as int, k as int, ma, mk);
        lemma_product_bounded(a.y as int, k as int, ma, mk);
        lemma_product_bounded(a.z as int, k as int, ma, mk);
    }
    Vector3 { x: a.x * k, y: a.y * k, z: a.z * k }
}

/// `r` is the square root of `n`, rounded down.
pub open spec fn is_root_of(r: int, n: int) -> bool {
    0 <= r && r * r <= n < (r + 1) * (r + 1)
}

/// The square root of `n`, rounded down.
pub open spec fn root(n: u64) -> u64 {
    choose|r: u64| is_root_of(r as int, n as int)
}

/// A whole number whose square is at most `n`, where the square of the
/// next is more.
proof fn root_witness(n: nat) -> (r: nat)
    ensures
        r * r <= n < (r + 1) * (r + 1),
        r <= n,
    decreases n,
{
    if n == 0 {
        assert(0 * 0 == 0 && (0 + 1) * (0 + 1) == 1) by (nonlinear_arith);
        0
    } else {
        let r = root_witness((n - 1) as nat);
        let low = r * r;
        let mid = (r + 1) * (r + 1);
        let high = (r + 2) * (r + 2);
        assert(mid == low + 2 * r + 1 && high == mid + 2 * r + 3) by (nonlinear_arith)
            requires
                low == r * r,
                mid == (r + 1) * (r + 1),
                high == (r + 2) * (r + 2),
        ;
        if mid <= n {
            assert(r + 1 <= n) by (nonlinear_arith)
                requires
                    mid == (r + 1) * (r + 1),
                    mid <= n,
            ;
            assert((r + 1 + 1) * (r + 1 + 1) == high) by (nonlinear_arith)
                requires
                    high == (r + 2) * (r + 2),
            ;
            r + 1
        } else {
            r
        }
    }
}

/// Every number has a square root rounded down.
pub proof fn lemma_root_exists(n: u64)
    ensures
        is_root_of(root(n) as int, n as int),
{
    let r = root_witness(n as nat);
    assert(is_root_of((r as u64) as int, n as int));
}

/// A number has one square root rounded down, and no other.
pub proof fn lemma_root_unique(r: int, s: int, n: int)
    requires
        is_root_of(r, n),
        is_root_of(s, n),
    ensures
        r == s,
{
    if r < s {
        assert((r + 1) * (r + 1) <= s * s) by (nonlinear_arith)
            requires
                0 <= r,
                r + 1 <= s,
        ;
    } else if s < r {
        assert((s + 1) * (s + 1) <= r * r) by (nonlinear_arith)
            requires
                0 <= s,
                s + 1 <= r,
        ;
    }
}

/// The square root of `n`, rounded down: the Euclidean length of a vector
/// whose squared norm is `n`, to the unit.
pub fn integer_root(n: u64) -> (r: u64)
    ensures
        is_root_of(r as int, n as int),
        r == root(n),
        r <= 0xffff_ffff,
        n > 0 ==> r > 0,
{
    let mut low: u128 = 0;
    let mut high: u128 = 0x1_0000_0000;
    while high - low > 1
        invariant
            low < high <= 0x1_0000_0000,
            low * low <= n,
            n < high * high,
        decreases high - low,
    {
        let mid = low + (high - low) / 2;
        proof {
            assert(mid * mid <= 0x1_0000_0000 * 0x1_0000_0000) by (nonlinear_arith)
                requires
                    mid <= 0x1_0000_0000,
            ;
        }
        if mid * mid <= n as u128 {
            low = mid;
        } else {
            high = mid;
        }
    }
    proof {
        let r = low as u64;
        assert(is_root_of(r as int, n as int));
        lemma_root_unique(r as int, root(n) as int, n as int);
        if n > 0 && low == 0 {
            assert(high == 1);
        }
    }
    low as u64
}

/// The square root of a whole number of any size, rounded down.
pub open spec fn root_of(n: nat) -> nat {
    choose|r: nat| is_root_of(r as int, n as int)
}

/// Every whole number has a square root rounded down.
pub proof fn lemma_root_of(n: nat)
    ensures
        is_root_of(root_of(n) as int, n as int),
{
    let r = root_witness(n);
    assert(is_root_of(r as int, n as int));
}

/// The square root rounded down of a number below the square of `m` is
/// below `m`.
pub proof fn lemma_root_below(r: int, n: int, m: int)
    requires
        is_root_of(r, n),
        0 <= m,
        n < m * m,
    ensures
        r < m,
{
    if r >= m {
        assert(r * r >= m * m) by (nonlinear_arith)
            requires
                r >= m,
                m >= 0,
        ;
    }
}

/// The square root of `n`, rounded down, for a number of up to 126 bits.
pub fn long_root(n: u128) -> (r: u128)
    requires
        n < 0x4000_0000_0000_0000_0000_0000_0000_0000,
    ensures
        is_root_of(r as int, n as int),
        r == root_of(n as nat),
        r < 0x8000_0000_0000_0000,
        n > 0 ==> r > 0,
{
    let mut low: u128 = 0;
    let mut high: u128 = 0x8000_0000_0000_0000;
    while high - low > 1
        invariant
            low < high <= 0x8000_0000_0000_0000,
            low * low <= n,
            n < high * high,
        decreases high - low,
    {
        let mid = low + (high - low) / 2;
        proof {
            assert(mid * mid <= 0x8000_0000_0000_0000 * 0x8000_0000_0000_0000) by (nonlinear_arith)
                requires
                    mid <= 0x8000_0000_0000_0000,
            ;
        }
        if mid * mid <= n {
            low = mid;
        } else {
            high = mid;
        }
    }
    proof {
        assert(is_root_of(low as int, n as int));
        lemma_root_of(n as nat);
        lemma_root_unique(low as int, root_of(n as nat) as int, n as int);
        if n > 0 && low == 0 {
            assert(high == 1);
        }
    }
    low
}

/// The squared norm of a vector within a bound of at most 2^30.
pub(crate) fn squared_norm(a: &Vector3<i128>, Ghost(ma): Ghost<int>) -> (r: u64)
    requires
        bounded(a@, ma),
        0 <= ma <= 0x4000_0000,
    ensures
        r == crate::algebra::norm_squared(a@),
{
    proof {
        lemma_product_bounded(a.x as int, a.x as int, ma, ma);
        lemma_product_bounded(a.y as int, a.y as int, ma, ma);
        lemma_product_bounded(a.z as int, a.z as int, ma, ma);
        assert(ma * ma <= 0x4000_0000 * 0x4000_0000) by (nonlinear_arith)
            requires
                0 <= ma <= 0x4000_0000,
        ;
        crate::algebra::lemma_norm_nonnegative(a@);
        assert(a.x * a.x >= 0 && a.y * a.y >= 0 && a.z * a.z >= 0) by (nonlinear_arith);
    }
    (a.x * a.x + a.y * a.y + a.z * a.z) as u64
}

/// The quotient of `a` by a positive `b`, rounded toward zero.
pub open spec fn quotient_toward_zero(a: int, b: int) -> int {
    if a >= 0 {
        a / b
    } else {
        -((-a) / b)
    }
}

/// The quotient of `a` by a positive `b`, rounded toward zero.
pub fn divide_toward_zero(a: i128, b: i128) -> (r: i128)
    requires
        b > 0,
        a > i128::MIN,
    ensures
        r == quotient_toward_zero(a as int, b as int),
        a >= 0 ==> 0 <= r <= a,
        a <= 0 ==> a <= r <= 0,
{
    if a >= 0 {
        proof {
            assert(0 <= a as int / b as int <= a) by (nonlinear_arith)
                requires
                    a >= 0,
                    b > 0,
            ;
        }
        a / b
    } else {
        proof {
            assert(0 <= (-a) as int / b as int <= -a) by (nonlinear_arith)
                requires
                    -a >= 0,
                    b > 0,
            ;
        }
        -((-a) / b)
    }
}

/// The quotient toward zero of a number within `m` of zero, by a divisor of
/// at least one, is within `m` of zero.
pub proof fn lemma_quotient_bounded(a: int, b: int, m: int)
    requires
        b >= 1,
        -m <= a <= m,
    ensures
        -m <= quotient_toward_zero(a, b) <= m,
{
    if a >= 0 {
        assert(0 <= a / b <= a) by (nonlinear_arith)
            requires
                a >= 0,
                b >= 1,
        ;
    } else {
        assert(0 <= (-a) / b <= -a) by (nonlinear_arith)
            requires
                -a >= 0,
                b >= 1,
        ;
    }
}

/// A quotient rounded toward zero, times the divisor, is less than the
/// divisor away from the dividend.
pub proof fn lemma_quotient_near(a: int, b: int)
    requires
        b >= 1,
    ensures
        -(b - 1) <= b * quotient_toward_zero(a, b) - a <= b - 1,
{
    let m = if a >= 0 { a } else { -a };
    vstd::arithmetic::div_mod::lemma_fundamental_div_mod(m, b);
    vstd::arithmetic::div_mod::lemma_mod_bound(m, b);
    if a < 0 {
        assert(b * (-(m / b)) == -(b * (m / b))) by (nonlinear_arith);
    }
}

/// The quotient of `a` by a positive `b`, rounded to the nearest whole
/// number; a half is rounded away from zero.
pub open spec fn quotient_nearest(a: int, b: int) -> int {
    if a >= 0 {
        (2 * a + b) / (2 * b)
    } else {
        -((2 * (-a) + b) / (2 * b))
    }
}

/// The nearest quotient is at most half a unit from the true one, and no
/// farther from zero than the dividend.
pub proof fn lemma_quotient_nearest(a: int, b: int)
    requires
        b >= 1,
    ensures
        -b <= 2 * (quotient_nearest(a, b) * b - a) <= b,
        a >= 0 ==> 0 <= quotient_nearest(a, b) <= a,
        a <= 0 ==> a <= quotient_nearest(a, b) <= 0,
{
    let m = if a >= 0 { a } else { -a };
    let q = (2 * m + b) / (2 * b);
    vstd::arithmetic::div_mod::lemma_fundamental_div_mod(2 * m + b, 2 * b);
    vstd::arithmetic::div_mod::lemma_mod_bound(2 * m + b, 2 * b);
    assert(2 * b * q == 2 * (q * b)) by (nonlinear_arith);
    assert(0 <= q <= m) by (nonlinear_arith)
        requires
            b >= 1,
            m >= 0,
            2 * (q * b) <= 2 * m + b,
            2 * m + b < 2 * (q * b) + 2 * b,
    ;
    if a < 0 {
        assert((-q) * b == -(q * b)) by (nonlinear_arith);
    }
}

/// The quotient of `a` by a positive `b`, rounded to the nearest whole
/// number.
pub fn divide_nearest(a: i128, b: i128) -> (r: i128)
    requires
        0 < b <= 0x1fff_ffff_ffff_ffff_ffff_ffff_ffff_ffff,
        -0x1fff_ffff_ffff_ffff_ffff_ffff_ffff_ffff <= a <= 0x1fff_ffff_ffff_ffff_ffff_ffff_ffff_ffff,
    ensures
        r == quotient_nearest(a as int, b as int),
        a >= 0 ==> 0 <= r <= a,
        a <= 0 ==> a <= r <= 0,
{
    proof {
        lemma_quotient_nearest(a as int, b as int);
    }
    if a >= 0 {
        (2 * a + b) / (2 * b)
    } else {
        -((2 * (-a) + b) / (2 * b))
    }
}

/// Each component of a vector divided by a positive number, rounded to the
/// nearest whole number.
pub open spec fn rounded(a: Vector3<int>, b: int) -> Vector3<int> {
    Vector3 {
        x: quotient_nearest(a.x, b),
        y: quotient_nearest(a.y, b),
        z: quotient_nearest(a.z, b),
    }
}

/// Each component of a vector divided by a positive number, rounded to the
/// nearest whole number.
pub(crate) fn round(a: &Vector3<i128>, b: i128, Ghost(ma): Ghost<int>) -> (r: Vector3<i128>)
    requires
        0 < b <= 0x1fff_ffff_ffff_ffff_ffff_ffff_ffff_ffff,
        bounded(a@, ma),
        ma <= 0x1fff_ffff_ffff_ffff_ffff_ffff_ffff_ffff,
    ensures
        r@ == rounded(a@, b as int),
        bounded(r@, ma),
{
    Vector3 { x: divide_nearest(a.x, b), y: divide_nearest(a.y, b), z: divide_nearest(a.z, b) }
}

/// Each component of a vector divided by a positive number, rounded toward
/// zero.
pub(crate) fn shrink(a: &Vector3<i128>, b: i128, Ghost(ma): Ghost<int>) -> (r: Vector3<i128>)
    requires
        b > 0,
        bounded(a@, ma),
        ma < 0x7fff_ffff_ffff_ffff_ffff_ffff_ffff_ffff,
    ensures
        r@ == shrunk(a@, b as int),
        bounded(r@, ma),
{
    proof {
        lemma_quotient_bounded(a.x as int, b as int, ma);
        lemma_quotient_bounded(a.y as int, b as int, ma);
        lemma_quotient_bounded(a.z as int, b as int, ma);
    }
    Vector3 {
        x: divide_toward_zero(a.x, b),
        y: divide_toward_zero(a.y, b),
        z: divide_toward_zero(a.z, b),
    }
}

/// Each component of a vector divided by a positive number, rounded toward
/// zero.
pub open spec fn shrunk(a: Vector3<int>, b: int) -> Vector3<int> {
    Vector3 {
        x: quotient_toward_zero(a.x, b),
        y: quotient_toward_zero(a.y, b),
        z: quotient_toward_zero(a.z, b),
    }
}

} // verus!
