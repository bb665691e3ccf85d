//! Vectors over the mathematical integers: the model in which the exact
//! geometry of this library is stated, and the laws of vector algebra.
use crate::math::{Vector2, Vector3, VectorialOperations};
use vstd::prelude::*;

verus! {

/// The zero vector.
pub open spec fn zero() -> Vector3<int> {
    Vector3 { x: 0, y: 0, z: 0 }
}

/// The sum of two vectors.
pub open spec fn plus(a: Vector3<int>, b: Vector3<int>) -> Vector3<int> {
    Vector3 { x: a.x + b.x, y: a.y + b.y, z: a.z + b.z }
}

/// The difference of two vectors.
pub open spec fn minus(a: Vector3<int>, b: Vector3<int>) -> Vector3<int> {
    Vector3 { x: a.x - b.x, y: a.y - b.y, z: a.z - b.z }
}

/// The opposite of a vector.
pub open spec fn negated(a: Vector3<int>) -> Vector3<int> {
    Vector3 { x: -a.x, y: -a.y, z: -a.z }
}

/// The product of a vector by a scalar.
pub open spec fn scaled(a: Vector3<int>, k: int) -> Vector3<int> {
    Vector3 { x: a.x * k, y: a.y * k, z: a.z * k }
}

/// The dot product.
pub open spec fn dot(a: Vector3<int>, b: Vector3<int>) -> int {
    a.x * b.x + a.y * b.y + a.z * b.z
}

/// The cross product.
pub open spec fn cross(a: Vector3<int>, b: Vector3<int>) -> Vector3<int> {
    Vector3 { x: a.y * b.z - a.z * b.y, y: a.z * b.x - a.x * b.z, z: a.x * b.y - a.y * b.x }
}

/// The square of the Euclidean norm.
pub open spec fn norm_squared(a: Vector3<int>) -> int {
    dot(a, a)
}

/// No component of `a` exceeds `m` in absolute value.
pub open spec fn bounded(a: Vector3<int>, m: int) -> bool {
    -m <= a.x <= m && -m <= a.y <= m && -m <= a.z <= m
}

/// No component of `a` exceeds `m` in absolute value.
pub open spec fn bounded2(a: Vector2<int>, m: int) -> bool {
    -m <= a.x <= m && -m <= a.y <= m
}

/// The dot product is symmetric.
pub proof fn lemma_dot_commutes(a: Vector3<int>, b: Vector3<int>)
    ensures
        dot(a, b) == dot(b, a),
{
    assert(a.x * b.x == b.x * a.x) by (nonlinear_arith);
    assert(a.y * b.y == b.y * a.y) by (nonlinear_arith);
    assert(a.z * b.z == b.z * a.z) by (nonlinear_arith);
}

/// The cross product changes sign when its arguments are exchanged.
pub proof fn lemma_cross_anticommutes(a: Vector3<int>, b: Vector3<int>)
    ensures
        cross(a, b) == negated(cross(b, a)),
{
    assert(a.y * b.z - a.z * b.y == -(b.y * a.z - b.z * a.y)) by (nonlinear_arith);
    assert(a.z * b.x - a.x * b.z == -(b.z * a.x - b.x * a.z)) by (nonlinear_arith);
    assert(a.x * b.y - a.y * b.x == -(b.x * a.y - b.y * a.x)) by (nonlinear_arith);
}

/// The cross product of a vector with itself is the zero vector.
pub proof fn lemma_cross_self(a: Vector3<int>)
    ensures
        cross(a, a) == zero(),
{
    assert(a.y * a.z - a.z * a.y == 0) by (nonlinear_arith);
    assert(a.z * a.x - a.x * a.z == 0) by (nonlinear_arith);
    assert(a.x * a.y - a.y * a.x == 0) by (nonlinear_arith);
}

/// The cross product of two parallel vectors is the zero vector.
pub proof fn lemma_cross_parallel(a: Vector3<int>, j: int, k: int)
    ensures
        cross(scaled(a, j), scaled(a, k)) == zero(),
{
    assert((a.y * j) * (a.z * k) - (a.z * j) * (a.y * k) == 0) by (nonlinear_arith);
    assert((a.z * j) * (a.x * k) - (a.x * j) * (a.z * k) == 0) by (nonlinear_arith);
    assert((a.x * j) * (a.y * k) - (a.y * j) * (a.x * k) == 0) by (nonlinear_arith);
}

/// The cross product is orthogonal to both of its arguments.
pub proof fn lemma_cross_orthogonal(a: Vector3<int>, b: Vector3<int>)
    ensures
        dot(cross(a, b), a) == 0,
        dot(cross(a, b), b) == 0,
{
    assert((a.y * b.z - a.z * b.y) * a.x + (a.z * b.x - a.x * b.z) * a.y + (a.x * b.y - a.y
        * b.x) * a.z == 0) by (nonlinear_arith);
    assert((a.y * b.z - a.z * b.y) * b.x + (a.z * b.x - a.x * b.z) * b.y + (a.x * b.y - a.y
        * b.x) * b.z == 0) by (nonlinear_arith);
}

/// The squared norm is never negative, and is zero for the zero vector only.
pub proof fn lemma_norm_nonnegative(a: Vector3<int>)
    ensures
        norm_squared(a) >= 0,
        norm_squared(a) == 0 <==> a == zero(),
{
    assert(a.x * a.x >= 0 && (a.x * a.x == 0 <==> a.x == 0)) by (nonlinear_arith);
    assert(a.y * a.y >= 0 && (a.y * a.y == 0 <==> a.y == 0)) by (nonlinear_arith);
    assert(a.z * a.z >= 0 && (a.z * a.z == 0 <==> a.z == 0)) by (nonlinear_arith);
}

/// Scaling a vector by `k` scales its squared norm by `k * k`: the norm
/// itself is scaled by the absolute value of `k`.
pub proof fn lemma_norm_scales(a: Vector3<int>, k: int)
    ensures
        norm_squared(scaled(a, k)) == (k * k) * norm_squared(a),
{
    assert((a.x * k) * (a.x * k) + (a.y * k) * (a.y * k) + (a.z * k) * (a.z * k) == (k * k) * (a.x
        * a.x + a.y * a.y + a.z * a.z)) by (nonlinear_arith);
}

/// The product of two bounded integers is bounded by the product of the
/// bounds.
pub proof fn lemma_product_bounded(a: int, b: int, ma: int, mb: int)
    requires
        -ma <= a <= ma,
        -mb <= b <= mb,
    ensures
        -(ma * mb) <= a * b <= ma * mb,
{
    assert(-(ma * mb) <= a * b <= ma * mb) by (nonlinear_arith)
        requires
            -ma <= a <= ma,
            -mb <= b <= mb,
    ;
}

/// `x * (a * j + b * k) == (x * a) * j + (x * b) * k`.
pub proof fn lemma_distribute(x: int, a: int, j: int, b: int, k: int)
    ensures
        x * (a * j + b * k) == (x * a) * j + (x * b) * k,
{
    assert(x * (a * j + b * k) == (x * a) * j + (x * b) * k) by (nonlinear_arith);
}

/// The dot product is linear in its second argument.
pub proof fn lemma_dot_linear(n: Vector3<int>, a: Vector3<int>, j: int, b: Vector3<int>, k: int)
    ensures
        dot(n, plus(scaled(a, j), scaled(b, k))) == dot(n, a) * j + dot(n, b) * k,
{
    lemma_distribute(n.x, a.x, j, b.x, k);
    lemma_distribute(n.y, a.y, j, b.y, k);
    lemma_distribute(n.z, a.z, j, b.z, k);
    let pa = n.x * a.x;
    let pb = n.y * a.y;
    let pc = n.z * a.z;
    let qa = n.x * b.x;
    let qb = n.y * b.y;
    let qc = n.z * b.z;
    assert((pa * j + qa * k) + (pb * j + qb * k) + (pc * j + qc * k) == (pa + pb + pc) * j + (qa
        + qb + qc) * k) by (nonlinear_arith);
}

/// The cross product is linear in its second argument.
pub proof fn lemma_cross_linear(e: Vector3<int>, a: Vector3<int>, j: int, b: Vector3<int>, k: int)
    ensures
        cross(e, plus(scaled(a, j), scaled(b, k))) == plus(
            scaled(cross(e, a), j),
            scaled(cross(e, b), k),
        ),
{
    lemma_distribute(e.y, a.z, j, b.z, k);
    lemma_distribute(e.z, a.y, j, b.y, k);
    lemma_distribute(e.z, a.x, j, b.x, k);
    lemma_distribute(e.x, a.z, j, b.z, k);
    lemma_distribute(e.x, a.y, j, b.y, k);
    lemma_distribute(e.y, a.x, j, b.x, k);
    lemma_difference_scaled(e.y * a.z, e.z * a.y, j);
    lemma_difference_scaled(e.y * b.z, e.z * b.y, k);
    lemma_difference_scaled(e.z * a.x, e.x * a.z, j);
    lemma_difference_scaled(e.z * b.x, e.x * b.z, k);
    lemma_difference_scaled(e.x * a.y, e.y * a.x, j);
    lemma_difference_scaled(e.x * b.y, e.y * b.x, k);
}

/// `(p - q) * j == p * j - q * j`.
pub proof fn lemma_difference_scaled(p: int, q: int, j: int)
    ensures
        (p - q) * j == p * j - q * j,
        (p + q) * j == p * j + q * j,
{
    assert((p - q) * j == p * j - q * j) by (nonlinear_arith);
    assert((p + q) * j == p * j + q * j) by (nonlinear_arith);
}

/// The cross product of two bounded vectors is bounded.
pub proof fn lemma_cross_bounded(a: Vector3<int>, b: Vector3<int>, ma: int, mb: int)
    requires
        bounded(a, ma),
        bounded(b, mb),
    ensures
        bounded(cross(a, b), 2 * (ma * mb)),
{
    lemma_product_bounded(a.y, b.z, ma, mb);
    lemma_product_bounded(a.z, b.y, ma, mb);
    lemma_product_bounded(a.z, b.x, ma, mb);
    lemma_product_bounded(a.x, b.z, ma, mb);
    lemma_product_bounded(a.x, b.y, ma, mb);
    lemma_product_bounded(a.y, b.x, ma, mb);
}

/// The dot product of two bounded vectors is bounded.
pub proof fn lemma_dot_bounded(a: Vector3<int>, b: Vector3<int>, ma: int, mb: int)
    requires
        bounded(a, ma),
        bounded(b, mb),
    ensures
        -(3 * (ma * mb)) <= dot(a, b) <= 3 * (ma * mb),
{
    lemma_product_bounded(a.x, b.x, ma, mb);
    lemma_product_bounded(a.y, b.y, ma, mb);
    lemma_product_bounded(a.z, b.z, ma, mb);
}

/// The three ways of writing a product of three numbers.
pub proof fn lemma_three(x: int, y: int, z: int)
    ensures
        x * (y * z) == y * (x * z),
        x * (y * z) == z * (x * y),
        x * (y * z) == z * (y * x),
        x * (y * z) == (x * y) * z,
{
    assert(x * (y * z) == y * (x * z)) by (nonlinear_arith);
    assert(x * (y * z) == z * (x * y)) by (nonlinear_arith);
    assert(x * (y * z) == z * (y * x)) by (nonlinear_arith);
    assert(x * (y * z) == (x * y) * z) by (nonlinear_arith);
}

/// A product by a sum of three terms, and by a difference.
pub proof fn lemma_spread(x: int, p: int, q: int, r: int)
    ensures
        x * (p + q + r) == x * p + x * q + x * r,
        x * (p - q) == x * p - x * q,
        x * (p + q) == x * p + x * q,
{
    assert(x * (p + q + r) == x * p + x * q + x * r) by (nonlinear_arith);
    assert(x * (p - q) == x * p - x * q) by (nonlinear_arith);
    assert(x * (p + q) == x * p + x * q) by (nonlinear_arith);
}

/// One component of the identity of the triple product.
proof fn lemma_triple_component(
    ax: int,
    ay: int,
    az: int,
    bx: int,
    by: int,
    bz: int,
    cx: int,
    cy: int,
    cz: int,
)
    ensures
        ax * (bx * cx + by * cy + bz * cz) - bx * (ax * cx + ay * cy + az * cz) == cy * (ax * by
            - ay * bx) - cz * (az * bx - ax * bz),
{
    lemma_spread(ax, bx * cx, by * cy, bz * cz);
    lemma_spread(bx, ax * cx, ay * cy, az * cz);
    lemma_spread(cy, ax * by, ay * bx, 0);
    lemma_spread(cz, az * bx, ax * bz, 0);
    lemma_three(ax, bx, cx);
    lemma_three(bx, ax, cx);
    lemma_three(ax, by, cy);
    lemma_three(bx, ay, cy);
    lemma_three(ax, bz, cz);
    lemma_three(bx, az, cz);
    lemma_three(cy, ax, by);
    lemma_three(cy, ay, bx);
    lemma_three(cz, az, bx);
    lemma_three(cz, ax, bz);
}

/// `a (b . c) - b (a . c) = c x (a x b)`.
pub proof fn lemma_triple_product(a: Vector3<int>, b: Vector3<int>, c: Vector3<int>)
    ensures
        minus(scaled(a, dot(b, c)), scaled(b, dot(a, c))) == cross(c, cross(a, b)),
{
    lemma_triple_component(a.x, a.y, a.z, b.x, b.y, b.z, c.x, c.y, c.z);
    lemma_triple_component(a.y, a.z, a.x, b.y, b.z, b.x, c.y, c.z, c.x);
    lemma_triple_component(a.z, a.x, a.y, b.z, b.x, b.y, c.z, c.x, c.y);
    assert(dot(b, c) * a.x == a.x * dot(b, c)) by (nonlinear_arith);
    assert(dot(a, c) * b.x == b.x * dot(a, c)) by (nonlinear_arith);
}

/// The rule of Cramer for a line and a triangle. Let `t` be the vector from
/// the first vertex to the origin of the line, `s` its direction, and `e1`
/// and `e2` the two edges from the first vertex. With
/// `det = e1 . (s x e2)`, `u = t . (s x e2)`, `v = s . (t x e1)` and
/// `r = e2 . (t x e1)`, the point of the line at the parameter `r / det` is
/// the point of the triangle's plane with the coordinates `u / det` and
/// `v / det`: `det t + r s = u e1 + v e2`.
pub proof fn lemma_cramer(t: Vector3<int>, s: Vector3<int>, e1: Vector3<int>, e2: Vector3<int>)
    ensures
        plus(scaled(t, dot(e1, cross(s, e2))), scaled(s, dot(e2, cross(t, e1)))) == plus(
            scaled(e1, dot(t, cross(s, e2))),
            scaled(e2, dot(s, cross(t, e1))),
        ),
{
    let a = cross(s, e2);
    let q = cross(t, e1);
    // t (e1 . a) - e1 (t . a) = a x (t x e1)
    lemma_triple_product(t, e1, a);
    // s (e2 . q) - e2 (s . q) = q x (s x e2)
    lemma_triple_product(s, e2, q);
    lemma_cross_anticommutes(a, q);
}

/// The cross product of a vector and a multiple of another.
pub proof fn lemma_cross_scaled(a: Vector3<int>, b: Vector3<int>, k: int)
    ensures
        cross(a, scaled(b, k)) == scaled(cross(a, b), k),
        cross(scaled(a, k), b) == scaled(cross(a, b), k),
{
    lemma_cross_linear(a, b, k, b, 0);
    assert(plus(scaled(b, k), scaled(b, 0)) == scaled(b, k));
    assert(plus(scaled(cross(a, b), k), scaled(cross(a, b), 0)) == scaled(cross(a, b), k));
    lemma_cross_anticommutes(scaled(a, k), b);
    lemma_cross_linear(b, a, k, a, 0);
    assert(plus(scaled(a, k), scaled(a, 0)) == scaled(a, k));
    assert(plus(scaled(cross(b, a), k), scaled(cross(b, a), 0)) == scaled(cross(b, a), k));
    lemma_cross_anticommutes(a, b);
    let c = cross(b, a);
    assert((-c.x) * k == -(c.x * k) && (-c.y) * k == -(c.y * k) && (-c.z) * k == -(c.z * k)) by (nonlinear_arith);
}

/// The cross product of a vector and a sum or a difference, on either
/// side.
pub proof fn lemma_cross_additive(a: Vector3<int>, b: Vector3<int>, c: Vector3<int>)
    ensures
        cross(a, plus(b, c)) == plus(cross(a, b), cross(a, c)),
        cross(a, minus(b, c)) == minus(cross(a, b), cross(a, c)),
        cross(plus(b, c), a) == plus(cross(b, a), cross(c, a)),
        cross(minus(b, c), a) == minus(cross(b, a), cross(c, a)),
{
    lemma_cross_linear(a, b, 1, c, 1);
    assert(scaled(b, 1) == b && scaled(c, 1) == c);
    assert(scaled(cross(a, b), 1) == cross(a, b) && scaled(cross(a, c), 1) == cross(a, c));
    lemma_cross_linear(a, b, 1, c, -1);
    assert(plus(scaled(b, 1), scaled(c, -1)) == minus(b, c));
    assert(plus(scaled(cross(a, b), 1), scaled(cross(a, c), -1)) == minus(cross(a, b), cross(a, c)));
    lemma_cross_anticommutes(plus(b, c), a);
    lemma_cross_anticommutes(minus(b, c), a);
    lemma_cross_anticommutes(b, a);
    lemma_cross_anticommutes(c, a);
}

/// The dot product of a vector and a multiple of another, and of a vector
/// and a sum or a difference.
pub proof fn lemma_dot_scaled(a: Vector3<int>, b: Vector3<int>, c: Vector3<int>, k: int)
    ensures
        dot(a, scaled(b, k)) == dot(a, b) * k,
        dot(a, plus(b, c)) == dot(a, b) + dot(a, c),
        dot(a, minus(b, c)) == dot(a, b) - dot(a, c),
        dot(a, negated(b)) == -dot(a, b),
        dot(negated(a), b) == -dot(a, b),
{
    lemma_dot_linear(a, b, k, b, 0);
    assert(plus(scaled(b, k), scaled(b, 0)) == scaled(b, k));
    lemma_dot_linear(a, b, 1, c, 1);
    assert(scaled(b, 1) == b && scaled(c, 1) == c);
    lemma_dot_linear(a, b, 1, c, -1);
    assert(plus(scaled(b, 1), scaled(c, -1)) == minus(b, c));
    lemma_dot_linear(a, b, -1, b, 0);
    assert(plus(scaled(b, -1), scaled(b, 0)) == negated(b));
    lemma_dot_commutes(negated(a), b);
    lemma_dot_commutes(a, b);
    lemma_dot_linear(b, a, -1, a, 0);
    assert(plus(scaled(a, -1), scaled(a, 0)) == negated(a));
}

/// The scalar triple product does not change when its three vectors are
/// turned around: `a . (b x c) = b . (c x a) = c . (a x b)`.
pub proof fn lemma_scalar_triple(a: Vector3<int>, b: Vector3<int>, c: Vector3<int>)
    ensures
        dot(a, cross(b, c)) == dot(b, cross(c, a)),
        dot(a, cross(b, c)) == dot(c, cross(a, b)),
{
    lemma_spread(a.x, b.y * c.z, b.z * c.y, 0);
    lemma_spread(a.y, b.z * c.x, b.x * c.z, 0);
    lemma_spread(a.z, b.x * c.y, b.y * c.x, 0);
    lemma_spread(b.x, c.y * a.z, c.z * a.y, 0);
    lemma_spread(b.y, c.z * a.x, c.x * a.z, 0);
    lemma_spread(b.z, c.x * a.y, c.y * a.x, 0);
    lemma_spread(c.x, a.y * b.z, a.z * b.y, 0);
    lemma_spread(c.y, a.z * b.x, a.x * b.z, 0);
    lemma_spread(c.z, a.x * b.y, a.y * b.x, 0);
    lemma_three(a.x, b.y, c.z);
    lemma_three(a.x, b.z, c.y);
    lemma_three(a.y, b.z, c.x);
    lemma_three(a.y, b.x, c.z);
    lemma_three(a.z, b.x, c.y);
    lemma_three(a.z, b.y, c.x);
    lemma_three(b.x, c.y, a.z);
    lemma_three(b.x, c.z, a.y);
    lemma_three(b.y, c.z, a.x);
    lemma_three(b.y, c.x, a.z);
    lemma_three(b.z, c.x, a.y);
    lemma_three(b.z, c.y, a.x);
    lemma_three(c.x, a.y, b.z);
    lemma_three(c.x, a.z, b.y);
    lemma_three(c.y, a.z, b.x);
    lemma_three(c.y, a.x, b.z);
    lemma_three(c.z, a.x, b.y);
    lemma_three(c.z, a.y, b.x);
}

/// On 64-bit integers, where nothing overflows, the products of the vector
/// type are the dot product and the cross product of the integer vectors,
/// and its squared norm is theirs: the laws of this file hold of them.
pub proof fn lemma_products_of_integers(a: Vector3<i64>, b: Vector3<i64>)
    requires
        a.product_req(&b),
    ensures
        a.dot_spec(&b) as int == dot(a@, b@),
        a.cross_spec(&b)@ == cross(a@, b@),
{
    let px: i64 = (a.x * b.x) as i64;
    let py: i64 = (a.y * b.y) as i64;
    let pz: i64 = (a.z * b.z) as i64;
    assert(px == a.x * b.x);
    assert(py == a.y * b.y);
    assert(pz == a.z * b.z);
    let s1: i64 = (px + py) as i64;
    assert(s1 == px + py);
    let s2: i64 = (s1 + pz) as i64;
    assert(s2 == s1 + pz);
    assert(a.dot_spec(&b) == s2);
    let yz: i64 = (a.y * b.z) as i64;
    let zy: i64 = (a.z * b.y) as i64;
    let zx: i64 = (a.z * b.x) as i64;
    let xz: i64 = (a.x * b.z) as i64;
    let xy: i64 = (a.x * b.y) as i64;
    let yx: i64 = (a.y * b.x) as i64;
    assert(yz == a.y * b.z && zy == a.z * b.y);
    assert(zx == a.z * b.x && xz == a.x * b.z);
    assert(xy == a.x * b.y && yx == a.y * b.x);
    let cx: i64 = (yz - zy) as i64;
    let cy: i64 = (zx - xz) as i64;
    let cz: i64 = (xy - yx) as i64;
    assert(cx == yz - zy);
    assert(cy == zx - xz);
    assert(cz == xy - yx);
    assert(a.cross_spec(&b).x == cx);
    assert(a.cross_spec(&b).y == cy);
    assert(a.cross_spec(&b).z == cz);
}

} // verus!
