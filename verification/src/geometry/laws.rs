//! What the intersection tests mean, and how they agree with each other.
use crate::algebra::{
    cross, dot, lemma_cramer, lemma_cross_additive, lemma_cross_anticommutes,
    lemma_cross_scaled, lemma_cross_self, lemma_dot_commutes, lemma_dot_scaled,
    lemma_norm_nonnegative, lemma_scalar_triple, lemma_spread, minus, negated, norm_squared, plus,
    scaled, zero,
};
use crate::exact::{lemma_ratio_order, ratio_of};
use crate::geometry::bounding_box::{axis_holds, BoundingBox};
use crate::geometry::obj3d::{lemma_trace_ray, trace, Triangle};
use crate::math::Vector3;
use crate::ray::{Plane, Ray, Surface};
use vstd::prelude::*;

verus! {

/// Facts about the multiples of a vector.
proof fn lemma_multiples(n: Vector3<int>, j: int, k: int)
    ensures
        scaled(negated(n), k) == negated(scaled(n, k)),
        scaled(n, -k) == negated(scaled(n, k)),
        minus(scaled(n, j), scaled(n, k)) == scaled(n, j - k),
        plus(scaled(n, j), scaled(n, k)) == scaled(n, j + k),
        scaled(zero(), k) == zero(),
        scaled(n, 0) == zero(),
{
    assert((-n.x) * k == -(n.x * k) && (-n.y) * k == -(n.y * k) && (-n.z) * k == -(n.z * k)) by (nonlinear_arith);
    assert(n.x * (-k) == -(n.x * k) && n.y * (-k) == -(n.y * k) && n.z * (-k) == -(n.z * k)) by (nonlinear_arith);
    lemma_spread(n.x, j, k, 0);
    lemma_spread(n.y, j, k, 0);
    lemma_spread(n.z, j, k, 0);
}

/// The multiples of a difference of two vectors.
proof fn lemma_scaled_minus(a: Vector3<int>, b: Vector3<int>, k: int)
    ensures
        scaled(minus(a, b), k) == minus(scaled(a, k), scaled(b, k)),
        scaled(plus(a, b), k) == plus(scaled(a, k), scaled(b, k)),
{
    assert((a.x - b.x) * k == a.x * k - b.x * k && (a.x + b.x) * k == a.x * k + b.x * k) by (nonlinear_arith);
    assert((a.y - b.y) * k == a.y * k - b.y * k && (a.y + b.y) * k == a.y * k + b.y * k) by (nonlinear_arith);
    assert((a.z - b.z) * k == a.z * k - b.z * k && (a.z + b.z) * k == a.z * k + b.z * k) by (nonlinear_arith);
}

/// The sides of a point of the plane of two edges. Let `x = u e1 + v e2`
/// be the place of a point with respect to the first vertex of a triangle
/// whose edges from that vertex are `e1` and `e2`, all times `w`, and let
/// `n = e1 x e2`. Then the three products by which the full test decides
/// are `-v |n|^2`, `-(w - u - v) |n|^2` and `-u |n|^2`.
pub proof fn lemma_sides(e1: Vector3<int>, e2: Vector3<int>, u: int, v: int, w: int)
    ensures
        ({
            let n = cross(e1, e2);
            let back = cross(e1, negated(e2));
            let x = plus(scaled(e1, u), scaled(e2, v));
            &&& dot(back, cross(e1, x)) == -(v * norm_squared(n))
            &&& dot(back, cross(minus(e2, e1), minus(x, scaled(e1, w)))) == -((w - u - v)
                * norm_squared(n))
            &&& dot(back, cross(negated(e2), minus(x, scaled(e2, w)))) == -(u * norm_squared(n))
        }),
{
    let n = cross(e1, e2);
    let back = cross(e1, negated(e2));
    let x = plus(scaled(e1, u), scaled(e2, v));
    let nn = norm_squared(n);
    // back = -n
    lemma_cross_scaled(e1, e2, -1);
    assert(scaled(e2, -1) == negated(e2));
    assert(scaled(n, -1) == negated(n));
    assert(back == negated(n));
    lemma_cross_self(e1);
    lemma_cross_self(e2);
    lemma_cross_anticommutes(e2, e1);
    assert(cross(e2, e1) == negated(n));
    lemma_multiples(n, 0, u);
    lemma_multiples(n, u, v);
    lemma_multiples(n, u, w);
    lemma_multiples(n, v, w);
    // e1 x x = v n
    crate::algebra::lemma_cross_linear(e1, e1, u, e2, v);
    let c1 = cross(e1, x);
    assert(c1 == scaled(n, v));
    // e2 x x = -u n
    crate::algebra::lemma_cross_linear(e2, e1, u, e2, v);
    let c2 = cross(e2, x);
    assert(c2 == scaled(negated(n), u));
    assert(c2 == negated(scaled(n, u)));
    // first side
    lemma_dot_scaled(n, n, n, v);
    lemma_dot_scaled(n, scaled(n, v), n, 0);
    assert(dot(back, c1) == -(nn * v));
    assert(nn * v == v * nn) by (nonlinear_arith);
    // third side: (-e2) x (x - w e2) = u n
    let y3 = minus(x, scaled(e2, w));
    lemma_cross_additive(e2, x, scaled(e2, w));
    lemma_cross_scaled(e2, e2, w);
    assert(cross(e2, scaled(e2, w)) == zero());
    assert(cross(e2, y3) == c2);
    lemma_cross_scaled(e2, y3, -1);
    assert(cross(negated(e2), y3) == scaled(c2, -1));
    assert(scaled(c2, -1) == scaled(n, u)) by {
        let m = scaled(n, u);
        assert(c2 == negated(m));
        assert((-m.x) * (-1) == m.x && (-m.y) * (-1) == m.y && (-m.z) * (-1) == m.z);
    }
    lemma_dot_scaled(n, n, n, u);
    lemma_dot_scaled(n, scaled(n, u), n, 0);
    assert(dot(back, cross(negated(e2), y3)) == -(nn * u));
    assert(nn * u == u * nn) by (nonlinear_arith);
    // second side: (e2 - e1) x (x - w e1) = (w - u - v) n
    let y2 = minus(x, scaled(e1, w));
    lemma_cross_additive(y2, e2, e1);
    lemma_cross_additive(e2, x, scaled(e1, w));
    lemma_cross_additive(e1, x, scaled(e1, w));
    lemma_cross_scaled(e2, e1, w);
    lemma_cross_scaled(e1, e1, w);
    assert(cross(e1, scaled(e1, w)) == zero());
    assert(cross(e2, scaled(e1, w)) == scaled(negated(n), w));
    assert(cross(e2, scaled(e1, w)) == negated(scaled(n, w)));
    let total = cross(minus(e2, e1), y2);
    assert(total == minus(minus(c2, negated(scaled(n, w))), c1));
    lemma_multiples(n, w, u);
    lemma_multiples(n, w - u, v);
    assert(total == scaled(n, w - u - v));
    lemma_dot_scaled(n, n, n, w - u - v);
    lemma_dot_scaled(n, total, n, 0);
    assert(dot(back, total) == -(nn * (w - u - v)));
    assert(nn * (w - u - v) == (w - u - v) * nn) by (nonlinear_arith);
}

impl Triangle {
    /// The edge from the first vertex to the second.
    pub open spec fn e1(&self) -> Vector3<int> {
        minus(self.pb(), self.pa())
    }

    /// The edge from the first vertex to the third.
    pub open spec fn e2(&self) -> Vector3<int> {
        minus(self.pc(), self.pa())
    }

    /// The plane of a triangle, in the terms of the quick test: its normal
    /// is the cross product of the two edges from the first vertex, the
    /// rate of a ray through it is the opposite of the determinant, and
    /// what the ray lacks is the opposite of the parameter times the
    /// determinant.
    pub proof fn lemma_plane_of_triangle(&self, ray: Ray)
        requires
            self.wf(),
            ray.wf(),
        ensures
            self.plane().wf(),
            self.plane().normal_vector() == cross(self.e1(), self.e2()),
            self.plane().rate(ray) == -self.det(ray),
            self.plane().lack(ray) == -self.t_times_det(ray),
    {
        let e1 = self.e1();
        let e2 = self.e2();
        let ab = minus(self.pb(), self.pa());
        let bc = minus(self.pc(), self.pb());
        let n = cross(e1, e2);
        let s = ray.slope@;
        let o = ray.origin@;
        let t = minus(o, self.pa());
        self.plane_wf();
        crate::algebra::lemma_cross_bounded(ab, bc, 16384, 16384);
        crate::algebra::lemma_dot_bounded(self.pa(), cross(ab, bc), 8192, 536870912);
        assert(bc == minus(e2, e1));
        lemma_cross_additive(e1, e2, e1);
        lemma_cross_self(e1);
        assert(self.face_normal() == n);
        assert(self.plane().normal_vector() == n);
        assert(self.plane().d == -dot(self.pa(), n));
        // det = e1 . (s x e2) = s . (e2 x e1) = -(n . s)
        lemma_scalar_triple(e1, s, e2);
        lemma_cross_anticommutes(e2, e1);
        lemma_dot_scaled(s, n, n, 0);
        lemma_dot_commutes(s, n);
        // r = e2 . (t x e1) = t . (e1 x e2) = n . t
        lemma_scalar_triple(e2, t, e1);
        lemma_dot_commutes(t, n);
        lemma_dot_scaled(n, o, self.pa(), 0);
        lemma_dot_commutes(self.pa(), n);
    }

    /// The barycentric coordinates of the crossing of a ray and the plane
    /// of the triangle, times the positive denominator of the parameter of
    /// the crossing: for the second and the third vertex.
    pub open spec fn crossing_weights(&self, ray: Ray) -> (int, int) {
        if self.det(ray) > 0 {
            (self.u_times_det(ray), self.v_times_det(ray))
        } else {
            (-self.u_times_det(ray), -self.v_times_det(ray))
        }
    }

    /// Where the line of a ray crosses the plane of a triangle: the point
    /// of the line at the parameter of the crossing is the point of the
    /// plane with the barycentric coordinates of the quick test, and the
    /// three sides by which the full test decides are the opposites of the
    /// three barycentric coordinates, times the squared length of the
    /// normal.
    pub proof fn lemma_crossing(&self, ray: Ray)
        requires
            self.wf(),
            ray.wf(),
            self.det(ray) != 0,
        ensures
            ({
                let t = self.plane().crossing(ray);
                let p = ray.point_times(t.num as int, t.den as int);
                let (u, v) = self.crossing_weights(ray);
                let nn = norm_squared(cross(self.e1(), self.e2()));
                &&& t.den > 0
                &&& nn > 0
                &&& t.den == (if self.det(ray) > 0 { self.det(ray) } else { -self.det(ray) })
                &&& t.num == (if self.det(ray) > 0 { self.t_times_det(ray) } else { -self.t_times_det(ray) })
                &&& p == plus(
                    scaled(self.pa(), t.den as int),
                    plus(scaled(self.e1(), u), scaled(self.e2(), v)),
                )
                &&& self.side_ab(p, t.den as int) == -(v * nn)
                &&& self.side_bc(p, t.den as int) == -((t.den - u - v) * nn)
                &&& self.side_ca(p, t.den as int) == -(u * nn)
            }),
    {
        self.lemma_plane_of_triangle(ray);
        self.lemma_quick_bounded(ray);
        self.plane().lemma_factors_bounded(ray);
        let e1 = self.e1();
        let e2 = self.e2();
        let n = cross(e1, e2);
        let s = ray.slope@;
        let o = ray.origin@;
        let a = self.pa();
        let tv = minus(o, a);
        let det = self.det(ray);
        let tr = self.t_times_det(ray);
        let t = self.plane().crossing(ray);
        let den = t.den as int;
        let num = t.num as int;
        let p = ray.point_times(num, den);
        let (u, v) = self.crossing_weights(ray);
        let nn = norm_squared(n);
        assert(den == (if det > 0 { det } else { -det }));
        assert(num == (if det > 0 { tr } else { -tr }));
        // The normal is not zero, as the ray is not parallel to the plane.
        lemma_norm_nonnegative(n);
        if n == zero() {
            assert(dot(n, s) == 0) by {
                assert(0 * s.x + 0 * s.y + 0 * s.z == 0);
            }
        }
        // p - den a = den t + num s = u e1 + v e2
        lemma_cramer(tv, s, e1, e2);
        let x = plus(scaled(e1, u), scaled(e2, v));
        lemma_scaled_minus(o, a, den);
        assert(minus(p, scaled(a, den)) == plus(scaled(tv, den), scaled(s, num)));
        if det < 0 {
            lemma_multiples(tv, 0, det);
            lemma_multiples(s, 0, tr);
            lemma_multiples(e1, 0, self.u_times_det(ray));
            lemma_multiples(e2, 0, self.v_times_det(ray));
        }
        assert(plus(scaled(tv, den), scaled(s, num)) == x);
        assert(p == plus(scaled(a, den), x));
        // The sides.
        lemma_sides(e1, e2, u, v, den);
        assert(minus(self.pa(), self.pc()) == negated(e2));
        assert(minus(self.pc(), self.pb()) == minus(e2, e1));
        assert(minus(p, scaled(a, den)) == x);
        lemma_scaled_minus(self.pb(), a, den);
        assert(minus(p, scaled(self.pb(), den)) == minus(x, scaled(e1, den)));
        lemma_scaled_minus(self.pc(), a, den);
        assert(minus(p, scaled(self.pc(), den)) == minus(x, scaled(e2, den)));
    }
}

/// A product with a positive number has the sign of the other factor.
proof fn lemma_sign(v: int, nn: int)
    requires
        nn > 0,
    ensures
        -(v * nn) <= 0 <==> v >= 0,
{
    assert(-(v * nn) <= 0 <==> v >= 0) by (nonlinear_arith)
        requires
            nn > 0,
    ;
}

impl Triangle {
    /// What the full test decides. The ray hits the triangle if and only if
    /// it is not parallel to the triangle's plane, the barycentric
    /// coordinates of the crossing are at least zero and their sum at most
    /// one, and the parameter of the crossing is not negative and not beyond
    /// the bound of the ray. These are the coordinates and the parameter of
    /// the quick test, which differs in this only: it wants the parameter
    /// times the determinant to be positive, and does not look at the bound.
    pub proof fn lemma_full_test(&self, ray: Ray)
        requires
            self.wf(),
            ray.wf(),
        ensures
            self.hit(ray) is Some <==> {
                &&& self.det(ray) != 0
                &&& self.crossing_weights(ray).0 >= 0
                &&& self.crossing_weights(ray).1 >= 0
                &&& self.crossing_weights(ray).0 + self.crossing_weights(ray).1
                    <= self.plane().crossing(ray).den
                &&& self.plane().crossing(ray).num >= 0
                &&& ray.max_t matches Some(m) ==> self.plane().crossing(ray).num * m.den <= m.num
                    * self.plane().crossing(ray).den
            },
            self.hit(ray) matches Some(f) ==> f.param == self.plane().crossing(ray) && f.position@
                == ray.point_times(f.param.num as int, f.param.den as int) && f.scale
                == f.param.den,
    {
        self.lemma_plane_of_triangle(ray);
        self.plane().lemma_fragment_bounded(ray);
        if self.det(ray) != 0 {
            self.lemma_crossing(ray);
            let t = self.plane().crossing(ray);
            let (u, v) = self.crossing_weights(ray);
            let nn = norm_squared(cross(self.e1(), self.e2()));
            lemma_sign(u, nn);
            lemma_sign(v, nn);
            lemma_sign(t.den - u - v, nn);
        }
    }

    /// The two tests agree on hit and miss for a ray without a bound that
    /// comes to the front of the triangle from a point off its plane.
    pub proof fn lemma_tests_agree(&self, ray: Ray)
        requires
            self.wf(),
            ray.wf(),
            ray.max_t is None,
            self.det(ray) > 0,
            self.t_times_det(ray) != 0,
        ensures
            self.hit(ray) is Some <==> self.blocks(ray),
            self.hit(ray) is Some <==> self.shadowed(ray) is Some,
    {
        self.lemma_full_test(ray);
        self.lemma_crossing(ray);
    }

    /// Seen from behind, or from a point of its plane, or by a ray with a
    /// bound, a triangle can be hit and not block, or block and not be hit:
    /// the quick test blocks a ray whenever the full test finds a hit at a
    /// parameter that is positive, on the front of the triangle.
    pub proof fn lemma_hit_in_front_blocks(&self, ray: Ray)
        requires
            self.wf(),
            ray.wf(),
            self.det(ray) > 0,
            self.hit(ray) matches Some(f) && f.param.num > 0,
        ensures
            self.blocks(ray),
    {
        self.lemma_full_test(ray);
        self.lemma_crossing(ray);
    }
}

/// A point with barycentric coordinates that are at least zero lies
/// between the least and the greatest of the three vertices, on one axis.
proof fn lemma_convex(a: int, b: int, c: int, lo: int, hi: int, den: int, u: int, v: int)
    requires
        lo <= a <= hi,
        lo <= b <= hi,
        lo <= c <= hi,
        0 <= u,
        0 <= v,
        u + v <= den,
    ensures
        lo * den <= a * den + ((b - a) * u + (c - a) * v) <= hi * den,
{
    let w = den - u - v;
    assert(a * den + ((b - a) * u + (c - a) * v) == a * w + b * u + c * v) by (nonlinear_arith)
        requires
            w == den - u - v,
    ;
    assert(lo * den == lo * w + lo * u + lo * v && hi * den == hi * w + hi * u + hi * v) by (nonlinear_arith)
        requires
            w == den - u - v,
    ;
    assert(lo * w <= a * w <= hi * w) by (nonlinear_arith)
        requires
            lo <= a <= hi,
            w >= 0,
    ;
    assert(lo * u <= b * u <= hi * u) by (nonlinear_arith)
        requires
            lo <= b <= hi,
            u >= 0,
    ;
    assert(lo * v <= c * v <= hi * v) by (nonlinear_arith)
        requires
            lo <= c <= hi,
            v >= 0,
    ;
}

/// A point of a line, given by its coordinate times a positive number,
/// lies between two planes where its coordinate does.
proof fn lemma_axis(lo: int, hi: int, o: int, s: int, num: int, den: int)
    requires
        den > 0,
        lo * den <= o * den + s * num <= hi * den,
    ensures
        axis_holds(lo, hi, o, s, ratio_of(num, den)),
{
    let lr = lo as real;
    let hr = hi as real;
    let or = o as real;
    let sr = s as real;
    let nr = num as real;
    let dr = den as real;
    assert((lo * den) as real == lr * dr) by (nonlinear_arith)
        requires
            lr == lo as real,
            dr == den as real,
    ;
    assert((hi * den) as real == hr * dr) by (nonlinear_arith)
        requires
            hr == hi as real,
            dr == den as real,
    ;
    assert((o * den + s * num) as real == or * dr + sr * nr) by (nonlinear_arith)
        requires
            or == o as real,
            dr == den as real,
            sr == s as real,
            nr == num as real,
    ;
    assert(lr <= or + (nr / dr) * sr <= hr) by (nonlinear_arith)
        requires
            dr > 0real,
            lr * dr <= or * dr + sr * nr <= hr * dr,
    ;
}

/// A box never hides a triangle that lies in it: a ray whose line does not
/// pass through the box neither hits the triangle nor is blocked by it.
pub proof fn lemma_box_never_hides(bbox: BoundingBox, tri: Triangle, ray: Ray)
    requires
        tri.wf(),
        ray.wf(),
        bbox.holds(tri),
        !bbox.crossed_by(ray),
    ensures
        tri.hit(ray) is None,
        !tri.blocks(ray),
        tri.shadowed(ray) is None,
{
    tri.lemma_full_test(ray);
    if tri.det(ray) != 0 {
        tri.lemma_crossing(ray);
        let t = tri.plane().crossing(ray);
        let den = t.den as int;
        let num = t.num as int;
        let (u, v) = tri.crossing_weights(ray);
        if u >= 0 && v >= 0 && u + v <= den {
            let p = ray.point_times(num, den);
            let a = tri.pa();
            let b = tri.pb();
            let c = tri.pc();
            lemma_convex(a.x, b.x, c.x, bbox.min.x as int, bbox.max.x as int, den, u, v);
            lemma_convex(a.y, b.y, c.y, bbox.min.y as int, bbox.max.y as int, den, u, v);
            lemma_convex(a.z, b.z, c.z, bbox.min.z as int, bbox.max.z as int, den, u, v);
            lemma_axis(
                bbox.min.x as int,
                bbox.max.x as int,
                ray.origin.x as int,
                ray.slope.x as int,
                num,
                den,
            );
            lemma_axis(
                bbox.min.y as int,
                bbox.max.y as int,
                ray.origin.y as int,
                ray.slope.y as int,
                num,
                den,
            );
            lemma_axis(
                bbox.min.z as int,
                bbox.max.z as int,
                ray.origin.z as int,
                ray.slope.z as int,
                num,
                den,
            );
            assert(bbox.holds_at(ray, ratio_of(num, den)));
            assert(false);
        }
    }
}

/// Every triangle of an object lies in the box of the object, so that the
/// box never hides the object either.
pub proof fn lemma_box_never_hides_an_object(object: crate::geometry::obj3d::Object, ray: Ray, i: int)
    requires
        object.wf(),
        ray.wf(),
        0 <= i < object.triangles_view().len(),
        !object.bbox.crossed_by(ray),
    ensures
        object.triangles_view()[i].hit(ray) is None,
        !object.triangles_view()[i].blocks(ray),
{
    let tri = object.triangles_view()[i];
    assert(tri.wf());
    assert(object.bbox.holds(tri));
    lemma_box_never_hides(object.bbox, tri, ray);
}

impl Plane {
    /// A ray that is parallel to a plane never hits it, and is never
    /// blocked by it.
    pub proof fn lemma_parallel_ray(&self, ray: Ray)
        requires
            dot(self.normal_vector(), ray.slope@) == 0,
        ensures
            self.hit(ray) is None,
            self.shadowed(ray) is None,
    {
    }

    /// A ray without a bound that starts off a plane and goes along its
    /// normal toward it hits the plane, at the distance of its origin from
    /// the plane: the parameter of the hit times the length of the ray's
    /// direction is that distance, here with both sides squared and
    /// without their denominators.
    pub proof fn lemma_ray_along_normal(&self, ray: Ray, k: int)
        requires
            self.wf(),
            ray.wf(),
            ray.max_t is None,
            self.normal_vector() != zero(),
            ray.slope@ == scaled(self.normal_vector(), k),
            k * self.eval(ray.origin@, 1) < 0,
        ensures
            self.hit(ray) is Some,
            ({
                let f = self.hit(ray).unwrap();
                let e = self.eval(ray.origin@, 1);
                (f.param.num * f.param.num) * (norm_squared(ray.slope@) * norm_squared(
                    self.normal_vector(),
                )) == (e * e) * (f.param.den * f.param.den)
            }),
    {
        let n = self.normal_vector();
        let nn = norm_squared(n);
        let e = self.eval(ray.origin@, 1);
        self.lemma_factors_bounded(ray);
        self.lemma_fragment_bounded(ray);
        lemma_norm_nonnegative(n);
        lemma_dot_scaled(n, n, n, k);
        crate::algebra::lemma_norm_scales(n, k);
        let rate = self.rate(ray);
        let lack = self.lack(ray);
        assert(rate == nn * k);
        assert(self.d * 1 == self.d);
        assert(lack == -e);
        assert(k != 0 && e != 0) by (nonlinear_arith)
            requires
                k * e < 0,
        ;
        assert(rate != 0 && (rate > 0 <==> k > 0)) by (nonlinear_arith)
            requires
                rate == nn * k,
                nn > 0,
                k != 0,
        ;
        assert(k > 0 <==> e < 0) by (nonlinear_arith)
            requires
                k * e < 0,
        ;
        let t = self.crossing(ray);
        assert(t.num > 0);
        let num = t.num as int;
        let den = t.den as int;
        let ss = norm_squared(ray.slope@);
        assert(ss == (k * k) * nn);
        assert((num * num) * (ss * nn) == (e * e) * (den * den)) by (nonlinear_arith)
            requires
                ss == (k * k) * nn,
                (num == -e && den == nn * k) || (num == e && den == -(nn * k)),
        ;
    }
}

impl Triangle {
    /// The bound of a ray decides whether a hit counts, and nothing else:
    /// a ray with a bound finds the fragment that the same ray without a
    /// bound finds, unless that fragment lies beyond the bound.
    pub proof fn lemma_bound_only_cuts(&self, ray: Ray, free: Ray)
        requires
            self.wf(),
            ray.wf(),
            free == (Ray { slope: ray.slope, origin: ray.origin, max_t: None }),
        ensures
            self.hit(ray) == (match self.hit(free) {
                Some(g) => if ray.max_t matches Some(m) && g.param.val() > m.val() {
                    None
                } else {
                    Some(g)
                },
                None => None,
            }),
    {
        self.lemma_plane_of_triangle(ray);
        let plane = self.plane();
        plane.lemma_fragment_bounded(ray);
        plane.lemma_fragment_bounded(free);
        plane.lemma_factors_bounded(free);
        assert(plane.rate(ray) == plane.rate(free));
        assert(plane.lack(ray) == plane.lack(free));
        assert(plane.crossing(ray) == plane.crossing(free));
        assert(plane.fragment_at_crossing(ray) == plane.fragment_at_crossing(free));
        if plane.rate(ray) != 0 && ray.max_t is Some {
            let t = plane.crossing(ray);
            let m = ray.max_t.unwrap();
            lemma_ratio_order(m.num as int, m.den as int, t.num as int, t.den as int);
            assert(t.num * m.den == m.den * t.num) by (nonlinear_arith);
        }
    }
}

/// An object is hit where its nearest triangle is: if the line of a ray
/// hits some triangle of a sequence within the bound of the ray, then
/// tracing the ray through the sequence finds a fragment, and that triangle
/// is not hit nearer than it.
pub proof fn lemma_trace_is_nearest(tris: Seq<Triangle>, ray: Ray, free: Ray, i: int)
    requires
        ray.wf(),
        free == (Ray { slope: ray.slope, origin: ray.origin, max_t: None }),
        forall|j: int| 0 <= j < tris.len() ==> (#[trigger] tris[j]).wf(),
        0 <= i < tris.len(),
        tris[i].hit(free) is Some,
        ray.max_t matches Some(m) ==> tris[i].hit(free).unwrap().param.val() <= m.val(),
    ensures
        trace(tris, ray).0 is Some,
        trace(tris, ray).0.unwrap().param.val() <= tris[i].hit(free).unwrap().param.val(),
    decreases tris.len(),
{
    let rest = tris.drop_last();
    let last = tris.last();
    assert forall|j: int| 0 <= j < rest.len() implies (#[trigger] rest[j]).wf() by {
        assert(rest[j] == tris[j]);
    }
    lemma_trace_ray(rest, ray);
    let (found, cut) = trace(rest, ray);
    assert(last.wf());
    last.plane_wf();
    last.plane().lemma_fragment_bounded(cut);
    if i < tris.len() - 1 {
        assert(rest[i] == tris[i]);
        lemma_trace_is_nearest(rest, ray, free, i);
    } else {
        last.lemma_bound_only_cuts(cut, free);
    }
}

} // verus!
