//! Rays, planes, and the fragment that an intersection produces.
//!
//! A ray is the set of points `origin + t * slope` for `t >= 0`. Its
//! parameter `t` is an exact ratio, so that the nearest of several hits is
//! found without rounding.
use crate::algebra::{
    bounded, dot, lemma_difference_scaled, lemma_dot_linear, lemma_product_bounded, plus, scaled,
};
use crate::exact::{
    cross_product, dot_product, lemma_ratio_order, lemma_ratio_sign, ratio_of, scale, sum, widen,
    Ratio, LIMIT, SLOPE_LIMIT,
};
use crate::color::{RGBA32, RGBA8};
use crate::geometry::obj3d::Mesh;
use crate::img::Image;
use crate::material::channel::register_wf;
use crate::material::flat_material::FlatMaterial;
use crate::material::Material;
use crate::math::{Vector2, Vector3};
use crate::renderer::TextureRegister;
use crate::scene::World;
use vstd::prelude::*;

verus! {

/// The greatest absolute value of a component of the normal of a plane: that
/// of the cross product of two edges of a triangle of the lattice.
pub const NORMAL_LIMIT: i64 = 536870912;

/// The greatest absolute value of the constant term of a plane.
pub const OFFSET_LIMIT: i64 = 13194139533312;

/// A half-line, with the parameter of the nearest hit found so far.
#[derive(Debug, Clone, Copy, PartialEq)]
pub struct Ray {
    /// The direction of the ray; it need not have unit length.
    pub slope: Vector3<i64>,
    /// The point from which the ray starts.
    pub origin: Vector3<i64>,
    /// The farthest parameter at which a hit still counts, if there is one.
    pub max_t: Option<Ratio>,
}

/// The plane `a x + b y + c z + d = 0`.
#[derive(Debug, Clone)]
pub struct Plane {
    pub a: i64,
    pub b: i64,
    pub c: i64,
    pub d: i64,
}

/// The result of a successful intersection.
#[derive(Debug, Clone, Copy, PartialEq)]
pub struct Fragment {
    /// The hit point times `scale`.
    pub position: Vector3<i128>,
    /// The positive factor by which `position` is multiplied.
    pub scale: i128,
    /// The interpolated normal times `weight`; its length is arbitrary.
    pub normal: Vector3<i128>,
    /// The interpolated texture coordinates times `weight`, where every
    /// vertex has some.
    pub tex: Option<Vector2<i128>>,
    /// The positive factor by which `normal` and `tex` are multiplied.
    pub weight: i128,
    /// The parameter of the ray at the hit point.
    pub param: Ratio,
    pub du: Vector3<i64>,
    pub dv: Vector3<i64>,
}

/// A surface that a ray can hit.
pub trait Surface {
    /// The surface lies within the limits of the lattice.
    spec fn wf(&self) -> bool;

    /// The fragment where the ray hits the surface, if it does so within its
    /// range.
    spec fn hit(&self, ray: Ray) -> Option<Fragment>;

    /// The ray after the search for a fragment: cut at the hit, if any.
    spec fn trimmed(&self, ray: Ray) -> Ray;

    /// The ray cut at the place where the surface blocks it, if it does.
    spec fn shadowed(&self, ray: Ray) -> Option<Ray>;

    /// The fragment made by the intersection of the ray and the surface.
    fn get_intersection_fragment(&self, ray: &mut Ray) -> (r: Option<Fragment>)
        requires
            self.wf(),
            old(ray).wf(),
        ensures
            r == self.hit(*old(ray)),
            *final(ray) == self.trimmed(*old(ray)),
            final(ray).wf(),
    ;

    /// Whether the surface blocks the ray; a quick test for shadows.
    fn fast_intersection(&self, ray: &mut Ray) -> (b: bool)
        requires
            self.wf(),
            old(ray).wf(),
        ensures
            b == self.shadowed(*old(ray)).is_some(),
            *final(ray) == (if b {
                self.shadowed(*old(ray)).unwrap()
            } else {
                *old(ray)
            }),
            final(ray).wf(),
    ;
}

/// Whether every component of `v` lies within `limit` of zero.
pub fn within_limit(v: &Vector3<i64>, limit: i64) -> (b: bool)
    requires
        limit >= 0,
    ensures
        b == bounded(v@, limit as int),
{
    -limit <= v.x && v.x <= limit && -limit <= v.y && v.y <= limit && -limit <= v.z && v.z
        <= limit
}

impl Ray {
    /// The ray lies within the limits of the lattice, and its bound, if it
    /// has one, is a ratio with a positive denominator.
    pub open spec fn wf(&self) -> bool {
        &&& bounded(self.origin@, LIMIT as int)
        &&& bounded(self.slope@, SLOPE_LIMIT as int)
        &&& self.max_t matches Some(m) ==> m.wf()
    }

    /// The ray from `origin` along `slope`, without a bound.
    pub fn new(origin: Vector3<i64>, slope: Vector3<i64>) -> (r: Ray)
        ensures
            r == (Ray { slope, origin, max_t: None }),
    {
        Ray { origin: origin, slope: slope, max_t: None }
    }

    /// Whether the ray can be handed to the intersection tests.
    pub fn is_valid(&self) -> (b: bool)
        ensures
            b == self.wf(),
    {
        within_limit(&self.origin, LIMIT) && within_limit(&self.slope, SLOPE_LIMIT) && match self.max_t {
            Some(m) => m.den > 0,
            None => true,
        }
    }

    pub fn slope(&self) -> (v: Vector3<i64>)
        ensures
            v == self.slope,
    {
        self.slope
    }

    pub fn origin(&self) -> (v: Vector3<i64>)
        ensures
            v == self.origin,
    {
        self.origin
    }

    /// The same ray with `t` as its bound.
    pub open spec fn cut_at(self, t: Ratio) -> Ray {
        Ray { slope: self.slope, origin: self.origin, max_t: Some(t) }
    }

    /// Whether a hit at parameter `t` is within the range of the ray.
    pub open spec fn admits(&self, t: real) -> bool {
        t >= 0real && (self.max_t matches Some(m) ==> t <= m.val())
    }

    /// The point of the ray at parameter `num / den`, times `den`.
    pub open spec fn point_times(&self, num: int, den: int) -> Vector3<int> {
        plus(scaled(self.origin@, den), scaled(self.slope@, num))
    }
}

impl Fragment {
    /// A fragment at `position / scale`, without normal or texture
    /// coordinates.
    pub fn new(
        position: Vector3<i128>,
        scale: i128,
        param: Ratio,
        dp_du: Vector3<i64>,
        dp_dv: Vector3<i64>,
    ) -> (f: Fragment)
        ensures
            f == Fragment::bare(position, scale, param, dp_du, dp_dv),
    {
        Fragment {
            position: position,
            scale: scale,
            normal: Vector3 { x: 0, y: 0, z: 0 },
            tex: None,
            weight: 1,
            param: param,
            du: dp_du,
            dv: dp_dv,
        }
    }

    /// A fragment without normal or texture coordinates.
    pub open spec fn bare(
        position: Vector3<i128>,
        scale: i128,
        param: Ratio,
        dp_du: Vector3<i64>,
        dp_dv: Vector3<i64>,
    ) -> Fragment {
        Fragment {
            position: position,
            scale: scale,
            normal: Vector3 { x: 0, y: 0, z: 0 },
            tex: None,
            weight: 1,
            param: param,
            du: dp_du,
            dv: dp_dv,
        }
    }

    /// The fragment is the point of `ray` at the fragment's own parameter.
    pub open spec fn lies_on(&self, ray: Ray) -> bool {
        &&& self.param.wf()
        &&& self.scale == self.param.den
        &&& self.position@ == ray.point_times(self.param.num as int, self.param.den as int)
    }
}

impl Plane {
    /// The plane through `origin` spanned by `vec1` and `vec2`.
    pub fn new(vec1: &Vector3<i64>, vec2: &Vector3<i64>, origin: &Vector3<i64>) -> (p: Plane)
        requires
            bounded(vec1@, 2 * LIMIT),
            bounded(vec2@, 2 * LIMIT),
            bounded(origin@, LIMIT as int),
        ensures
            p.normal_vector() == crate::algebra::cross(vec1@, vec2@),
            p.d == -dot(origin@, p.normal_vector()),
            p.wf(),
    {
        let cross = cross_product(&widen(vec1), &widen(vec2), Ghost(16384), Ghost(16384));
        let offset = dot_product(&widen(origin), &cross, Ghost(8192), Ghost(536870912));
        Plane { a: cross.x as i64, b: cross.y as i64, c: cross.z as i64, d: (-offset) as i64 }
    }

    /// The plane `a x + b y + c z + d = 0`, if its coefficients are within
    /// the limits.
    pub fn from_coefficients(a: i64, b: i64, c: i64, d: i64) -> (p: Option<Plane>)
        ensures
            p is Some <==> (Plane { a, b, c, d }).wf(),
            p matches Some(q) ==> q == (Plane { a, b, c, d }),
    {
        let n = Vector3 { x: a, y: b, z: c };
        if within_limit(&n, NORMAL_LIMIT) && -OFFSET_LIMIT <= d && d <= OFFSET_LIMIT {
            Some(Plane { a, b, c, d })
        } else {
            None
        }
    }

    /// The normal `(a, b, c)` of the plane.
    pub open spec fn normal_vector(&self) -> Vector3<int> {
        Vector3 { x: self.a as int, y: self.b as int, z: self.c as int }
    }

    pub fn normal(&self) -> (n: Vector3<i64>)
        ensures
            n@ == self.normal_vector(),
    {
        Vector3 { x: self.a, y: self.b, z: self.c }
    }

    /// The left-hand side of the plane's equation at the point `p / w`,
    /// times `w`.
    pub open spec fn eval(&self, p: Vector3<int>, w: int) -> int {
        dot(self.normal_vector(), p) + self.d * w
    }

    /// The rate at which the ray moves through the plane's equation: zero
    /// when the ray is parallel to the plane.
    pub open spec fn rate(&self, ray: Ray) -> int {
        dot(self.normal_vector(), ray.slope@)
    }

    /// What the ray's origin lacks to satisfy the plane's equation.
    pub open spec fn lack(&self, ray: Ray) -> int {
        -(self.d + dot(self.normal_vector(), ray.origin@))
    }

    /// The parameter at which the ray's line meets the plane, where the ray
    /// is not parallel to it: `lack / rate`, with a positive denominator.
    pub open spec fn crossing(&self, ray: Ray) -> Ratio {
        if self.rate(ray) > 0 {
            Ratio { num: self.lack(ray) as i64, den: self.rate(ray) as i64 }
        } else {
            Ratio { num: (-self.lack(ray)) as i64, den: (-self.rate(ray)) as i64 }
        }
    }

    /// Whether the ray meets the plane within its range.
    pub open spec fn meets(&self, ray: Ray) -> bool {
        &&& self.rate(ray) != 0
        &&& self.crossing(ray).num >= 0
        &&& ray.max_t matches Some(m) ==> self.crossing(ray).num * m.den <= m.num
            * self.crossing(ray).den
    }

    /// The fragment at which the ray meets the plane.
    pub open spec fn fragment_at_crossing(&self, ray: Ray) -> Fragment {
        let t = self.crossing(ray);
        Fragment::bare(
            Vector3 {
                x: (ray.origin.x * t.den + ray.slope.x * t.num) as i128,
                y: (ray.origin.y * t.den + ray.slope.y * t.num) as i128,
                z: (ray.origin.z * t.den + ray.slope.z * t.num) as i128,
            },
            t.den as i128,
            t,
            Vector3 { x: 0, y: 0, z: 0 },
            Vector3 { x: 0, y: 0, z: 0 },
        )
    }

    /// The rate and the lack of a ray fit in 64 bits.
    pub proof fn lemma_factors_bounded(&self, ray: Ray)
        requires
            self.wf(),
            ray.wf(),
        ensures
            -26388279066624 <= self.rate(ray) <= 26388279066624,
            -26388279066624 <= self.lack(ray) <= 26388279066624,
    {
        let n = self.normal_vector();
        lemma_product_bounded(n.x, ray.slope.x as int, 536870912, 16384);
        lemma_product_bounded(n.y, ray.slope.y as int, 536870912, 16384);
        lemma_product_bounded(n.z, ray.slope.z as int, 536870912, 16384);
        lemma_product_bounded(n.x, ray.origin.x as int, 536870912, 8192);
        lemma_product_bounded(n.y, ray.origin.y as int, 536870912, 8192);
        lemma_product_bounded(n.z, ray.origin.z as int, 536870912, 8192);
    }

    /// The fragment of a hit has a positive scale, a parameter that is not
    /// negative, and coordinates within known bounds.
    pub proof fn lemma_fragment_bounded(&self, ray: Ray)
        requires
            self.wf(),
            ray.wf(),
        ensures
            self.hit(ray) matches Some(f) ==> {
                &&& f.param.wf()
                &&& f.param.num >= 0
                &&& f.param == self.crossing(ray)
                &&& 0 < f.scale <= 26388279066624
                &&& f.scale == f.param.den
                &&& bounded(f.position@, 648518346341351424)
                &&& f.position@ == ray.point_times(f.param.num as int, f.param.den as int)
                &&& ray.max_t matches Some(m) ==> f.param.val() <= m.val()
            },
    {
        self.lemma_factors_bounded(ray);
        if self.hit(ray) is Some {
            let t = self.crossing(ray);
            let o = ray.origin@;
            let s = ray.slope@;
            lemma_product_bounded(o.x, t.den as int, 8192, 26388279066624);
            lemma_product_bounded(o.y, t.den as int, 8192, 26388279066624);
            lemma_product_bounded(o.z, t.den as int, 8192, 26388279066624);
            lemma_product_bounded(s.x, t.num as int, 16384, 26388279066624);
            lemma_product_bounded(s.y, t.num as int, 16384, 26388279066624);
            lemma_product_bounded(s.z, t.num as int, 16384, 26388279066624);
            if ray.max_t is Some {
                let mx = ray.max_t.unwrap();
                lemma_ratio_order(t.num as int, t.den as int, mx.num as int, mx.den as int);
            }
        }
    }

    /// What a hit means: the ray is not parallel to the plane, and the
    /// parameter `lack / rate` of the crossing is not negative and not
    /// beyond the ray's bound. The fragment then lies on the ray and on the
    /// plane.
    pub proof fn lemma_hit_meaning(&self, ray: Ray)
        requires
            self.wf(),
            ray.wf(),
        ensures
            self.hit(ray) is Some <==> self.rate(ray) != 0 && ray.admits(
                ratio_of(self.lack(ray), self.rate(ray)),
            ),
            self.hit(ray) matches Some(f) ==> {
                &&& f.lies_on(ray)
                &&& f.param.val() == ratio_of(self.lack(ray), self.rate(ray))
                &&& self.eval(f.position@, f.scale as int) == 0
            },
    {
        self.lemma_factors_bounded(ray);
        let m = self.rate(ray);
        let p = self.lack(ray);
        if m != 0 {
            let t = self.crossing(ray);
            assert(t.val() == ratio_of(p, m)) by {
                let pr = p as real;
                let mr = m as real;
                assert((-pr) / (-mr) == pr / mr) by (nonlinear_arith)
                    requires
                        mr != 0real,
                ;
            }
            lemma_ratio_sign(t.num as int, t.den as int);
            if ray.max_t is Some {
                let mx = ray.max_t.unwrap();
                lemma_ratio_order(mx.num as int, mx.den as int, t.num as int, t.den as int);
                assert(t.num * mx.den == mx.den * t.num) by (nonlinear_arith);
            }
            if self.hit(ray) is Some {
                let f = self.hit(ray).unwrap();
                let n = self.normal_vector();
                let o = ray.origin@;
                let s = ray.slope@;
                lemma_product_bounded(o.x, t.den as int, 8192, 26388279066624);
                lemma_product_bounded(o.y, t.den as int, 8192, 26388279066624);
                lemma_product_bounded(o.z, t.den as int, 8192, 26388279066624);
                lemma_product_bounded(s.x, t.num as int, 16384, 26388279066624);
                lemma_product_bounded(s.y, t.num as int, 16384, 26388279066624);
                lemma_product_bounded(s.z, t.num as int, 16384, 26388279066624);
                let tn = t.num as int;
                let td = t.den as int;
                let d = self.d as int;
                assert(tn * m == p * td) by (nonlinear_arith)
                    requires
                        (tn == p && td == m) || (tn == -p && td == -m),
                ;
                lemma_dot_linear(n, o, td, s, tn);
                lemma_difference_scaled(dot(n, o), d, td);
                assert((-p) * td + m * tn == 0) by (nonlinear_arith)
                    requires
                        tn * m == p * td,
                ;
            }
        }
    }
}

impl Surface for Plane {
    open spec fn wf(&self) -> bool {
        &&& bounded(self.normal_vector(), NORMAL_LIMIT as int)
        &&& -OFFSET_LIMIT <= self.d <= OFFSET_LIMIT
    }

    open spec fn hit(&self, ray: Ray) -> Option<Fragment> {
        if self.meets(ray) {
            Some(self.fragment_at_crossing(ray))
        } else {
            None
        }
    }

    /// A plane leaves the ray as it is.
    open spec fn trimmed(&self, ray: Ray) -> Ray {
        ray
    }

    /// A plane blocks every ray that is not parallel to it, and leaves the
    /// ray as it is.
    open spec fn shadowed(&self, ray: Ray) -> Option<Ray> {
        if self.rate(ray) != 0 {
            Some(ray)
        } else {
            None
        }
    }

    fn get_intersection_fragment(&self, ray: &mut Ray) -> (r: Option<Fragment>) {
        proof {
            self.lemma_factors_bounded(*ray);
        }
        let n = Vector3 { x: self.a as i128, y: self.b as i128, z: self.c as i128 };
        let slope = widen(&ray.slope);
        let origin = widen(&ray.origin);

        // a x + b y + c z + d = 0  <=>  m * t = p
        let m = dot_product(&n, &slope, Ghost(536870912), Ghost(16384));
        let q = dot_product(&n, &origin, Ghost(536870912), Ghost(8192));
        let p = -(self.d as i128 + q);

        if m == 0 {
            None
        } else {
            let (num, den) = if m > 0 {
                (p, m)
            } else {
                (-p, -m)
            };
            let t = Ratio { num: num as i64, den: den as i64 };
            assert(t == self.crossing(*ray));
            if num < 0 {
                return None;
            }
            match ray.max_t {
                Some(mx) => {
                    if t.greater_than(&mx) {
                        // The surface is beyond a nearer hit.
                        return None;
                    }
                },
                None => {},
            }
            let from_origin = scale(&origin, den, Ghost(8192), Ghost(26388279066624));
            let along = scale(&slope, num, Ghost(16384), Ghost(26388279066624));
            let position = sum(
                &from_origin,
                &along,
                Ghost(216172782113783808),
                Ghost(432345564227567616),
            );
            Some(
                Fragment::new(
                    position,
                    den,
                    t,
                    Vector3 { x: 0, y: 0, z: 0 },
                    Vector3 { x: 0, y: 0, z: 0 },
                ),
            )
        }
    }

    fn fast_intersection(&self, ray: &mut Ray) -> (b: bool) {
        let n = Vector3 { x: self.a as i128, y: self.b as i128, z: self.c as i128 };
        let slope = widen(&ray.slope);
        dot_product(&n, &slope, Ghost(536870912), Ghost(16384)) != 0
    }
}

impl Fragment {
    /// The point of the lattice nearest to the hit point on the side of
    /// the origin, if the hit point lies within the lattice.
    pub open spec fn spec_lattice_point(&self) -> Option<Vector3<i64>> {
        let p = crate::exact::shrunk(self.position@, self.scale as int);
        if self.scale > 0 && bounded(self.position@, 0x7fff_ffff_ffff_ffff_ffff_ffff_ffff_fffe)
            && bounded(p, LIMIT as int) {
            Some(Vector3 { x: p.x as i64, y: p.y as i64, z: p.z as i64 })
        } else {
            None
        }
    }

    /// The hit point, rounded to the lattice.
    pub fn lattice_point(&self) -> (r: Option<Vector3<i64>>)
        ensures
            r == self.spec_lattice_point(),
            r matches Some(p) ==> bounded(p@, LIMIT as int),
    {
        reduce(&self.position, self.scale)
    }

    /// The normal at the hit point, brought back to the scale of the
    /// normals of the vertices, if the fragment has a positive weight.
    pub open spec fn spec_lattice_normal(&self) -> Option<Vector3<i64>> {
        let p = crate::exact::shrunk(self.normal@, self.weight as int);
        if self.weight > 0 && bounded(self.normal@, 0x7fff_ffff_ffff_ffff_ffff_ffff_ffff_fffe)
            && bounded(p, LIMIT as int) {
            Some(Vector3 { x: p.x as i64, y: p.y as i64, z: p.z as i64 })
        } else {
            None
        }
    }

    /// The normal at the hit point, on the scale of the normals of the
    /// vertices.
    pub fn lattice_normal(&self) -> (r: Option<Vector3<i64>>)
        ensures
            r == self.spec_lattice_normal(),
            r matches Some(p) ==> bounded(p@, LIMIT as int),
    {
        reduce(&self.normal, self.weight)
    }
}

/// The vector `v / w`, each component rounded toward zero, if `w` is
/// positive and the result lies within the lattice.
fn reduce(v: &Vector3<i128>, w: i128) -> (r: Option<Vector3<i64>>)
    ensures
        r == ({
            let p = crate::exact::shrunk(v@, w as int);
            if w > 0 && bounded(v@, 0x7fff_ffff_ffff_ffff_ffff_ffff_ffff_fffe) && bounded(
                p,
                LIMIT as int,
            ) {
                Some(Vector3 { x: p.x as i64, y: p.y as i64, z: p.z as i64 })
            } else {
                None::<Vector3<i64>>
            }
        }),
        r matches Some(p) ==> bounded(p@, LIMIT as int),
{
    let most: i128 = 0x7fff_ffff_ffff_ffff_ffff_ffff_ffff_fffe;
    if w <= 0 || v.x < -most || v.x > most || v.y < -most || v.y > most || v.z < -most || v.z
        > most {
        return None;
    }
    let p = crate::exact::shrink(v, w, Ghost(0x7fff_ffff_ffff_ffff_ffff_ffff_ffff_fffe));
    let limit = LIMIT as i128;
    if -limit <= p.x && p.x <= limit && -limit <= p.y && p.y <= limit && -limit <= p.z && p.z
        <= limit {
        Some(Vector3 { x: p.x as i64, y: p.y as i64, z: p.z as i64 })
    } else {
        None
    }
}

impl Fragment {
    /// The texture coordinates at the hit point, brought back to the scale
    /// of those of the vertices, where the fragment has some, a positive
    /// weight, and coordinates within the lattice.
    pub open spec fn spec_tex_coordinates(&self) -> Option<Vector2<i64>> {
        match self.tex {
            Some(t) => {
                let x = crate::exact::quotient_toward_zero(t.x as int, self.weight as int);
                let y = crate::exact::quotient_toward_zero(t.y as int, self.weight as int);
                if self.weight > 0 && t.x > i128::MIN && t.y > i128::MIN && -LIMIT <= x <= LIMIT
                    && -LIMIT <= y <= LIMIT {
                    Some(Vector2 { x: x as i64, y: y as i64 })
                } else {
                    None
                }
            },
            None => None,
        }
    }

    /// The texture coordinates at the hit point, on the scale of those of
    /// the vertices.
    pub fn tex_coordinates(&self) -> (r: Option<Vector2<i64>>)
        ensures
            r == self.spec_tex_coordinates(),
    {
        match self.tex {
            Some(t) => {
                if self.weight <= 0 || t.x == i128::MIN || t.y == i128::MIN {
                    return None;
                }
                let x = crate::exact::divide_toward_zero(t.x, self.weight);
                let y = crate::exact::divide_toward_zero(t.y, self.weight);
                let limit = LIMIT as i128;
                if -limit <= x && x <= limit && -limit <= y && y <= limit {
                    Some(Vector2 { x: x as i64, y: y as i64 })
                } else {
                    None
                }
            },
            None => None,
        }
    }
}

/// The place where a ray meets the geometry of an object.
pub struct Intersection<'a> {
    pub fragment: Fragment,
    pub geometry: &'a Mesh,
    pub material: &'a FlatMaterial,
    pub ray: Ray,
}

impl<'a> Intersection<'a> {
    pub fn new<'b: 'a>(frag: Fragment, ray: Ray, geo: &'b Mesh, mat: &'b FlatMaterial) -> (i:
        Intersection<'a>)
        ensures
            i.fragment == frag,
            i.ray == ray,
            i.geometry == geo,
            i.material == mat,
    {
        Intersection { fragment: frag, geometry: geo, material: mat, ray: ray }
    }

    /// The colour of the point, by the material of the object that was
    /// hit. The material is given the register of textures where the
    /// fragment has texture coordinates.
    pub open spec fn point_color(&self, world: &World, textures: Seq<Image<RGBA8>>) -> Option<RGBA32> {
        match self.fragment.tex {
            Some(_) => self.material.shade(self.fragment, self.ray, world, Some(textures)),
            None => self.material.shade(self.fragment, self.ray, world, None),
        }
    }

    pub fn get_point_color(&self, world: &World, texture_register: &TextureRegister) -> (c: Option<
        RGBA32,
    >)
        requires
            world.wf(),
            register_wf(texture_register@),
        ensures
            c == self.point_color(world, texture_register@),
    {
        match self.fragment.tex {
            Some(_) => self.material.get_color(
                &self.fragment,
                &self.ray,
                world,
                Some(texture_register),
            ),
            None => self.material.get_color(&self.fragment, &self.ray, world, None),
        }
    }
}

} // verus!
