//! An axis-aligned box around an object, and the slab test that tells
//! whether the line of a ray passes through it. The test is a cheap filter
//! before the triangles of the object are tried one by one.
use crate::algebra::bounded;
use crate::exact::{lemma_ratio_order, ratio_of, LIMIT};
use crate::geometry::obj3d::{Object, Triangle};
use crate::math::Vector3;
use crate::ray::{Ray, Surface};
use vstd::prelude::*;

verus! {

/// A box with its faces parallel to the axes. Before a point is added, it is
/// empty: its least corner is at the greatest value on every axis, and its
/// greatest corner at the least.
#[derive(Debug, Clone)]
pub struct BoundingBox {
    pub min: Vector3<i64>,
    pub max: Vector3<i64>,
}

/// The part of a line, by its parameter, that lies between the two planes of
/// a box on one axis: either the whole line, or the parameters from
/// `lo_num / lo_den` to `hi_num / hi_den`.
pub struct Slab {
    pub whole: bool,
    pub lo_num: i128,
    pub lo_den: i128,
    pub hi_num: i128,
    pub hi_den: i128,
}

/// Whether the point at parameter `t` of the line from `o` along `s` lies
/// between `lo` and `hi`, on one axis.
pub open spec fn axis_holds(lo: int, hi: int, o: int, s: int, t: real) -> bool {
    lo as real <= o as real + t * (s as real) <= hi as real
}

impl Slab {
    /// The numerators are small, the denominators positive and small, and
    /// the part is not empty.
    pub open spec fn wf(&self) -> bool {
        &&& 0 < self.lo_den <= 16384
        &&& 0 < self.hi_den <= 16384
        &&& -16384 <= self.lo_num <= 16384
        &&& -16384 <= self.hi_num <= 16384
        &&& !self.whole ==> self.lo_num * self.hi_den <= self.hi_num * self.lo_den
    }

    /// The parameter `t` belongs to the part.
    pub open spec fn has(&self, t: real) -> bool {
        self.whole || ratio_of(self.lo_num as int, self.lo_den as int) <= t <= ratio_of(
            self.hi_num as int,
            self.hi_den as int,
        )
    }

    /// The least parameter of a part that is not the whole line.
    pub open spec fn first(&self) -> real {
        ratio_of(self.lo_num as int, self.lo_den as int)
    }

    /// A part that is well formed has a parameter.
    pub proof fn lemma_not_empty(&self)
        requires
            self.wf(),
        ensures
            exists|t: real| self.has(t),
    {
        if self.whole {
            assert(self.has(0real));
        } else {
            lemma_ratio_order(
                self.lo_num as int,
                self.lo_den as int,
                self.hi_num as int,
                self.hi_den as int,
            );
            assert(self.has(self.first()));
        }
    }
}

/// Between two planes at `lo <= hi` on an axis along which the line does
/// not move, the line lies either wholly or not at all.
proof fn lemma_axis_still(lo: int, hi: int, o: int, t: real)
    ensures
        axis_holds(lo, hi, o, 0, t) <==> lo <= o <= hi,
{
    assert(t * (0 as real) == 0real) by (nonlinear_arith);
}

/// On an axis along which the line moves forward, the line lies between the
/// planes from `(lo - o) / s` to `(hi - o) / s`.
proof fn lemma_axis_forward(lo: int, hi: int, o: int, s: int, t: real)
    requires
        s > 0,
    ensures
        axis_holds(lo, hi, o, s, t) <==> ratio_of(lo - o, s) <= t <= ratio_of(hi - o, s),
{
    let sr = s as real;
    let a = (lo - o) as real;
    let b = (hi - o) as real;
    assert(a == lo as real - o as real);
    assert(b == hi as real - o as real);
    assert((a <= t * sr <==> a / sr <= t) && (t * sr <= b <==> t <= b / sr)) by (nonlinear_arith)
        requires
            sr > 0real,
    ;
}

/// On an axis along which the line moves backward, the line lies between
/// the planes from `(o - hi) / -s` to `(o - lo) / -s`.
proof fn lemma_axis_backward(lo: int, hi: int, o: int, s: int, t: real)
    requires
        s < 0,
    ensures
        axis_holds(lo, hi, o, s, t) <==> ratio_of(o - hi, -s) <= t <= ratio_of(o - lo, -s),
{
    let sr = s as real;
    let nr = (-s) as real;
    let a = (o - hi) as real;
    let b = (o - lo) as real;
    assert(nr == -sr);
    assert(a == o as real - hi as real);
    assert(b == o as real - lo as real);
    assert((-b <= t * sr <==> t <= b / nr) && (t * sr <= -a <==> a / nr <= t)) by (nonlinear_arith)
        requires
            sr < 0real,
            nr == -sr,
    ;
}

/// The part of the line from `o` along `s` that lies between `lo` and `hi`,
/// if there is any.
fn slab(lo: i64, hi: i64, o: i64, s: i64) -> (r: Option<Slab>)
    requires
        -8192 <= lo <= hi <= 8192,
        -8192 <= o <= 8192,
        -16384 <= s <= 16384,
    ensures
        r is None ==> forall|t: real| !#[trigger] axis_holds(lo as int, hi as int, o as int, s as int, t),
        r matches Some(part) ==> part.wf() && forall|t: real|
            #[trigger] axis_holds(lo as int, hi as int, o as int, s as int, t) <==> part.has(t),
{
    if s == 0 {
        proof {
            assert forall|t: real|
                #[trigger] axis_holds(lo as int, hi as int, o as int, s as int, t) <==> lo <= o
                    <= hi by {
                lemma_axis_still(lo as int, hi as int, o as int, t);
            }
        }
        if lo <= o && o <= hi {
            Some(Slab { whole: true, lo_num: 0, lo_den: 1, hi_num: 0, hi_den: 1 })
        } else {
            None
        }
    } else if s > 0 {
        let part = Slab {
            whole: false,
            lo_num: lo as i128 - o as i128,
            lo_den: s as i128,
            hi_num: hi as i128 - o as i128,
            hi_den: s as i128,
        };
        proof {
            assert forall|t: real|
                #[trigger] axis_holds(lo as int, hi as int, o as int, s as int, t) <==> part.has(
                    t,
                ) by {
                lemma_axis_forward(lo as int, hi as int, o as int, s as int, t);
            }
            assert((lo - o) * s <= (hi - o) * s) by (nonlinear_arith)
                requires
                    lo <= hi,
                    s > 0,
            ;
        }
        Some(part)
    } else {
        let part = Slab {
            whole: false,
            lo_num: o as i128 - hi as i128,
            lo_den: -(s as i128),
            hi_num: o as i128 - lo as i128,
            hi_den: -(s as i128),
        };
        proof {
            assert forall|t: real|
                #[trigger] axis_holds(lo as int, hi as int, o as int, s as int, t) <==> part.has(
                    t,
                ) by {
                lemma_axis_backward(lo as int, hi as int, o as int, s as int, t);
            }
            assert((o - hi) * (-s) <= (o - lo) * (-s)) by (nonlinear_arith)
                requires
                    lo <= hi,
                    s < 0,
            ;
        }
        Some(part)
    }
}

/// Whether `a / b <= c / d`, for small numerators and small positive
/// denominators.
fn ratio_at_most(a: i128, b: i128, c: i128, d: i128) -> (r: bool)
    requires
        -16384 <= a <= 16384,
        -16384 <= c <= 16384,
        0 < b <= 16384,
        0 < d <= 16384,
    ensures
        r == (ratio_of(a as int, b as int) <= ratio_of(c as int, d as int)),
        r == (a * d <= c * b),
{
    proof {
        lemma_ratio_order(a as int, b as int, c as int, d as int);
        crate::algebra::lemma_product_bounded(a as int, d as int, 16384, 16384);
        crate::algebra::lemma_product_bounded(c as int, b as int, 16384, 16384);
    }
    a * d <= c * b
}

/// The parameters that two parts have in common, if there are any: the
/// greater of the two least parameters and the lesser of the two greatest.
fn meet(a: &Slab, b: &Slab) -> (r: Option<Slab>)
    requires
        a.wf(),
        b.wf(),
    ensures
        r is None ==> forall|t: real| !(a.has(t) && b.has(t)),
        r matches Some(c) ==> c.wf() && forall|t: real| #[trigger] c.has(t) <==> a.has(t) && b.has(t),
{
    if a.whole {
        Some(
            Slab {
                whole: b.whole,
                lo_num: b.lo_num,
                lo_den: b.lo_den,
                hi_num: b.hi_num,
                hi_den: b.hi_den,
            },
        )
    } else if b.whole {
        Some(
            Slab {
                whole: false,
                lo_num: a.lo_num,
                lo_den: a.lo_den,
                hi_num: a.hi_num,
                hi_den: a.hi_den,
            },
        )
    } else {
        // tmin > tymax || tymin > tmax
        if !ratio_at_most(a.lo_num, a.lo_den, b.hi_num, b.hi_den) || !ratio_at_most(
            b.lo_num,
            b.lo_den,
            a.hi_num,
            a.hi_den,
        ) {
            return None;
        }
        let a_lo_first = ratio_at_most(a.lo_num, a.lo_den, b.lo_num, b.lo_den);
        let a_hi_last = ratio_at_most(b.hi_num, b.hi_den, a.hi_num, a.hi_den);
        let (lo_num, lo_den) = if a_lo_first {
            (b.lo_num, b.lo_den)
        } else {
            (a.lo_num, a.lo_den)
        };
        let (hi_num, hi_den) = if a_hi_last {
            (b.hi_num, b.hi_den)
        } else {
            (a.hi_num, a.hi_den)
        };
        let c = Slab { whole: false, lo_num, lo_den, hi_num, hi_den };
        proof {
            lemma_ratio_order(a.lo_num as int, a.lo_den as int, a.hi_num as int, a.hi_den as int);
            lemma_ratio_order(b.lo_num as int, b.lo_den as int, b.hi_num as int, b.hi_den as int);
            lemma_ratio_order(lo_num as int, lo_den as int, hi_num as int, hi_den as int);
        }
        Some(c)
    }
}

impl BoundingBox {
    /// The empty box.
    pub fn new() -> (b: BoundingBox)
        ensures
            b.is_empty(),
            b.wf(),
    {
        BoundingBox {
            min: Vector3 { x: i64::MAX, y: i64::MAX, z: i64::MAX },
            max: Vector3 { x: i64::MIN, y: i64::MIN, z: i64::MIN },
        }
    }

    /// The box is as it is before any point was added.
    pub open spec fn is_empty(&self) -> bool {
        &&& self.min == (Vector3 { x: i64::MAX, y: i64::MAX, z: i64::MAX })
        &&& self.max == (Vector3 { x: i64::MIN, y: i64::MIN, z: i64::MIN })
    }

    /// The box is empty, or its least corner is nowhere beyond its greatest
    /// and both are within the limits of the lattice.
    pub open spec fn wf(&self) -> bool {
        self.is_empty() || {
            &&& self.min.x <= self.max.x
            &&& self.min.y <= self.max.y
            &&& self.min.z <= self.max.z
            &&& bounded(self.min@, LIMIT as int)
            &&& bounded(self.max@, LIMIT as int)
        }
    }

    /// The point `p` lies in the box, its faces included.
    pub open spec fn contains(&self, p: Vector3<int>) -> bool {
        &&& self.min.x <= p.x <= self.max.x
        &&& self.min.y <= p.y <= self.max.y
        &&& self.min.z <= p.z <= self.max.z
    }

    /// The least box that holds this one and the point `b`.
    pub open spec fn with_point(self, b: Vector3<i64>) -> BoundingBox {
        BoundingBox {
            min: Vector3 {
                x: if b.x < self.min.x { b.x } else { self.min.x },
                y: if b.y < self.min.y { b.y } else { self.min.y },
                z: if b.z < self.min.z { b.z } else { self.min.z },
            },
            max: Vector3 {
                x: if b.x > self.max.x { b.x } else { self.max.x },
                y: if b.y > self.max.y { b.y } else { self.max.y },
                z: if b.z > self.max.z { b.z } else { self.max.z },
            },
        }
    }

    /// The least box that holds this one and the triangle `t`.
    pub open spec fn with_triangle(self, t: Triangle) -> BoundingBox {
        self.with_point(t.u.pos).with_point(t.v.pos).with_point(t.w.pos)
    }

    /// The least box that holds this one and the first `k` of the
    /// triangles `tris`.
    pub open spec fn with_triangles(self, tris: Seq<Triangle>, k: int) -> BoundingBox
        decreases k,
    {
        if k <= 0 {
            self
        } else {
            self.with_triangles(tris, k - 1).with_triangle(tris[k - 1])
        }
    }

    /// The three vertices of the triangle lie in the box.
    pub open spec fn holds(&self, t: Triangle) -> bool {
        self.contains(t.pa()) && self.contains(t.pb()) && self.contains(t.pc())
    }

    /// The box that bounds the triangles of the object.
    pub fn new_from_object(obj: &Object) -> (b: BoundingBox)
        requires
            obj.mesh_wf(),
        ensures
            b == (BoundingBox {
                min: Vector3 { x: i64::MAX, y: i64::MAX, z: i64::MAX },
                max: Vector3 { x: i64::MIN, y: i64::MIN, z: i64::MIN },
            }).with_triangles(obj.triangles_view(), obj.triangles_view().len() as int),
            b.wf(),
            forall|i: int| 0 <= i < obj.triangles_view().len() ==> b.holds(#[trigger] obj.triangles_view()[i]),
            b.is_empty() <==> obj.triangles_view().len() == 0,
    {
        let mut result = BoundingBox::new();
        result.adapt_to(obj);
        result
    }

    /// Grows the box, if need be, to hold the point `b`. A point that was in
    /// the box stays in it, and no corner moves farther than to `b`.
    pub fn add_point(&mut self, b: Vector3<i64>)
        requires
            old(self).wf(),
            bounded(b@, LIMIT as int),
        ensures
            final(self).wf(),
            !final(self).is_empty(),
            final(self).contains(b@),
            forall|p: Vector3<int>| old(self).contains(p) ==> final(self).contains(p),
            *final(self) == old(self).with_point(b),
    {
        self.min = Vector3 {
            x: if b.x < self.min.x { b.x } else { self.min.x },
            y: if b.y < self.min.y { b.y } else { self.min.y },
            z: if b.z < self.min.z { b.z } else { self.min.z },
        };
        self.max = Vector3 {
            x: if b.x > self.max.x { b.x } else { self.max.x },
            y: if b.y > self.max.y { b.y } else { self.max.y },
            z: if b.z > self.max.z { b.z } else { self.max.z },
        };
    }

    /// Grows the box, if need be, to hold the triangle `b`.
    pub fn add_triangle(&mut self, b: &Triangle)
        requires
            old(self).wf(),
            b.wf(),
        ensures
            *final(self) == old(self).with_triangle(*b),
            final(self).wf(),
            !final(self).is_empty(),
            final(self).holds(*b),
            forall|p: Vector3<int>| old(self).contains(p) ==> final(self).contains(p),
    {
        self.add_point(b.u_pos());
        self.add_point(b.v_pos());
        self.add_point(b.w_pos());
    }

    /// Grows the box, if need be, to hold every triangle of the object.
    pub fn adapt_to(&mut self, obj: &Object)
        requires
            old(self).wf(),
            obj.mesh_wf(),
        ensures
            *final(self) == old(self).with_triangles(
                obj.triangles_view(),
                obj.triangles_view().len() as int,
            ),
            final(self).wf(),
            forall|i: int| 0 <= i < obj.triangles_view().len() ==> final(self).holds(#[trigger] obj.triangles_view()[i]),
            forall|p: Vector3<int>| old(self).contains(p) ==> final(self).contains(p),
            final(self).is_empty() <==> old(self).is_empty() && obj.triangles_view().len() == 0,
    {
        let triangles = obj.triangles();
        let mut i: usize = 0;
        while i < triangles.len()
            invariant
                i <= triangles.len(),
                triangles@ == obj.triangles_view(),
                obj.mesh_wf(),
                self.wf(),
                *self == old(self).with_triangles(triangles@, i as int),
                forall|j: int| 0 <= j < i ==> self.holds(#[trigger] triangles@[j]),
                forall|p: Vector3<int>| old(self).contains(p) ==> self.contains(p),
                self.is_empty() <==> old(self).is_empty() && i == 0,
            decreases triangles.len() - i,
        {
            self.add_triangle(&triangles[i]);
            i = i + 1;
        }
    }

    /// The point at parameter `t` of the line of the ray lies in the box.
    pub open spec fn holds_at(&self, ray: Ray, t: real) -> bool {
        &&& axis_holds(self.min.x as int, self.max.x as int, ray.origin.x as int, ray.slope.x as int, t)
        &&& axis_holds(self.min.y as int, self.max.y as int, ray.origin.y as int, ray.slope.y as int, t)
        &&& axis_holds(self.min.z as int, self.max.z as int, ray.origin.z as int, ray.slope.z as int, t)
    }

    /// The line of the ray passes through the box.
    pub open spec fn crossed_by(&self, ray: Ray) -> bool {
        exists|t: real| self.holds_at(ray, t)
    }

    /// The slab test: on each axis, the part of the line between the two
    /// planes of the box; the line passes through the box when the three
    /// parts have a parameter in common.
    fn fast_intersect(&self, ray: &Ray) -> (b: bool)
        requires
            self.wf(),
            ray.wf(),
        ensures
            b == self.crossed_by(*ray),
    {
        if self.min.x > self.max.x {
            proof {
                assert forall|t: real| !self.holds_at(*ray, t) by {}
            }
            return false;
        }
        // X
        let part_x = match slab(self.min.x, self.max.x, ray.origin.x, ray.slope.x) {
            Some(part) => part,
            None => {
                return false;
            },
        };
        // Y
        let part_y = match slab(self.min.y, self.max.y, ray.origin.y, ray.slope.y) {
            Some(part) => part,
            None => {
                return false;
            },
        };
        // The easy case: no need to look at Z.
        let part_xy = match meet(&part_x, &part_y) {
            Some(part) => part,
            None => {
                assert forall|t: real| !self.holds_at(*ray, t) by {
                    assert(!(part_x.has(t) && part_y.has(t)));
                }
                return false;
            },
        };
        // Z
        let part_z = match slab(self.min.z, self.max.z, ray.origin.z, ray.slope.z) {
            Some(part) => part,
            None => {
                return false;
            },
        };
        match meet(&part_xy, &part_z) {
            Some(part) => {
                proof {
                    part.lemma_not_empty();
                    let t = choose|t: real| part.has(t);
                    assert(part_xy.has(t) && part_z.has(t));
                    assert(part_x.has(t) && part_y.has(t));
                    assert(self.holds_at(*ray, t));
                }
                true
            },
            None => {
                assert forall|t: real| !self.holds_at(*ray, t) by {
                    assert(!(part_xy.has(t) && part_z.has(t)));
                    if part_z.has(t) {
                        assert(!part_xy.has(t));
                        assert(!(part_x.has(t) && part_y.has(t)));
                    }
                }
                false
            },
        }
    }

    /// Whether the line of the ray passes through the box.
    pub fn intersects(&self, ray: &Ray) -> (b: bool)
        requires
            self.wf(),
            ray.wf(),
        ensures
            b == self.crossed_by(*ray),
    {
        self.fast_intersect(ray)
    }
}

impl Default for BoundingBox {
    fn default() -> (b: BoundingBox)
        ensures
            b.is_empty(),
    {
        BoundingBox::new()
    }
}

} // verus!
