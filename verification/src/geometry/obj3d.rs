//! Points with their attributes, triangles, and the two tests of a ray
//! against a triangle: the full one, which yields a fragment, and the quick
//! one, which only says whether the ray is blocked.
use crate::algebra::{bounded, bounded2, cross, dot, minus, plus, scaled};
use crate::exact::{
    cross_product, difference, divide_toward_zero, dot_product, quotient_nearest,
    quotient_toward_zero, scale, sum,
    widen, Ratio, LIMIT,
};
use crate::geometry::bounding_box::BoundingBox;
use crate::material::flat_material::FlatMaterial;
use crate::math::{Vector2, Vector3};
use crate::ray::{Fragment, Intersection, Plane, Ray, Surface};
use vstd::prelude::*;

verus! {

/// A vertex: a position, a normal and, where the mesh has them, texture
/// coordinates.
#[derive(Clone, Debug, Copy, PartialEq)]
pub struct GeoPoint {
    pub norm: Vector3<i64>,
    pub tex: Option<Vector2<i64>>,
    pub pos: Vector3<i64>,
}

/// A triangle, by its three vertices.
#[derive(Clone, Debug, Copy, PartialEq)]
pub struct Triangle {
    pub u: GeoPoint,
    pub v: GeoPoint,
    pub w: GeoPoint,
}

impl GeoPoint {
    pub fn new(pos: Vector3<i64>, norm: Vector3<i64>, tex: Option<Vector2<i64>>) -> (p: GeoPoint)
        ensures
            p == (GeoPoint { norm, tex, pos }),
    {
        GeoPoint { norm: norm, tex: tex, pos: pos }
    }

    /// A point without texture coordinates and with a zero normal.
    pub fn new_pos(pos: Vector3<i64>) -> (p: GeoPoint)
        ensures
            p == (GeoPoint { norm: Vector3 { x: 0, y: 0, z: 0 }, tex: None, pos }),
    {
        GeoPoint { norm: Vector3 { x: 0, y: 0, z: 0 }, pos: pos, tex: None }
    }

    /// Position, normal and texture coordinates lie within the limits of
    /// the lattice.
    pub open spec fn wf(&self) -> bool {
        &&& bounded(self.pos@, LIMIT as int)
        &&& bounded(self.norm@, LIMIT as int)
        &&& self.tex matches Some(t) ==> bounded2(t@, LIMIT as int)
    }

    /// Whether the point can be handed to the intersection tests.
    pub fn is_valid(&self) -> (b: bool)
        ensures
            b == self.wf(),
    {
        crate::ray::within_limit(&self.pos, LIMIT) && crate::ray::within_limit(&self.norm, LIMIT)
            && match self.tex {
            Some(t) => -LIMIT <= t.x && t.x <= LIMIT && -LIMIT <= t.y && t.y <= LIMIT,
            None => true,
        }
    }

    pub fn pos(&self) -> (p: Vector3<i64>)
        ensures
            p == self.pos,
    {
        self.pos
    }
}

impl Triangle {
    pub fn new(u: GeoPoint, v: GeoPoint, w: GeoPoint) -> (t: Triangle)
        ensures
            t == (Triangle { u, v, w }),
    {
        Triangle { u: u, v: v, w: w }
    }

    pub fn u_pos(&self) -> (p: Vector3<i64>)
        ensures
            p == self.u.pos,
    {
        self.u.pos()
    }

    pub fn v_pos(&self) -> (p: Vector3<i64>)
        ensures
            p == self.v.pos,
    {
        self.v.pos()
    }

    pub fn w_pos(&self) -> (p: Vector3<i64>)
        ensures
            p == self.w.pos,
    {
        self.w.pos()
    }

    /// Whether the triangle can be handed to the intersection tests.
    pub fn is_valid(&self) -> (b: bool)
        ensures
            b == self.wf(),
    {
        self.u.is_valid() && self.v.is_valid() && self.w.is_valid()
    }

    /// The first vertex.
    pub open spec fn pa(&self) -> Vector3<int> {
        self.u.pos@
    }

    /// The second vertex.
    pub open spec fn pb(&self) -> Vector3<int> {
        self.v.pos@
    }

    /// The third vertex.
    pub open spec fn pc(&self) -> Vector3<int> {
        self.w.pos@
    }

    /// The normal of the triangle's plane: the cross product of its first
    /// two edges. It is zero for a triangle without area.
    pub open spec fn face_normal(&self) -> Vector3<int> {
        cross(minus(self.pb(), self.pa()), minus(self.pc(), self.pb()))
    }

    /// The plane in which the triangle lies.
    pub open spec fn plane(&self) -> Plane {
        let n = self.face_normal();
        Plane { a: n.x as i64, b: n.y as i64, c: n.z as i64, d: (-dot(self.pa(), n)) as i64 }
    }

    /// The side of the point `p / w` with respect to the edge that starts at
    /// `from` along `edge`, times a positive factor: never positive for a
    /// point of the triangle.
    pub open spec fn side(
        &self,
        edge: Vector3<int>,
        from: Vector3<int>,
        p: Vector3<int>,
        w: int,
    ) -> int {
        dot(
            cross(minus(self.pb(), self.pa()), minus(self.pa(), self.pc())),
            cross(edge, minus(p, scaled(from, w))),
        )
    }

    /// The side of `p / w` with respect to the edge from the first vertex to
    /// the second.
    pub open spec fn side_ab(&self, p: Vector3<int>, w: int) -> int {
        self.side(minus(self.pb(), self.pa()), self.pa(), p, w)
    }

    /// The side of `p / w` with respect to the edge from the second vertex
    /// to the third.
    pub open spec fn side_bc(&self, p: Vector3<int>, w: int) -> int {
        self.side(minus(self.pc(), self.pb()), self.pb(), p, w)
    }

    /// The side of `p / w` with respect to the edge from the third vertex to
    /// the first.
    pub open spec fn side_ca(&self, p: Vector3<int>, w: int) -> int {
        self.side(minus(self.pa(), self.pc()), self.pc(), p, w)
    }

    /// Whether the point `p / w` of the triangle's plane, with `w > 0`, lies
    /// in the triangle, its edges included.
    pub open spec fn contains(&self, p: Vector3<int>, w: int) -> bool {
        self.side_ab(p, w) <= 0 && self.side_bc(p, w) <= 0 && self.side_ca(p, w) <= 0
    }

    /// The weight of the first vertex at `p / w`: the area of the
    /// sub-triangle opposite to it, times a positive factor.
    pub open spec fn weight_a(&self, p: Vector3<int>, w: int) -> int {
        -self.side_bc(p, w)
    }

    /// The weight of the second vertex at `p / w`.
    pub open spec fn weight_b(&self, p: Vector3<int>, w: int) -> int {
        -self.side_ca(p, w)
    }

    /// The weight of the third vertex at `p / w`.
    pub open spec fn weight_c(&self, p: Vector3<int>, w: int) -> int {
        -self.side_ab(p, w)
    }

    /// The fragment `f` of the triangle's plane, with the normal and the
    /// texture coordinates interpolated from the vertices.
    pub open spec fn shade(&self, f: Fragment) -> Fragment {
        let wa = self.weight_a(f.position@, f.scale as int);
        let wb = self.weight_b(f.position@, f.scale as int);
        let wc = self.weight_c(f.position@, f.scale as int);
        Fragment {
            position: f.position,
            scale: f.scale,
            normal: Vector3 {
                x: (self.u.norm.x * wa + self.v.norm.x * wb + self.w.norm.x * wc) as i128,
                y: (self.u.norm.y * wa + self.v.norm.y * wb + self.w.norm.y * wc) as i128,
                z: (self.u.norm.z * wa + self.v.norm.z * wb + self.w.norm.z * wc) as i128,
            },
            tex: match (self.u.tex, self.v.tex, self.w.tex) {
                (Some(ta), Some(tb), Some(tc)) => Some(
                    Vector2 {
                        x: (ta.x * wa + tb.x * wb + tc.x * wc) as i128,
                        y: (ta.y * wa + tb.y * wb + tc.y * wc) as i128,
                    },
                ),
                _ => None,
            },
            weight: (wa + wb + wc) as i128,
            param: f.param,
            du: f.du,
            dv: f.dv,
        }
    }

    /// The determinant of the quick test: zero when the ray is parallel to
    /// the triangle's plane, positive when the ray meets its front.
    pub open spec fn det(&self, ray: Ray) -> int {
        dot(minus(self.pb(), self.pa()), cross(ray.slope@, minus(self.pc(), self.pa())))
    }

    /// The first barycentric coordinate of the crossing, times `det`.
    pub open spec fn u_times_det(&self, ray: Ray) -> int {
        dot(minus(ray.origin@, self.pa()), cross(ray.slope@, minus(self.pc(), self.pa())))
    }

    /// The second barycentric coordinate of the crossing, times `det`.
    pub open spec fn v_times_det(&self, ray: Ray) -> int {
        dot(ray.slope@, cross(minus(ray.origin@, self.pa()), minus(self.pb(), self.pa())))
    }

    /// The parameter of the crossing, times `det`.
    pub open spec fn t_times_det(&self, ray: Ray) -> int {
        dot(
            minus(self.pc(), self.pa()),
            cross(minus(ray.origin@, self.pa()), minus(self.pb(), self.pa())),
        )
    }

    /// Whether the quick test finds that the triangle blocks the ray: the
    /// ray is not parallel to the plane, both barycentric coordinates of the
    /// crossing are at least zero and their sum at most one, and the
    /// parameter times `det` is positive.
    pub open spec fn blocks(&self, ray: Ray) -> bool {
        let det = self.det(ray);
        let u = self.u_times_det(ray);
        let v = self.v_times_det(ray);
        &&& det != 0
        &&& det > 0 ==> 0 <= u <= det && 0 <= v && u + v <= det
        &&& det < 0 ==> det <= u <= 0 && v <= 0 && u + v >= det
        &&& self.t_times_det(ray) > 0
    }

    /// The quantities of the quick test fit in 64 bits.
    pub proof fn lemma_quick_bounded(&self, ray: Ray)
        requires
            self.wf(),
            ray.wf(),
        ensures
            -26388279066624 <= self.det(ray) <= 26388279066624,
            -26388279066624 <= self.u_times_det(ray) <= 26388279066624,
            -26388279066624 <= self.v_times_det(ray) <= 26388279066624,
            -26388279066624 <= self.t_times_det(ray) <= 26388279066624,
    {
        let e1 = minus(self.pb(), self.pa());
        let e2 = minus(self.pc(), self.pa());
        let tv = minus(ray.origin@, self.pa());
        let s = ray.slope@;
        crate::algebra::lemma_cross_bounded(s, e2, 16384, 16384);
        crate::algebra::lemma_cross_bounded(tv, e1, 16384, 16384);
        crate::algebra::lemma_dot_bounded(e1, cross(s, e2), 16384, 536870912);
        crate::algebra::lemma_dot_bounded(tv, cross(s, e2), 16384, 536870912);
        crate::algebra::lemma_dot_bounded(s, cross(tv, e1), 16384, 536870912);
        crate::algebra::lemma_dot_bounded(e2, cross(tv, e1), 16384, 536870912);
    }

    /// The plane of the triangle, computed.
    fn supporting_plane(&self) -> (p: Plane)
        requires
            self.wf(),
        ensures
            p == self.plane(),
            p.wf(),
    {
        let a = widen(&self.u.pos);
        let b = widen(&self.v.pos);
        let c = widen(&self.w.pos);
        let ab = difference(&b, &a, Ghost(8192), Ghost(8192));
        let bc = difference(&c, &b, Ghost(8192), Ghost(8192));
        let n = cross_product(&ab, &bc, Ghost(16384), Ghost(16384));
        let offset = dot_product(&a, &n, Ghost(8192), Ghost(536870912));
        Plane { a: n.x as i64, b: n.y as i64, c: n.z as i64, d: (-offset) as i64 }
    }
}

impl Surface for Triangle {
    open spec fn wf(&self) -> bool {
        self.u.wf() && self.v.wf() && self.w.wf()
    }

    /// The ray hits the triangle where it meets the triangle's plane within
    /// its range, at a point on the inner side of all three edges.
    open spec fn hit(&self, ray: Ray) -> Option<Fragment> {
        match self.plane().hit(ray) {
            Some(f) => if self.contains(f.position@, f.scale as int) {
                Some(self.shade(f))
            } else {
                None
            },
            None => None,
        }
    }

    /// A hit becomes the ray's bound, so that what lies behind it is no
    /// longer found.
    open spec fn trimmed(&self, ray: Ray) -> Ray {
        match self.hit(ray) {
            Some(f) => ray.cut_at(f.param),
            None => ray,
        }
    }

    open spec fn shadowed(&self, ray: Ray) -> Option<Ray> {
        if self.blocks(ray) {
            Some(ray.cut_at(Ratio { num: self.t_times_det(ray) as i64, den: 1 }))
        } else {
            None
        }
    }

    fn get_intersection_fragment(&self, ray: &mut Ray) -> (r: Option<Fragment>) {
        let pt_a = widen(&self.u.pos);
        let pt_b = widen(&self.v.pos);
        let pt_c = widen(&self.w.pos);

        // The edges, head to tail.
        let vec_ab = difference(&pt_b, &pt_a, Ghost(8192), Ghost(8192));
        let vec_bc = difference(&pt_c, &pt_b, Ghost(8192), Ghost(8192));
        let vec_ca = difference(&pt_a, &pt_c, Ghost(8192), Ghost(8192));

        let plane = self.supporting_plane();
        proof {
            plane.lemma_fragment_bounded(*ray);
        }
        let result = plane.get_intersection_fragment(ray);

        match result {
            None => None,
            Some(point) => {
                // Whether the point of the plane belongs to the face.
                let w = point.scale;
                let a_w = scale(&pt_a, w, Ghost(8192), Ghost(26388279066624));
                let b_w = scale(&pt_b, w, Ghost(8192), Ghost(26388279066624));
                let c_w = scale(&pt_c, w, Ghost(8192), Ghost(26388279066624));
                let vec_ap = difference(
                    &point.position,
                    &a_w,
                    Ghost(648518346341351424),
                    Ghost(216172782113783808),
                );
                let vec_bp = difference(
                    &point.position,
                    &b_w,
                    Ghost(648518346341351424),
                    Ghost(216172782113783808),
                );
                let vec_cp = difference(
                    &point.position,
                    &c_w,
                    Ghost(648518346341351424),
                    Ghost(216172782113783808),
                );

                let cp_a = cross_product(&vec_ab, &vec_ap, Ghost(16384), Ghost(864691128455135232));
                let cp_b = cross_product(&vec_bc, &vec_bp, Ghost(16384), Ghost(864691128455135232));
                let cp_c = cross_product(&vec_ca, &vec_cp, Ghost(16384), Ghost(864691128455135232));
                let n = cross_product(&vec_ab, &vec_ca, Ghost(16384), Ghost(16384));

                let side_a = dot_product(
                    &n,
                    &cp_a,
                    Ghost(536870912),
                    Ghost(28334198897217871282176),
                );
                let side_b = dot_product(
                    &n,
                    &cp_b,
                    Ghost(536870912),
                    Ghost(28334198897217871282176),
                );
                let side_c = dot_product(
                    &n,
                    &cp_c,
                    Ghost(536870912),
                    Ghost(28334198897217871282176),
                );

                if !(side_a <= 0 && side_b <= 0 && side_c <= 0) {
                    return None;
                }
                ray.max_t = Some(point.param);

                // The weights of the three vertices: P = wa A + wb B + wc C,
                // up to the common factor.
                let wa = -side_b;
                let wb = -side_c;
                let wc = -side_a;

                let normal = sum(
                    &sum(
                        &scale(
                            &widen(&self.u.norm),
                            wa,
                            Ghost(8192),
                            Ghost(45635421608216258453881315393536),
                        ),
                        &scale(
                            &widen(&self.v.norm),
                            wb,
                            Ghost(8192),
                            Ghost(45635421608216258453881315393536),
                        ),
                        Ghost(373845373814507589254195735703846912),
                        Ghost(373845373814507589254195735703846912),
                    ),
                    &scale(
                        &widen(&self.w.norm),
                        wc,
                        Ghost(8192),
                        Ghost(45635421608216258453881315393536),
                    ),
                    Ghost(747690747629015178508391471407693824),
                    Ghost(373845373814507589254195735703846912),
                );
                let tex = match (self.u.tex, self.v.tex, self.w.tex) {
                    (Some(texu), Some(texv), Some(texw)) => Some(
                        Vector2 {
                            x: interpolate(texu.x, wa, texv.x, wb, texw.x, wc),
                            y: interpolate(texu.y, wa, texv.y, wb, texw.y, wc),
                        },
                    ),
                    _ => None,
                };
                Some(
                    Fragment {
                        position: point.position,
                        scale: point.scale,
                        normal: normal,
                        tex: tex,
                        weight: wa + wb + wc,
                        param: point.param,
                        du: point.du,
                        dv: point.dv,
                    },
                )
            },
        }
    }

    fn fast_intersection(&self, ray: &mut Ray) -> (b: bool) {
        proof {
            self.lemma_quick_bounded(*ray);
        }
        let pt_u = widen(&self.u.pos);
        let e1 = difference(&widen(&self.v.pos), &pt_u, Ghost(8192), Ghost(8192));
        let e2 = difference(&widen(&self.w.pos), &pt_u, Ghost(8192), Ghost(8192));
        let slope = widen(&ray.slope);
        let p = cross_product(&slope, &e2, Ghost(16384), Ghost(16384));

        let det = dot_product(&e1, &p, Ghost(16384), Ghost(536870912));

        if det == 0 {
            return false;
        }
        let t = difference(&widen(&ray.origin), &pt_u, Ghost(8192), Ghost(8192));
        let u = dot_product(&t, &p, Ghost(16384), Ghost(536870912));

        if (det > 0 && (u < 0 || u > det)) || (det < 0 && (u > 0 || u < det)) {
            return false;
        }
        let q = cross_product(&t, &e1, Ghost(16384), Ghost(16384));

        let v = dot_product(&slope, &q, Ghost(16384), Ghost(536870912));

        if (det > 0 && (v < 0 || u + v > det)) || (det < 0 && (v > 0 || u + v < det)) {
            return false;
        }
        let t_raw = dot_product(&e2, &q, Ghost(16384), Ghost(536870912));

        if t_raw > 0 {
            ray.max_t = Some(Ratio { num: t_raw as i64, den: 1 });
            return true;
        }
        false
    }
}

/// `a * wa + b * wb + c * wc`, for attributes within the limits of the
/// lattice and weights within those of the sides of a triangle.
fn interpolate(a: i64, wa: i128, b: i64, wb: i128, c: i64, wc: i128) -> (r: i128)
    requires
        -8192 <= a <= 8192,
        -8192 <= b <= 8192,
        -8192 <= c <= 8192,
        -45635421608216258453881315393536 <= wa <= 45635421608216258453881315393536,
        -45635421608216258453881315393536 <= wb <= 45635421608216258453881315393536,
        -45635421608216258453881315393536 <= wc <= 45635421608216258453881315393536,
    ensures
        r == a * wa + b * wb + c * wc,
{
    let x = crate::exact::product(
        a as i128,
        wa,
        Ghost(8192),
        Ghost(45635421608216258453881315393536),
    );
    let y = crate::exact::product(
        b as i128,
        wb,
        Ghost(8192),
        Ghost(45635421608216258453881315393536),
    );
    let z = crate::exact::product(
        c as i128,
        wc,
        Ghost(8192),
        Ghost(45635421608216258453881315393536),
    );
    x + y + z
}

/// Why a mesh could not be built from the tables of a file.
#[derive(Clone, Copy, Debug, PartialEq, Eq, Structural)]
pub enum MeshError {
    /// An index of a position is zero or beyond the table of positions.
    PositionOutOfRange,
    /// An index of a normal is zero or beyond the table of normals.
    NormalOutOfRange,
    /// An index of texture coordinates is zero or beyond their table.
    TexCoordOutOfRange,
    /// A point has texture coordinates while the mesh has none.
    UnexpectedTexCoord,
    /// A point has no texture coordinates while the mesh has some.
    MissingTexCoord,
}

/// A list of triangles, in the order in which they were added.
#[derive(Clone, Debug, PartialEq)]
pub struct Mesh {
    pub triangles: Vec<Triangle>,
}

/// The sum of the barycenters of the triangles of a sequence.
pub open spec fn sum_of_barycenters(s: Seq<Triangle>) -> Vector3<int>
    decreases s.len(),
{
    if s.len() == 0 {
        crate::algebra::zero()
    } else {
        plus(sum_of_barycenters(s.drop_last()), s.last().barycenter())
    }
}

/// Each component of the sum of the barycenters of `s` is within the limit
/// of the lattice times the number of triangles.
pub proof fn lemma_sum_of_barycenters_bounded(s: Seq<Triangle>)
    requires
        forall|i: int| 0 <= i < s.len() ==> (#[trigger] s[i]).wf(),
    ensures
        bounded(sum_of_barycenters(s), (s.len() * 8192) as int),
    decreases s.len(),
{
    if s.len() > 0 {
        lemma_sum_of_barycenters_bounded(s.drop_last());
        assert(s.last().wf());
        assert((s.len() - 1) * 8192 + 8192 == s.len() * 8192) by (nonlinear_arith);
    }
}

impl Triangle {
    /// The barycenter of the triangle: the mean of its three vertices, each
    /// coordinate rounded toward zero.
    pub open spec fn barycenter(&self) -> Vector3<int> {
        Vector3 {
            x: quotient_toward_zero(self.pa().x + self.pb().x + self.pc().x, 3),
            y: quotient_toward_zero(self.pa().y + self.pb().y + self.pc().y, 3),
            z: quotient_toward_zero(self.pa().z + self.pb().z + self.pc().z, 3),
        }
    }

    pub fn get_barycenter(&self) -> (c: Vector3<i64>)
        requires
            self.wf(),
        ensures
            c@ == self.barycenter(),
            bounded(c@, LIMIT as int),
    {
        let x = divide_toward_zero(self.u.pos.x as i128 + self.v.pos.x as i128 + self.w.pos.x as i128, 3);
        let y = divide_toward_zero(self.u.pos.y as i128 + self.v.pos.y as i128 + self.w.pos.y as i128, 3);
        let z = divide_toward_zero(self.u.pos.z as i128 + self.v.pos.z as i128 + self.w.pos.z as i128, 3);
        Vector3 { x: x as i64, y: y as i64, z: z as i64 }
    }
}

impl Mesh {
    /// A mesh without triangles.
    pub fn new_empty() -> (m: Mesh)
        ensures
            m.triangles@.len() == 0,
    {
        Mesh { triangles: Vec::new() }
    }

    /// Every triangle of the mesh lies within the limits of the lattice.
    pub open spec fn wf(&self) -> bool {
        forall|i: int| 0 <= i < self.triangles@.len() ==> (#[trigger] self.triangles@[i]).wf()
    }

    /// What `create_point` answers for indices that count from one, as in
    /// the exchange format.
    pub open spec fn point_at(
        pos: usize,
        norm: usize,
        tex: Option<usize>,
        list_pos: Seq<Vector3<i64>>,
        list_norm: Seq<Vector3<i64>>,
        list_tex: Option<Seq<Vector2<i64>>>,
    ) -> Result<GeoPoint, MeshError> {
        if pos == 0 || pos > list_pos.len() {
            Err(MeshError::PositionOutOfRange)
        } else if norm == 0 || norm > list_norm.len() {
            Err(MeshError::NormalOutOfRange)
        } else {
            match (tex, list_tex) {
                (Some(index), Some(table)) => {
                    if index == 0 || index > table.len() {
                        Err(MeshError::TexCoordOutOfRange)
                    } else {
                        Ok(
                            GeoPoint {
                                pos: list_pos[pos - 1],
                                norm: list_norm[norm - 1],
                                tex: Some(table[index - 1]),
                            },
                        )
                    }
                },
                (Some(_), None) => Err(MeshError::UnexpectedTexCoord),
                (None, Some(_)) => Err(MeshError::MissingTexCoord),
                (None, None) => Ok(
                    GeoPoint { pos: list_pos[pos - 1], norm: list_norm[norm - 1], tex: None },
                ),
            }
        }
    }

    /// The point with the position, the normal and the texture coordinates
    /// at the given indices of the three tables. The indices count from one.
    /// A point has texture coordinates if and only if the mesh has a table
    /// of them.
    pub fn create_point(
        pos: usize,
        norm: usize,
        tex: Option<usize>,
        list_pos: &[Vector3<i64>],
        list_norm: &[Vector3<i64>],
        list_tex: &Option<Vec<Vector2<i64>>>,
    ) -> (r: Result<GeoPoint, MeshError>)
        ensures
            r == Mesh::point_at(
                pos,
                norm,
                tex,
                list_pos@,
                list_norm@,
                match *list_tex {
                    Some(table) => Some(table@),
                    None => None,
                },
            ),
    {
        if pos == 0 || pos > list_pos.len() {
            return Err(MeshError::PositionOutOfRange);
        }
        if norm == 0 || norm > list_norm.len() {
            return Err(MeshError::NormalOutOfRange);
        }
        // The first index of the exchange format is 1, that of a table is 0.
        let tex_coord = match tex {
            Some(index) => {
                match list_tex {
                    Some(table) => {
                        if index == 0 || index > table.len() {
                            return Err(MeshError::TexCoordOutOfRange);
                        }
                        Some(table[index - 1])
                    },
                    None => {
                        return Err(MeshError::UnexpectedTexCoord);
                    },
                }
            },
            None => {
                match list_tex {
                    None => None,
                    Some(_) => {
                        return Err(MeshError::MissingTexCoord);
                    },
                }
            },
        };
        Ok(GeoPoint::new(list_pos[pos - 1], list_norm[norm - 1], tex_coord))
    }

    pub fn add_triangle(&mut self, tri: Triangle)
        ensures
            final(self).triangles@ == old(self).triangles@.push(tri),
    {
        self.triangles.push(tri);
    }

    /// The triangles of the mesh, in order.
    pub fn triangles(&self) -> (t: &Vec<Triangle>)
        ensures
            t@ == self.triangles@,
    {
        &self.triangles
    }

    /// The barycenter of the mesh: the mean of the barycenters of its
    /// triangles, rounded toward zero; the origin for a mesh without
    /// triangles.
    pub open spec fn barycenter(&self) -> Vector3<int> {
        if self.triangles@.len() == 0 {
            crate::algebra::zero()
        } else {
            let sum = sum_of_barycenters(self.triangles@);
            let n = self.triangles@.len() as int;
            Vector3 {
                x: quotient_toward_zero(sum.x, n),
                y: quotient_toward_zero(sum.y, n),
                z: quotient_toward_zero(sum.z, n),
            }
        }
    }

    pub fn get_barycenter(&self) -> (c: Vector3<i64>)
        requires
            self.wf(),
        ensures
            c@ == self.barycenter(),
            bounded(c@, LIMIT as int),
    {
        let count = self.triangles.len();
        if count == 0 {
            return Vector3 { x: 0, y: 0, z: 0 };
        }
        let mut sum: Vector3<i128> = Vector3 { x: 0, y: 0, z: 0 };
        let mut i: usize = 0;
        while i < count
            invariant
                count == self.triangles@.len(),
                self.wf(),
                i <= count,
                sum@ == sum_of_barycenters(self.triangles@.take(i as int)),
            decreases count - i,
        {
            proof {
                lemma_sum_of_barycenters_bounded(self.triangles@.take(i as int));
                assert(self.triangles@.take(i + 1).drop_last() == self.triangles@.take(i as int));
                assert(i * 8192 <= usize::MAX * 8192) by (nonlinear_arith)
                    requires
                        i <= usize::MAX,
                ;
            }
            let c = self.triangles[i].get_barycenter();
            sum = Vector3 { x: sum.x + c.x as i128, y: sum.y + c.y as i128, z: sum.z + c.z as i128 };
            i = i + 1;
        }
        proof {
            assert(self.triangles@.take(i as int) == self.triangles@);
            lemma_sum_of_barycenters_bounded(self.triangles@);
            lemma_mean_bounded(sum.x as int, count as int);
            lemma_mean_bounded(sum.y as int, count as int);
            lemma_mean_bounded(sum.z as int, count as int);
            assert(count * 8192 <= usize::MAX * 8192) by (nonlinear_arith)
                requires
                    count <= usize::MAX,
            ;
        }
        let n = count as i128;
        Vector3 {
            x: divide_toward_zero(sum.x, n) as i64,
            y: divide_toward_zero(sum.y, n) as i64,
            z: divide_toward_zero(sum.z, n) as i64,
        }
    }
}

/// The mean of `n` values within the limit of the lattice is within it.
proof fn lemma_mean_bounded(sum: int, n: int)
    requires
        n > 0,
        -(n * 8192) <= sum <= n * 8192,
    ensures
        -8192 <= quotient_toward_zero(sum, n) <= 8192,
{
    if sum >= 0 {
        assert(sum / n <= 8192) by (nonlinear_arith)
            requires
                n > 0,
                0 <= sum <= n * 8192,
        ;
        assert(sum / n >= 0) by (nonlinear_arith)
            requires
                n > 0,
                0 <= sum,
        ;
    } else {
        assert((-sum) / n <= 8192) by (nonlinear_arith)
            requires
                n > 0,
                0 <= -sum <= n * 8192,
        ;
        assert((-sum) / n >= 0) by (nonlinear_arith)
            requires
                n > 0,
                0 <= -sum,
        ;
    }
}

/// One on the scale of the sines and cosines of a rotation: a cosine `c`
/// stands for `c / TURN_UNIT`.
pub const TURN_UNIT: i64 = 16384;

/// A rotation about an axis, by the cosine and the sine of its angle, each
/// times `TURN_UNIT`.
#[derive(Clone, Copy, Debug, PartialEq, Eq, Structural)]
pub struct Turn {
    pub cos: i64,
    pub sin: i64,
}

impl Turn {
    /// No rotation at all.
    pub fn none() -> (t: Turn)
        ensures
            t == (Turn { cos: TURN_UNIT, sin: 0 }),
            t.wf(),
    {
        Turn { cos: TURN_UNIT, sin: 0 }
    }

    /// Cosine and sine are at most one in absolute value.
    pub open spec fn wf(&self) -> bool {
        -TURN_UNIT <= self.cos <= TURN_UNIT && -TURN_UNIT <= self.sin <= TURN_UNIT
    }

    /// Whether cosine and sine are at most one in absolute value.
    pub fn is_valid(&self) -> (b: bool)
        ensures
            b == self.wf(),
    {
        -TURN_UNIT <= self.cos && self.cos <= TURN_UNIT && -TURN_UNIT <= self.sin && self.sin
            <= TURN_UNIT
    }
}

/// The greatest absolute value of a coordinate, and of the two terms of a
/// factor of scale, that the transformations of a point accept.
pub const WORK_LIMIT: i64 = 1073741824;

/// A unit vector along one of the three axes of the lattice: its components
/// are -1, 0 or 1, and exactly one of them is not zero.
pub open spec fn is_axis(u: Vector3<int>) -> bool {
    bounded(u, 1) && u.x * u.x + u.y * u.y + u.z * u.z == 1
}

/// The image of `p` by the rotation of angle `turn` about the axis `u`,
/// a unit vector along one of the three axes; each coordinate is rounded
/// once, to the nearest step.
pub open spec fn rotated(p: Vector3<int>, u: Vector3<int>, turn: Turn) -> Vector3<int> {
    let c = turn.cos as int;
    let mc = TURN_UNIT - c;
    let s = turn.sin as int;
    let uxy = u.x * u.y;
    let uyz = u.y * u.z;
    let uzx = u.z * u.x;
    Vector3 {
        x: quotient_nearest(
            (u.x * u.x * mc + c) * p.x + (uxy * mc - u.z * s) * p.y + (uzx * mc + u.y * s) * p.z,
            TURN_UNIT as int,
        ),
        y: quotient_nearest(
            (uxy * mc + u.z * s) * p.x + (u.y * u.y * mc + c) * p.y + (uyz * mc - u.x * s) * p.z,
            TURN_UNIT as int,
        ),
        z: quotient_nearest(
            (uzx * mc - u.y * s) * p.x + (uyz * mc + u.x * s) * p.y + (u.z * u.z * mc + c) * p.z,
            TURN_UNIT as int,
        ),
    }
}

/// A factor by which a distance can be multiplied: a ratio with a positive
/// denominator, both terms within `m` of zero.
pub open spec fn factor_within(f: Ratio, m: int) -> bool {
    0 < f.den <= m && -m <= f.num <= m
}

/// The image of the coordinate `p` when its distance to `origin` is
/// multiplied by `factor`, rounded to the nearest step.
pub open spec fn scaled_axis(p: int, origin: int, factor: Ratio) -> int {
    origin + quotient_nearest((p - origin) * factor.num, factor.den as int)
}

/// The image of `p` when its distance to `origin` is multiplied, axis by
/// axis, by the components of `factor`; each coordinate is rounded once, to
/// the nearest step.
pub open spec fn scaled_from(p: Vector3<int>, origin: Vector3<int>, factor: Vector3<Ratio>) -> Vector3<
    int,
> {
    Vector3 {
        x: scaled_axis(p.x, origin.x, factor.x),
        y: scaled_axis(p.y, origin.y, factor.y),
        z: scaled_axis(p.z, origin.z, factor.z),
    }
}

/// Multiplies the distance of one coordinate to `origin` by `factor`.
fn scale_axis(p: i64, origin: i64, factor: &Ratio) -> (r: i64)
    requires
        -WORK_LIMIT <= p <= WORK_LIMIT,
        -WORK_LIMIT <= origin <= WORK_LIMIT,
        factor_within(*factor, WORK_LIMIT as int),
    ensures
        r == scaled_axis(p as int, origin as int, *factor),
        -2305843010287435776 <= r <= 2305843010287435776,
{
    let far = crate::exact::product(
        p as i128 - origin as i128,
        factor.num as i128,
        Ghost(2147483648),
        Ghost(1073741824),
    );
    let moved = crate::exact::divide_nearest(far, factor.den as i128);
    (origin as i128 + moved) as i64
}

/// A distance within `m`, multiplied by a factor of at most `k` in absolute
/// value, is within `k * m`.
pub proof fn lemma_scaled_axis_bounded(x: int, factor: Ratio, m: int, k: int)
    requires
        -m <= x <= m,
        0 < factor.den,
        0 <= k,
        -k * factor.den <= factor.num <= k * factor.den,
    ensures
        -k * m <= scaled_axis(x, 0, factor) <= k * m,
{
    let a = x * factor.num;
    let b = factor.den as int;
    let q = quotient_nearest(a, b);
    crate::exact::lemma_quotient_nearest(a, b);
    assert(-k * factor.den == -(k * b)) by (nonlinear_arith)
        requires
            b == factor.den,
    ;
    crate::algebra::lemma_product_bounded(x, factor.num as int, m, k * b);
    assert(m * (k * b) == (k * m) * b) by (nonlinear_arith);
    assert(-(k * m) <= q <= k * m) by (nonlinear_arith)
        requires
            b >= 1,
            -b <= 2 * (q * b - a) <= b,
            -((k * m) * b) <= a <= (k * m) * b,
    ;
    assert(-k * m == -(k * m)) by (nonlinear_arith);
}

/// One row of a rotation: `(m1 * x + m2 * y + m3 * z) / TURN_UNIT`, rounded
/// to the nearest step.
fn turn_row(m1: i128, x: i64, m2: i128, y: i64, m3: i128, z: i64) -> (r: i64)
    requires
        -49152 <= m1 <= 49152,
        -49152 <= m2 <= 49152,
        -49152 <= m3 <= 49152,
        -1073741824 <= x <= 1073741824,
        -1073741824 <= y <= 1073741824,
        -1073741824 <= z <= 1073741824,
    ensures
        r == quotient_nearest(m1 * x + m2 * y + m3 * z, TURN_UNIT as int),
{
    let a = crate::exact::product(m1, x as i128, Ghost(49152), Ghost(1073741824));
    let b = crate::exact::product(m2, y as i128, Ghost(49152), Ghost(1073741824));
    let c = crate::exact::product(m3, z as i128, Ghost(49152), Ghost(1073741824));
    let q = crate::exact::divide_nearest(a + b + c, TURN_UNIT as i128);
    q as i64
}

/// One row of a rotation moves no coordinate farther from zero than nine
/// times the greatest coordinate of the point.
proof fn lemma_turn_row_bounded(m1: int, x: int, m2: int, y: int, m3: int, z: int, m: int)
    requires
        -49152 <= m1 <= 49152,
        -49152 <= m2 <= 49152,
        -49152 <= m3 <= 49152,
        -m <= x <= m,
        -m <= y <= m,
        -m <= z <= m,
    ensures
        -9 * m <= quotient_nearest(m1 * x + m2 * y + m3 * z, 16384) <= 9 * m,
{
    crate::algebra::lemma_product_bounded(m1, x, 49152, m);
    crate::algebra::lemma_product_bounded(m2, y, 49152, m);
    crate::algebra::lemma_product_bounded(m3, z, 49152, m);
    let n = m1 * x + m2 * y + m3 * z;
    crate::exact::lemma_quotient_nearest(n, 16384);
}

/// The entries of the matrix of a rotation about an axis are at most three
/// in absolute value, on the scale of `TURN_UNIT`.
proof fn lemma_turn_entries(u: Vector3<int>, turn: Turn)
    requires
        bounded(u, 1),
        turn.wf(),
    ensures
        ({
            let c = turn.cos as int;
            let mc = TURN_UNIT - c;
            let s = turn.sin as int;
            &&& -49152 <= u.x * u.x * mc + c <= 49152
            &&& -49152 <= u.y * u.y * mc + c <= 49152
            &&& -49152 <= u.z * u.z * mc + c <= 49152
            &&& -49152 <= (u.x * u.y) * mc - u.z * s <= 49152
            &&& -49152 <= (u.x * u.y) * mc + u.z * s <= 49152
            &&& -49152 <= (u.z * u.x) * mc + u.y * s <= 49152
            &&& -49152 <= (u.z * u.x) * mc - u.y * s <= 49152
            &&& -49152 <= (u.y * u.z) * mc - u.x * s <= 49152
            &&& -49152 <= (u.y * u.z) * mc + u.x * s <= 49152
        }),
{
    let c = turn.cos as int;
    let mc = TURN_UNIT - c;
    let s = turn.sin as int;
    crate::algebra::lemma_product_bounded(u.x, u.y, 1, 1);
    crate::algebra::lemma_product_bounded(u.y, u.z, 1, 1);
    crate::algebra::lemma_product_bounded(u.z, u.x, 1, 1);
    crate::algebra::lemma_product_bounded(u.x, u.x, 1, 1);
    crate::algebra::lemma_product_bounded(u.y, u.y, 1, 1);
    crate::algebra::lemma_product_bounded(u.z, u.z, 1, 1);
    crate::algebra::lemma_product_bounded(u.x * u.y, mc, 1, 32768);
    crate::algebra::lemma_product_bounded(u.y * u.z, mc, 1, 32768);
    crate::algebra::lemma_product_bounded(u.z * u.x, mc, 1, 32768);
    crate::algebra::lemma_product_bounded(u.x * u.x, mc, 1, 32768);
    crate::algebra::lemma_product_bounded(u.y * u.y, mc, 1, 32768);
    crate::algebra::lemma_product_bounded(u.z * u.z, mc, 1, 32768);
    crate::algebra::lemma_product_bounded(u.x, s, 1, 16384);
    crate::algebra::lemma_product_bounded(u.y, s, 1, 16384);
    crate::algebra::lemma_product_bounded(u.z, s, 1, 16384);
}

/// A rotation moves no coordinate farther from zero than nine times the
/// greatest coordinate of the point.
pub proof fn lemma_rotated_bounded(p: Vector3<int>, u: Vector3<int>, turn: Turn, m: int)
    requires
        bounded(p, m),
        bounded(u, 1),
        turn.wf(),
    ensures
        bounded(rotated(p, u, turn), 9 * m),
{
    lemma_turn_entries(u, turn);
    let c = turn.cos as int;
    let mc = TURN_UNIT - c;
    let s = turn.sin as int;
    let uxy = u.x * u.y;
    let uyz = u.y * u.z;
    let uzx = u.z * u.x;
    lemma_turn_row_bounded(u.x * u.x * mc + c, p.x, uxy * mc - u.z * s, p.y, uzx * mc + u.y * s, p.z, m);
    lemma_turn_row_bounded(uxy * mc + u.z * s, p.x, u.y * u.y * mc + c, p.y, uyz * mc - u.x * s, p.z, m);
    lemma_turn_row_bounded(uzx * mc - u.y * s, p.x, uyz * mc + u.x * s, p.y, u.z * u.z * mc + c, p.z, m);
}

impl GeoPoint {
    /// Moves the point by `position`.
    pub fn add_position(&mut self, position: &Vector3<i64>)
        requires
            bounded(old(self).pos@, i64::MAX / 2),
            bounded(position@, i64::MAX / 2),
        ensures
            final(self).pos@ == plus(old(self).pos@, position@),
            final(self).norm == old(self).norm,
            final(self).tex == old(self).tex,
    {
        self.pos = Vector3 {
            x: self.pos.x + position.x,
            y: self.pos.y + position.y,
            z: self.pos.z + position.z,
        };
    }

    /// Turns the point about the axis `u` through the origin, where `u` is
    /// a unit vector along one of the three axes.
    pub fn rotate_around(&mut self, u: &Vector3<i64>, angle: Turn)
        requires
            bounded(old(self).pos@, WORK_LIMIT as int),
            is_axis(u@),
            angle.wf(),
        ensures
            final(self).pos@ == rotated(old(self).pos@, u@, angle),
            final(self).norm == old(self).norm,
            final(self).tex == old(self).tex,
    {
        let c = angle.cos as i128;
        let mc = TURN_UNIT as i128 - c;
        let s = angle.sin as i128;
        let ux = u.x as i128;
        let uy = u.y as i128;
        let uz = u.z as i128;

        proof {
            lemma_turn_entries(u@, angle);
            crate::algebra::lemma_product_bounded(ux as int, uy as int, 1, 1);
            crate::algebra::lemma_product_bounded(uy as int, uz as int, 1, 1);
            crate::algebra::lemma_product_bounded(uz as int, ux as int, 1, 1);
            crate::algebra::lemma_product_bounded(ux as int, ux as int, 1, 1);
            crate::algebra::lemma_product_bounded(uy as int, uy as int, 1, 1);
            crate::algebra::lemma_product_bounded(uz as int, uz as int, 1, 1);
            crate::algebra::lemma_product_bounded((ux * uy) as int, mc as int, 1, 32768);
            crate::algebra::lemma_product_bounded((uy * uz) as int, mc as int, 1, 32768);
            crate::algebra::lemma_product_bounded((uz * ux) as int, mc as int, 1, 32768);
            crate::algebra::lemma_product_bounded((ux * ux) as int, mc as int, 1, 32768);
            crate::algebra::lemma_product_bounded((uy * uy) as int, mc as int, 1, 32768);
            crate::algebra::lemma_product_bounded((uz * uz) as int, mc as int, 1, 32768);
            crate::algebra::lemma_product_bounded(ux as int, s as int, 1, 16384);
            crate::algebra::lemma_product_bounded(uy as int, s as int, 1, 16384);
            crate::algebra::lemma_product_bounded(uz as int, s as int, 1, 16384);
        }
        let uxy = ux * uy;
        let uyz = uy * uz;
        let uzx = uz * ux;
        let p = self.pos;
        self.pos = Vector3 {
            x: turn_row(ux * ux * mc + c, p.x, uxy * mc - uz * s, p.y, uzx * mc + uy * s, p.z),
            y: turn_row(uxy * mc + uz * s, p.x, uy * uy * mc + c, p.y, uyz * mc - ux * s, p.z),
            z: turn_row(uzx * mc - uy * s, p.x, uyz * mc + ux * s, p.y, uz * uz * mc + c, p.z),
        };
    }

    /// Moves the point so that its distance to `origin` is multiplied, axis
    /// by axis, by the components of `scale`.
    pub fn scale_from(&mut self, origin: &Vector3<i64>, scale: &Vector3<Ratio>)
        requires
            bounded(old(self).pos@, WORK_LIMIT as int),
            bounded(origin@, WORK_LIMIT as int),
            factor_within(scale.x, WORK_LIMIT as int),
            factor_within(scale.y, WORK_LIMIT as int),
            factor_within(scale.z, WORK_LIMIT as int),
        ensures
            final(self).pos@ == scaled_from(old(self).pos@, origin@, *scale),
            bounded(final(self).pos@, 2305843010287435776),
            final(self).norm == old(self).norm,
            final(self).tex == old(self).tex,
    {
        self.pos = Vector3 {
            x: scale_axis(self.pos.x, origin.x, &scale.x),
            y: scale_axis(self.pos.y, origin.y, &scale.y),
            z: scale_axis(self.pos.z, origin.z, &scale.z),
        };
    }
}

impl Triangle {
    /// Moves the triangle by `position`.
    pub fn add_position(&mut self, position: &Vector3<i64>)
        requires
            bounded(old(self).pa(), i64::MAX / 2),
            bounded(old(self).pb(), i64::MAX / 2),
            bounded(old(self).pc(), i64::MAX / 2),
            bounded(position@, i64::MAX / 2),
        ensures
            final(self).pa() == plus(old(self).pa(), position@),
            final(self).pb() == plus(old(self).pb(), position@),
            final(self).pc() == plus(old(self).pc(), position@),
            final(self).same_attributes(*old(self)),
    {
        self.u.add_position(position);
        self.v.add_position(position);
        self.w.add_position(position);
    }

    /// Turns the triangle about the axis `axis` through the origin.
    pub fn rotate_around(&mut self, axis: &Vector3<i64>, angle: Turn)
        requires
            bounded(old(self).pa(), WORK_LIMIT as int),
            bounded(old(self).pb(), WORK_LIMIT as int),
            bounded(old(self).pc(), WORK_LIMIT as int),
            is_axis(axis@),
            angle.wf(),
        ensures
            final(self).pa() == rotated(old(self).pa(), axis@, angle),
            final(self).pb() == rotated(old(self).pb(), axis@, angle),
            final(self).pc() == rotated(old(self).pc(), axis@, angle),
            final(self).same_attributes(*old(self)),
    {
        self.u.rotate_around(axis, angle);
        self.v.rotate_around(axis, angle);
        self.w.rotate_around(axis, angle);
    }

    /// Scales the triangle from `origin` along the three axes.
    pub fn scale_from(&mut self, origin: &Vector3<i64>, scale: &Vector3<Ratio>)
        requires
            bounded(old(self).pa(), WORK_LIMIT as int),
            bounded(old(self).pb(), WORK_LIMIT as int),
            bounded(old(self).pc(), WORK_LIMIT as int),
            bounded(origin@, WORK_LIMIT as int),
            factor_within(scale.x, WORK_LIMIT as int),
            factor_within(scale.y, WORK_LIMIT as int),
            factor_within(scale.z, WORK_LIMIT as int),
        ensures
            final(self).pa() == scaled_from(old(self).pa(), origin@, *scale),
            final(self).pb() == scaled_from(old(self).pb(), origin@, *scale),
            final(self).pc() == scaled_from(old(self).pc(), origin@, *scale),
            final(self).same_attributes(*old(self)),
    {
        self.u.scale_from(origin, scale);
        self.v.scale_from(origin, scale);
        self.w.scale_from(origin, scale);
    }

    /// The two triangles have the same normals and texture coordinates.
    pub open spec fn same_attributes(&self, other: Triangle) -> bool {
        &&& self.u.norm == other.u.norm
        &&& self.v.norm == other.v.norm
        &&& self.w.norm == other.w.norm
        &&& self.u.tex == other.u.tex
        &&& self.v.tex == other.v.tex
        &&& self.w.tex == other.w.tex
    }
}

/// The greatest absolute value of a factor of scale of an object.
pub const SCALE_LIMIT: i64 = 64;

/// The greatest denominator of a factor of scale of an object.
pub const SCALE_GRAIN: i64 = 65536;

/// A factor of scale that an object accepts: a ratio that is not zero, at
/// most `SCALE_LIMIT` in absolute value, with a positive denominator of at
/// most `SCALE_GRAIN`.
pub open spec fn factor_wf(f: Ratio) -> bool {
    &&& 0 < f.den <= SCALE_GRAIN
    &&& f.num != 0
    &&& -SCALE_LIMIT * f.den <= f.num <= SCALE_LIMIT * f.den
}

/// A scale that an object accepts: an accepted factor on each axis.
pub open spec fn scale_wf(s: Vector3<Ratio>) -> bool {
    factor_wf(s.x) && factor_wf(s.y) && factor_wf(s.z)
}

/// The scale that changes nothing.
pub open spec fn unit_scale() -> Vector3<Ratio> {
    Vector3 { x: Ratio { num: 1, den: 1 }, y: Ratio { num: 1, den: 1 }, z: Ratio { num: 1, den: 1 } }
}

/// Whether an object accepts the factor of scale `f`.
fn is_factor(f: &Ratio) -> (b: bool)
    ensures
        b == factor_wf(*f),
{
    if 0 < f.den && f.den <= SCALE_GRAIN && f.num != 0 {
        let most: i64 = SCALE_LIMIT * f.den;
        -most <= f.num && f.num <= most
    } else {
        false
    }
}

/// Whether an object accepts the scale `s`: a factor of zero, which would
/// flatten the object, is refused, and so is one out of the limits.
pub fn is_scale(s: &Vector3<Ratio>) -> (b: bool)
    ensures
        b == scale_wf(*s),
{
    is_factor(&s.x) && is_factor(&s.y) && is_factor(&s.z)
}

/// A mesh with its material, and the place, the size and the attitude that
/// it is given in the world.
#[derive(Debug, Clone)]
pub struct Object {
    pub mesh: Mesh,
    /// The material of the object.
    pub material: FlatMaterial,
    /// Where the barycenter of the object goes.
    pub position: Vector3<i64>,
    /// The scale of the object along the three axes.
    pub scale: Vector3<Ratio>,
    /// The rotation of the object about the three axes.
    pub rotation: Vector3<Turn>,
    pub name: String,
    /// The barycenter of the mesh as it was loaded.
    pub barycenter: Vector3<i64>,
    pub bbox: BoundingBox,
    pub visible: bool,
}

/// Where a point `p` of a mesh goes when the object is put in place: the
/// mesh is centred on the origin, then scaled, turned about the three axes
/// in turn, and moved to its position.
pub open spec fn placed(
    p: Vector3<int>,
    barycenter: Vector3<int>,
    scale: Vector3<Ratio>,
    rotation: Vector3<Turn>,
    position: Vector3<int>,
) -> Vector3<int> {
    let centred = minus(p, barycenter);
    let sized = scaled_from(centred, crate::algebra::zero(), scale);
    let about_x = rotated(sized, Vector3 { x: 1, y: 0, z: 0 }, rotation.x);
    let about_y = rotated(about_x, Vector3 { x: 0, y: 1, z: 0 }, rotation.y);
    let about_z = rotated(about_y, Vector3 { x: 0, y: 0, z: 1 }, rotation.z);
    plus(about_z, position)
}

/// Whether a mesh fits in the lattice once it is put in place: every vertex
/// of every triangle is then within the limits of the lattice.
pub open spec fn fits_in_place(
    tris: Seq<Triangle>,
    barycenter: Vector3<int>,
    scale: Vector3<Ratio>,
    rotation: Vector3<Turn>,
    position: Vector3<int>,
) -> bool {
    forall|i: int|
        0 <= i < tris.len() ==> {
            &&& bounded(
                placed((#[trigger] tris[i]).pa(), barycenter, scale, rotation, position),
                LIMIT as int,
            )
            &&& bounded(placed(tris[i].pb(), barycenter, scale, rotation, position), LIMIT as int)
            &&& bounded(placed(tris[i].pc(), barycenter, scale, rotation, position), LIMIT as int)
        }
}

/// The triangle `t` with each vertex put in place.
pub open spec fn placed_triangle(
    t: Triangle,
    barycenter: Vector3<int>,
    scale: Vector3<Ratio>,
    rotation: Vector3<Turn>,
    position: Vector3<int>,
    r: Triangle,
) -> bool {
    &&& r.pa() == placed(t.pa(), barycenter, scale, rotation, position)
    &&& r.pb() == placed(t.pb(), barycenter, scale, rotation, position)
    &&& r.pc() == placed(t.pc(), barycenter, scale, rotation, position)
    &&& r.same_attributes(t)
}

/// The result of tracing a ray through a sequence of triangles, one after
/// the other: the fragment of the last hit, and the ray cut at it. Each hit
/// cuts the ray, so that a later triangle is hit only if it is no farther.
pub open spec fn trace(tris: Seq<Triangle>, ray: Ray) -> (Option<Fragment>, Ray)
    decreases tris.len(),
{
    if tris.len() == 0 {
        (None, ray)
    } else {
        let (found, cut) = trace(tris.drop_last(), ray);
        match tris.last().hit(cut) {
            Some(f) => (Some(f), tris.last().trimmed(cut)),
            None => (found, cut),
        }
    }
}

/// Tracing keeps the ray well formed, leaves its origin and direction as
/// they are, and after a hit the ray's bound is the parameter of the
/// fragment.
pub proof fn lemma_trace_ray(tris: Seq<Triangle>, ray: Ray)
    requires
        ray.wf(),
        forall|i: int| 0 <= i < tris.len() ==> (#[trigger] tris[i]).wf(),
    ensures
        trace(tris, ray).1.wf(),
        trace(tris, ray).1.origin == ray.origin,
        trace(tris, ray).1.slope == ray.slope,
        trace(tris, ray).0 matches Some(f) ==> trace(tris, ray).1.max_t == Some(f.param),
        trace(tris, ray).0 is None ==> trace(tris, ray).1 == ray,
    decreases tris.len(),
{
    if tris.len() > 0 {
        lemma_trace_ray(tris.drop_last(), ray);
        let cut = trace(tris.drop_last(), ray).1;
        let t = tris.last();
        assert(t.wf());
        t.plane_wf();
        t.plane().lemma_fragment_bounded(cut);
    }
}

/// The first of the triangles `tris[from..]` that blocks the ray, if any.
pub open spec fn first_blocking(tris: Seq<Triangle>, ray: Ray, from: int) -> Option<int>
    decreases tris.len() - from,
{
    if from >= tris.len() {
        None
    } else if tris[from].blocks(ray) {
        Some(from)
    } else {
        first_blocking(tris, ray, from + 1)
    }
}

impl Triangle {
    /// The plane of a triangle of the lattice is within the limits of a
    /// plane.
    pub proof fn plane_wf(&self)
        requires
            self.wf(),
        ensures
            self.plane().wf(),
    {
        let ab = minus(self.pb(), self.pa());
        let bc = minus(self.pc(), self.pb());
        crate::algebra::lemma_cross_bounded(ab, bc, 16384, 16384);
        crate::algebra::lemma_dot_bounded(self.pa(), cross(ab, bc), 8192, 536870912);
    }
}

impl Object {
    /// An object without triangles, at the origin, of scale one.
    pub fn new_empty() -> (o: Object)
        ensures
            o.triangles_view().len() == 0,
            o.position@ == crate::algebra::zero(),
            o.scale == unit_scale(),
            o.rotation == (Vector3 { x: Turn { cos: TURN_UNIT, sin: 0 }, y: Turn { cos: TURN_UNIT, sin: 0 }, z: Turn { cos: TURN_UNIT, sin: 0 } }),
            o.visible,
            o.bbox.is_empty(),
            o.barycenter@ == crate::algebra::zero(),
            o.name@ == "untitled"@,
            o.material.diffuse == (crate::material::channel::Channel::Solid {
                color: crate::color::RGBA8::spec_new(200, 200, 200, 255),
            }),
            o.wf(),
    {
        Object {
            mesh: Mesh::new_empty(),
            material: FlatMaterial::new_empty(),
            position: Vector3 { x: 0, y: 0, z: 0 },
            scale: Vector3 { x: Ratio { num: 1, den: 1 }, y: Ratio { num: 1, den: 1 }, z: Ratio { num: 1, den: 1 } },
            rotation: Vector3 { x: Turn::none(), y: Turn::none(), z: Turn::none() },
            name: "untitled".to_string(),
            barycenter: Vector3 { x: 0, y: 0, z: 0 },
            bbox: BoundingBox::new(),
            visible: true,
        }
    }

    /// A new object made of `mesh`, put in place at `position`; nothing if
    /// the mesh does not fit in the lattice once it is there.
    pub fn new(position: Vector3<i64>, mesh: Mesh, name: String) -> (r: Option<Object>)
        requires
            mesh.wf(),
            bounded(position@, LIMIT as int),
        ensures
            r is Some <==> fits_in_place(
                mesh.triangles@,
                mesh.barycenter(),
                unit_scale(),
                Vector3 { x: Turn { cos: TURN_UNIT, sin: 0 }, y: Turn { cos: TURN_UNIT, sin: 0 }, z: Turn { cos: TURN_UNIT, sin: 0 } },
                position@,
            ),
            r matches Some(o) ==> {
                &&& o.wf()
                &&& o.name == name
                &&& o.visible
                &&& o.triangles_view().len() == mesh.triangles@.len()
                &&& forall|i: int| 0 <= i < mesh.triangles@.len() ==> placed_triangle(
                    #[trigger] mesh.triangles@[i],
                    mesh.barycenter(),
                    unit_scale(),
                    Vector3 { x: Turn { cos: TURN_UNIT, sin: 0 }, y: Turn { cos: TURN_UNIT, sin: 0 }, z: Turn { cos: TURN_UNIT, sin: 0 } },
                    position@,
                    o.triangles_view()[i],
                )
            },
    {
        let mut result = Object::new_empty();
        result.position = position;
        result.name = name;
        if result.initialize(mesh) {
            Some(result)
        } else {
            None
        }
    }

    /// Every triangle of the object lies within the limits of the lattice.
    pub open spec fn mesh_wf(&self) -> bool {
        self.mesh.wf()
    }

    /// The triangles of the object, in order.
    pub open spec fn triangles_view(&self) -> Seq<Triangle> {
        self.mesh.triangles@
    }

    /// The parameters of the object's placement are within their limits.
    pub open spec fn placement_wf(&self) -> bool {
        &&& bounded(self.position@, LIMIT as int)
        &&& scale_wf(self.scale)
        &&& self.rotation.x.wf()
        &&& self.rotation.y.wf()
        &&& self.rotation.z.wf()
    }

    /// Whether the parameters of the object's placement are within their
    /// limits.
    pub fn is_placeable(&self) -> (b: bool)
        ensures
            b == self.placement_wf(),
    {
        crate::ray::within_limit(&self.position, LIMIT) && is_scale(&self.scale)
            && self.rotation.x.is_valid() && self.rotation.y.is_valid()
            && self.rotation.z.is_valid()
    }

    /// Moves every triangle by the object's position, which then becomes
    /// zero: it makes no sense to apply it twice.
    fn apply_position(&mut self)
        requires
            bounded(old(self).position@, i64::MAX / 2),
            forall|i: int| 0 <= i < old(self).triangles_view().len() ==> {
                &&& bounded((#[trigger] old(self).triangles_view()[i]).pa(), i64::MAX / 2)
                &&& bounded(old(self).triangles_view()[i].pb(), i64::MAX / 2)
                &&& bounded(old(self).triangles_view()[i].pc(), i64::MAX / 2)
            },
        ensures
            final(self).triangles_view().len() == old(self).triangles_view().len(),
            forall|i: int| 0 <= i < final(self).triangles_view().len() ==> {
                &&& (#[trigger] final(self).triangles_view()[i]).pa() == plus(old(self).triangles_view()[i].pa(), old(self).position@)
                &&& final(self).triangles_view()[i].pb() == plus(old(self).triangles_view()[i].pb(), old(self).position@)
                &&& final(self).triangles_view()[i].pc() == plus(old(self).triangles_view()[i].pc(), old(self).position@)
                &&& final(self).triangles_view()[i].same_attributes(old(self).triangles_view()[i])
            },
            final(self).position@ == crate::algebra::zero(),
            final(self).scale == old(self).scale,
            final(self).rotation == old(self).rotation,
            final(self).barycenter == old(self).barycenter,
            final(self).visible == old(self).visible,
            final(self).name == old(self).name,
            final(self).material == old(self).material,
    {
        let n = self.mesh.triangles.len();
        let position = self.position;
        let mut i: usize = 0;
        while i < n
            invariant
                i <= n,
                n == self.triangles_view().len(),
                n == old(self).triangles_view().len(),
                position == old(self).position,
                bounded(position@, i64::MAX / 2),
                self.scale == old(self).scale,
                self.rotation == old(self).rotation,
                self.barycenter == old(self).barycenter,
                self.visible == old(self).visible,
                self.name == old(self).name,
                self.material == old(self).material,
                forall|j: int| i <= j < n ==> #[trigger] self.triangles_view()[j] == old(self).triangles_view()[j],
                forall|j: int| 0 <= j < n ==> {
                    &&& bounded((#[trigger] old(self).triangles_view()[j]).pa(), i64::MAX / 2)
                    &&& bounded(old(self).triangles_view()[j].pb(), i64::MAX / 2)
                    &&& bounded(old(self).triangles_view()[j].pc(), i64::MAX / 2)
                },
                forall|j: int| 0 <= j < i ==> {
                    &&& (#[trigger] self.triangles_view()[j]).pa() == plus(old(self).triangles_view()[j].pa(), position@)
                    &&& self.triangles_view()[j].pb() == plus(old(self).triangles_view()[j].pb(), position@)
                    &&& self.triangles_view()[j].pc() == plus(old(self).triangles_view()[j].pc(), position@)
                    &&& self.triangles_view()[j].same_attributes(old(self).triangles_view()[j])
                },
            decreases n - i,
        {
            let mut tri = self.mesh.triangles[i];
            assert(tri == old(self).triangles_view()[i as int]);
            tri.add_position(&position);
            self.mesh.triangles.set(i, tri);
            i = i + 1;
        }
        self.position = Vector3 { x: 0, y: 0, z: 0 };
    }

    /// Turns every triangle about the three axes in turn; the rotation then
    /// becomes none.
    fn apply_rotation(&mut self)
        requires
            old(self).rotation.x.wf(),
            old(self).rotation.y.wf(),
            old(self).rotation.z.wf(),
            forall|i: int| 0 <= i < old(self).triangles_view().len() ==> {
                &&& bounded((#[trigger] old(self).triangles_view()[i]).pa(), 1048576)
                &&& bounded(old(self).triangles_view()[i].pb(), 1048576)
                &&& bounded(old(self).triangles_view()[i].pc(), 1048576)
            },
        ensures
            final(self).triangles_view().len() == old(self).triangles_view().len(),
            forall|i: int| 0 <= i < final(self).triangles_view().len() ==> {
                &&& (#[trigger] final(self).triangles_view()[i]).pa() == Object::turned(old(self).triangles_view()[i].pa(), old(self).rotation)
                &&& final(self).triangles_view()[i].pb() == Object::turned(old(self).triangles_view()[i].pb(), old(self).rotation)
                &&& final(self).triangles_view()[i].pc() == Object::turned(old(self).triangles_view()[i].pc(), old(self).rotation)
                &&& final(self).triangles_view()[i].same_attributes(old(self).triangles_view()[i])
                &&& bounded(final(self).triangles_view()[i].pa(), 764411904)
                &&& bounded(final(self).triangles_view()[i].pb(), 764411904)
                &&& bounded(final(self).triangles_view()[i].pc(), 764411904)
            },
            final(self).rotation == (Vector3 { x: Turn { cos: TURN_UNIT, sin: 0 }, y: Turn { cos: TURN_UNIT, sin: 0 }, z: Turn { cos: TURN_UNIT, sin: 0 } }),
            final(self).scale == old(self).scale,
            final(self).position == old(self).position,
            final(self).barycenter == old(self).barycenter,
            final(self).visible == old(self).visible,
            final(self).name == old(self).name,
            final(self).material == old(self).material,
    {
        let n = self.mesh.triangles.len();
        let rotation = self.rotation;
        let mut i: usize = 0;
        while i < n
            invariant
                i <= n,
                n == self.triangles_view().len(),
                n == old(self).triangles_view().len(),
                rotation == old(self).rotation,
                rotation.x.wf(),
                rotation.y.wf(),
                rotation.z.wf(),
                self.scale == old(self).scale,
                self.position == old(self).position,
                self.barycenter == old(self).barycenter,
                self.visible == old(self).visible,
                self.name == old(self).name,
                self.material == old(self).material,
                forall|j: int| i <= j < n ==> #[trigger] self.triangles_view()[j] == old(self).triangles_view()[j],
                forall|j: int| 0 <= j < n ==> {
                    &&& bounded((#[trigger] old(self).triangles_view()[j]).pa(), 1048576)
                    &&& bounded(old(self).triangles_view()[j].pb(), 1048576)
                    &&& bounded(old(self).triangles_view()[j].pc(), 1048576)
                },
                forall|j: int| 0 <= j < i ==> {
                    &&& (#[trigger] self.triangles_view()[j]).pa() == Object::turned(old(self).triangles_view()[j].pa(), rotation)
                    &&& self.triangles_view()[j].pb() == Object::turned(old(self).triangles_view()[j].pb(), rotation)
                    &&& self.triangles_view()[j].pc() == Object::turned(old(self).triangles_view()[j].pc(), rotation)
                    &&& self.triangles_view()[j].same_attributes(old(self).triangles_view()[j])
                    &&& bounded(self.triangles_view()[j].pa(), 764411904)
                    &&& bounded(self.triangles_view()[j].pb(), 764411904)
                    &&& bounded(self.triangles_view()[j].pc(), 764411904)
                },
            decreases n - i,
        {
            let mut tri = self.mesh.triangles[i];
            let ghost t0 = tri;
            assert(t0 == old(self).triangles_view()[i as int]);
            let axis_x = Vector3 { x: 1i64, y: 0i64, z: 0i64 };
            let axis_y = Vector3 { x: 0i64, y: 1i64, z: 0i64 };
            let axis_z = Vector3 { x: 0i64, y: 0i64, z: 1i64 };
            proof {
                lemma_rotated_bounded(t0.pa(), axis_x@, rotation.x, 1048576);
                lemma_rotated_bounded(t0.pb(), axis_x@, rotation.x, 1048576);
                lemma_rotated_bounded(t0.pc(), axis_x@, rotation.x, 1048576);
            }
            tri.rotate_around(&axis_x, rotation.x);
            let ghost t1 = tri;
            proof {
                lemma_rotated_bounded(t1.pa(), axis_y@, rotation.y, 9437184);
                lemma_rotated_bounded(t1.pb(), axis_y@, rotation.y, 9437184);
                lemma_rotated_bounded(t1.pc(), axis_y@, rotation.y, 9437184);
            }
            tri.rotate_around(&axis_y, rotation.y);
            let ghost t2 = tri;
            proof {
                lemma_rotated_bounded(t2.pa(), axis_z@, rotation.z, 84934656);
                lemma_rotated_bounded(t2.pb(), axis_z@, rotation.z, 84934656);
                lemma_rotated_bounded(t2.pc(), axis_z@, rotation.z, 84934656);
            }
            tri.rotate_around(&axis_z, rotation.z);
            self.mesh.triangles.set(i, tri);
            i = i + 1;
        }
        self.rotation = Vector3 { x: Turn::none(), y: Turn::none(), z: Turn::none() };
    }

    /// The image of `p` by the three rotations of an object, about the
    /// first, the second and the third axis in turn.
    pub open spec fn turned(p: Vector3<int>, rotation: Vector3<Turn>) -> Vector3<int> {
        rotated(
            rotated(
                rotated(p, Vector3 { x: 1, y: 0, z: 0 }, rotation.x),
                Vector3 { x: 0, y: 1, z: 0 },
                rotation.y,
            ),
            Vector3 { x: 0, y: 0, z: 1 },
            rotation.z,
        )
    }

    /// Scales every triangle from the origin; the scale then becomes one.
    fn apply_scale(&mut self)
        requires
            scale_wf(old(self).scale),
            forall|i: int| 0 <= i < old(self).triangles_view().len() ==> {
                &&& bounded((#[trigger] old(self).triangles_view()[i]).pa(), 16384)
                &&& bounded(old(self).triangles_view()[i].pb(), 16384)
                &&& bounded(old(self).triangles_view()[i].pc(), 16384)
            },
        ensures
            final(self).triangles_view().len() == old(self).triangles_view().len(),
            forall|i: int| 0 <= i < final(self).triangles_view().len() ==> {
                &&& (#[trigger] final(self).triangles_view()[i]).pa() == scaled_from(old(self).triangles_view()[i].pa(), crate::algebra::zero(), old(self).scale)
                &&& final(self).triangles_view()[i].pb() == scaled_from(old(self).triangles_view()[i].pb(), crate::algebra::zero(), old(self).scale)
                &&& final(self).triangles_view()[i].pc() == scaled_from(old(self).triangles_view()[i].pc(), crate::algebra::zero(), old(self).scale)
                &&& final(self).triangles_view()[i].same_attributes(old(self).triangles_view()[i])
                &&& bounded(final(self).triangles_view()[i].pa(), 1048576)
                &&& bounded(final(self).triangles_view()[i].pb(), 1048576)
                &&& bounded(final(self).triangles_view()[i].pc(), 1048576)
            },
            final(self).scale == unit_scale(),
            final(self).rotation == old(self).rotation,
            final(self).position == old(self).position,
            final(self).barycenter == old(self).barycenter,
            final(self).visible == old(self).visible,
            final(self).name == old(self).name,
            final(self).material == old(self).material,
    {
        let n = self.mesh.triangles.len();
        let scale = self.scale;
        let origin = Vector3 { x: 0i64, y: 0i64, z: 0i64 };
        let mut i: usize = 0;
        while i < n
            invariant
                i <= n,
                n == self.triangles_view().len(),
                n == old(self).triangles_view().len(),
                scale == old(self).scale,
                origin@ == crate::algebra::zero(),
                scale_wf(scale),
                self.rotation == old(self).rotation,
                self.position == old(self).position,
                self.barycenter == old(self).barycenter,
                self.visible == old(self).visible,
                self.name == old(self).name,
                self.material == old(self).material,
                forall|j: int| i <= j < n ==> #[trigger] self.triangles_view()[j] == old(self).triangles_view()[j],
                forall|j: int| 0 <= j < n ==> {
                    &&& bounded((#[trigger] old(self).triangles_view()[j]).pa(), 16384)
                    &&& bounded(old(self).triangles_view()[j].pb(), 16384)
                    &&& bounded(old(self).triangles_view()[j].pc(), 16384)
                },
                forall|j: int| 0 <= j < i ==> {
                    &&& (#[trigger] self.triangles_view()[j]).pa() == scaled_from(old(self).triangles_view()[j].pa(), origin@, scale)
                    &&& self.triangles_view()[j].pb() == scaled_from(old(self).triangles_view()[j].pb(), origin@, scale)
                    &&& self.triangles_view()[j].pc() == scaled_from(old(self).triangles_view()[j].pc(), origin@, scale)
                    &&& self.triangles_view()[j].same_attributes(old(self).triangles_view()[j])
                    &&& bounded(self.triangles_view()[j].pa(), 1048576)
                    &&& bounded(self.triangles_view()[j].pb(), 1048576)
                    &&& bounded(self.triangles_view()[j].pc(), 1048576)
                },
            decreases n - i,
        {
            let mut tri = self.mesh.triangles[i];
            let ghost t0 = tri;
            assert(t0 == old(self).triangles_view()[i as int]);
            proof {
                lemma_scaled_axis_bounded(t0.pa().x, scale.x, 16384, 64);
                lemma_scaled_axis_bounded(t0.pa().y, scale.y, 16384, 64);
                lemma_scaled_axis_bounded(t0.pa().z, scale.z, 16384, 64);
                lemma_scaled_axis_bounded(t0.pb().x, scale.x, 16384, 64);
                lemma_scaled_axis_bounded(t0.pb().y, scale.y, 16384, 64);
                lemma_scaled_axis_bounded(t0.pb().z, scale.z, 16384, 64);
                lemma_scaled_axis_bounded(t0.pc().x, scale.x, 16384, 64);
                lemma_scaled_axis_bounded(t0.pc().y, scale.y, 16384, 64);
                lemma_scaled_axis_bounded(t0.pc().z, scale.z, 16384, 64);
            }
            tri.scale_from(&origin, &scale);
            self.mesh.triangles.set(i, tri);
            i = i + 1;
        }
        self.scale = Vector3 { x: Ratio { num: 1, den: 1 }, y: Ratio { num: 1, den: 1 }, z: Ratio { num: 1, den: 1 } };
    }

    fn compute_barycenter(&self) -> (c: Vector3<i64>)
        requires
            self.mesh_wf(),
        ensures
            c@ == self.mesh.barycenter(),
            bounded(c@, LIMIT as int),
    {
        self.mesh.get_barycenter()
    }

    /// Moves the mesh so that its barycenter is at the origin, and records
    /// where the barycenter was. The position of the object is kept.
    fn center(&mut self)
        requires
            old(self).mesh_wf(),
            bounded(old(self).position@, LIMIT as int),
        ensures
            final(self).triangles_view().len() == old(self).triangles_view().len(),
            final(self).barycenter@ == old(self).mesh.barycenter(),
            forall|i: int| 0 <= i < final(self).triangles_view().len() ==> {
                &&& (#[trigger] final(self).triangles_view()[i]).pa() == minus(old(self).triangles_view()[i].pa(), old(self).mesh.barycenter())
                &&& final(self).triangles_view()[i].pb() == minus(old(self).triangles_view()[i].pb(), old(self).mesh.barycenter())
                &&& final(self).triangles_view()[i].pc() == minus(old(self).triangles_view()[i].pc(), old(self).mesh.barycenter())
                &&& final(self).triangles_view()[i].same_attributes(old(self).triangles_view()[i])
                &&& bounded(final(self).triangles_view()[i].pa(), 16384)
                &&& bounded(final(self).triangles_view()[i].pb(), 16384)
                &&& bounded(final(self).triangles_view()[i].pc(), 16384)
            },
            final(self).position == old(self).position,
            final(self).scale == old(self).scale,
            final(self).rotation == old(self).rotation,
            final(self).visible == old(self).visible,
            final(self).name == old(self).name,
            final(self).material == old(self).material,
    {
        let barycenter = self.compute_barycenter();
        let old_pos: Vector3<i64> = self.position;
        // The mesh is centred on the origin.
        self.position = Vector3 { x: -barycenter.x, y: -barycenter.y, z: -barycenter.z };
        assert forall|i: int| 0 <= i < self.triangles_view().len() implies {
            &&& bounded((#[trigger] self.triangles_view()[i]).pa(), i64::MAX / 2)
            &&& bounded(self.triangles_view()[i].pb(), i64::MAX / 2)
            &&& bounded(self.triangles_view()[i].pc(), i64::MAX / 2)
        } by {
            assert(self.triangles_view()[i].wf());
        }
        self.apply_position();
        self.position = old_pos;
        self.barycenter = barycenter;
        assert forall|i: int| 0 <= i < self.triangles_view().len() implies {
            &&& bounded((#[trigger] self.triangles_view()[i]).pa(), 16384)
            &&& bounded(self.triangles_view()[i].pb(), 16384)
            &&& bounded(self.triangles_view()[i].pc(), 16384)
        } by {
            assert(old(self).triangles_view()[i].wf());
        }
    }

    /// Puts the mesh in place: centred, scaled, turned and moved to the
    /// object's position, in that order, and bounded by a box. A placement
    /// out of its limits is refused, and with it a factor of scale of zero.
    /// Answers whether the placement was accepted and every triangle then
    /// lies within the limits of the lattice; if not, the object is left
    /// without triangles.
    pub fn initialize(&mut self, mesh: Mesh) -> (ok: bool)
        requires
            mesh.wf(),
        ensures
            ok == (old(self).placement_wf() && fits_in_place(
                mesh.triangles@,
                mesh.barycenter(),
                old(self).scale,
                old(self).rotation,
                old(self).position@,
            )),
            ok ==> {
                &&& final(self).wf()
                &&& final(self).triangles_view().len() == mesh.triangles@.len()
                &&& forall|i: int| 0 <= i < mesh.triangles@.len() ==> placed_triangle(
                    #[trigger] mesh.triangles@[i],
                    mesh.barycenter(),
                    old(self).scale,
                    old(self).rotation,
                    old(self).position@,
                    final(self).triangles_view()[i],
                )
            },
            !ok ==> final(self).triangles_view().len() == 0 && final(self).wf(),
            final(self).barycenter@ == mesh.barycenter(),
            final(self).visible == old(self).visible,
            final(self).name == old(self).name,
            final(self).material == old(self).material,
            final(self).position@ == crate::algebra::zero(),
            final(self).scale == unit_scale(),
    {
        if !self.is_placeable() {
            self.barycenter = mesh.get_barycenter();
            self.mesh = Mesh::new_empty();
            self.bbox = BoundingBox::new();
            self.position = Vector3 { x: 0, y: 0, z: 0 };
            self.scale = Vector3 { x: Ratio { num: 1, den: 1 }, y: Ratio { num: 1, den: 1 }, z: Ratio { num: 1, den: 1 } };
            return false;
        }
        let ghost before = *self;
        self.mesh = mesh;
        self.center();
        let ghost centred = *self;
        self.apply_scale();
        let ghost sized = *self;
        self.apply_rotation();
        let ghost about = *self;
        assert forall|i: int| 0 <= i < self.triangles_view().len() implies {
            &&& bounded((#[trigger] self.triangles_view()[i]).pa(), i64::MAX / 2)
            &&& bounded(self.triangles_view()[i].pb(), i64::MAX / 2)
            &&& bounded(self.triangles_view()[i].pc(), i64::MAX / 2)
        } by {
            assert(bounded(about.triangles_view()[i].pa(), 764411904));
        }
        self.apply_position();
        proof {
            assert forall|i: int| 0 <= i < mesh.triangles@.len() implies placed_triangle(
                #[trigger] mesh.triangles@[i],
                mesh.barycenter(),
                before.scale,
                before.rotation,
                before.position@,
                self.triangles_view()[i],
            ) by {
                let t0 = mesh.triangles@[i];
                let t1 = centred.triangles_view()[i];
                let t2 = sized.triangles_view()[i];
                let t3 = about.triangles_view()[i];
                let t4 = self.triangles_view()[i];
                assert(t1.same_attributes(t0));
                assert(t2.same_attributes(t1));
                assert(t3.same_attributes(t2));
                assert(t4.same_attributes(t3));
            }
        }
        // The geometry must fit in the lattice.
        let n = self.mesh.triangles.len();
        let mut i: usize = 0;
        let mut fits = true;
        let ghost bad: int = 0;
        while i < n && fits
            invariant
                i <= n,
                n == self.triangles_view().len(),
                fits ==> forall|j: int| 0 <= j < i ==> (#[trigger] self.triangles_view()[j]).wf(),
                !fits ==> 0 <= bad < n && !self.triangles_view()[bad].wf(),
            decreases n - i,
        {
            fits = self.mesh.triangles[i].is_valid();
            proof {
                if !fits {
                    bad = i as int;
                }
            }
            i = i + 1;
        }
        proof {
            let tris = mesh.triangles@;
            assert forall|j: int| 0 <= j < n implies (self.triangles_view()[j].wf() <==> {
                &&& bounded(
                    placed(
                        (#[trigger] tris[j]).pa(),
                        mesh.barycenter(),
                        before.scale,
                        before.rotation,
                        before.position@,
                    ),
                    LIMIT as int,
                )
                &&& bounded(
                    placed(tris[j].pb(), mesh.barycenter(), before.scale, before.rotation, before.position@),
                    LIMIT as int,
                )
                &&& bounded(
                    placed(tris[j].pc(), mesh.barycenter(), before.scale, before.rotation, before.position@),
                    LIMIT as int,
                )
            }) by {
                assert(tris[j].wf());
                assert(placed_triangle(
                    tris[j],
                    mesh.barycenter(),
                    before.scale,
                    before.rotation,
                    before.position@,
                    self.triangles_view()[j],
                ));
            }
            if !fits {
                assert(tris[bad].wf());
            }
        }
        if !fits {
            self.mesh = Mesh::new_empty();
            self.bbox = BoundingBox::new();
            return false;
        }
        self.bbox = BoundingBox::new_from_object(self);
        true
    }

    /// The triangles of the object, in order.
    pub fn triangles(&self) -> (t: &Vec<Triangle>)
        ensures
            t@ == self.triangles_view(),
    {
        self.mesh.triangles()
    }

    pub fn material(&self) -> (m: &FlatMaterial)
        ensures
            *m == self.material,
    {
        &self.material
    }

    pub fn bounding_box(&self) -> (b: &BoundingBox)
        ensures
            *b == self.bbox,
    {
        &self.bbox
    }

    pub fn is_visible(&self) -> (b: bool)
        ensures
            b == self.visible,
    {
        self.visible
    }

    pub fn position(&self) -> (p: &Vector3<i64>)
        ensures
            *p == self.position,
    {
        &self.position
    }

    /// The place where the ray meets the object, if it does, with the mesh
    /// and the material of the object, and the ray as it is cut there.
    pub fn get_intersection_point(&self, ray: &mut Ray) -> (r: Option<Intersection<'_>>)
        requires
            self.wf(),
            old(ray).wf(),
        ensures
            *final(ray) == self.trimmed(*old(ray)),
            final(ray).wf(),
            match self.hit(*old(ray)) {
                Some(f) => r == Some(
                    Intersection {
                        fragment: f,
                        geometry: &self.mesh,
                        material: &self.material,
                        ray: self.trimmed(*old(ray)),
                    },
                ),
                None => r is None,
            },
    {
        match self.get_intersection_fragment(ray) {
            Some(frag) => Some(Intersection::new(frag, *ray, &self.mesh, &self.material)),
            None => None,
        }
    }
}

impl Surface for Object {
    /// Every triangle lies within the limits of the lattice and within the
    /// box of the object.
    open spec fn wf(&self) -> bool {
        &&& self.mesh.wf()
        &&& self.bbox.wf()
        &&& forall|i: int| 0 <= i < self.triangles_view().len() ==> self.bbox.holds(#[trigger] self.triangles_view()[i])
    }

    /// The fragment of the last triangle that the ray hits when it is
    /// traced through the triangles in order: each hit cuts the ray, so the
    /// last hit is a nearest one.
    open spec fn hit(&self, ray: Ray) -> Option<Fragment> {
        trace(self.triangles_view(), ray).0
    }

    open spec fn trimmed(&self, ray: Ray) -> Ray {
        trace(self.triangles_view(), ray).1
    }

    /// The ray cut by the first triangle, in order, that blocks it.
    open spec fn shadowed(&self, ray: Ray) -> Option<Ray> {
        match first_blocking(self.triangles_view(), ray, 0) {
            Some(i) => self.triangles_view()[i].shadowed(ray),
            None => None,
        }
    }

    fn get_intersection_fragment(&self, ray: &mut Ray) -> (r: Option<Fragment>) {
        let mut found: Option<Fragment> = None;
        let n = self.mesh.triangles.len();
        let mut i: usize = 0;
        while i < n
            invariant
                i <= n,
                n == self.triangles_view().len(),
                self.wf(),
                old(ray).wf(),
                ray.wf(),
                (found, *ray) == trace(self.triangles_view().take(i as int), *old(ray)),
            decreases n - i,
        {
            proof {
                assert(self.triangles_view().take(i + 1).drop_last() == self.triangles_view().take(i as int));
                assert(self.triangles_view()[i as int].wf());
            }
            match self.mesh.triangles[i].get_intersection_fragment(ray) {
                Some(point) => {
                    found = Some(point);
                },
                None => {},
            }
            i = i + 1;
        }
        proof {
            assert(self.triangles_view().take(n as int) == self.triangles_view());
        }
        found
    }

    fn fast_intersection(&self, ray: &mut Ray) -> (b: bool) {
        let n = self.mesh.triangles.len();
        let mut i: usize = 0;
        while i < n
            invariant
                i <= n,
                n == self.triangles_view().len(),
                self.wf(),
                ray.wf(),
                *ray == *old(ray),
                first_blocking(self.triangles_view(), *ray, 0) == first_blocking(self.triangles_view(), *ray, i as int),
            decreases n - i,
        {
            assert(self.triangles_view()[i as int].wf());
            if self.mesh.triangles[i].fast_intersection(ray) {
                return true;
            }
            i = i + 1;
        }
        false
    }
}

} // verus!
