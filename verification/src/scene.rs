//! The world: its objects, its lights and its cameras.
use crate::algebra::{bounded, cross, minus, plus, scaled};
use crate::exact::{
    cross_product, difference, long_root, product, quotient_nearest, root_of, round, rounded,
    scale, squared_norm, widen, Ratio, LIMIT,
};
use crate::geometry::obj3d::Object;
use crate::light::{Light, LightObject};
use crate::math::Vector3;
use crate::ray::{Ray, Surface};
use crate::sampler::Sample;
use vstd::prelude::*;

verus! {

/// The objects, the lights and the cameras of a scene.
#[derive(Debug)]
pub struct World {
    /// The three vectors of the base of the world; the third one is up.
    pub base_vector: [Vector3<i64>; 3],
    pub cameras: Vec<Camera>,
    pub objects: Vec<Object>,
    pub lights: Vec<LightObject>,
}

/// A camera, by its place, the point it looks at, and its field of view.
#[derive(Debug)]
pub struct Camera {
    /// The place of the camera.
    pub world_position: Vector3<i64>,
    /// The point at which the camera is aimed.
    pub target_position: Vector3<i64>,
    /// The direction of the top of the picture.
    pub up: Vector3<i64>,
    /// The tangent of half the horizontal field of view.
    pub fov: Ratio,
    /// The distance from the camera to its canvas.
    pub clip: i64,
}

/// The tangent of half the default field of view, of 70 degrees.
pub const DEFAULT_FOV_NUM: i64 = 7002;

pub const DEFAULT_FOV_DEN: i64 = 10000;

/// The default distance from the camera to its canvas.
pub const DEFAULT_CLIP: i64 = 1;

/// The greatest tangent, numerator or denominator, of half a field of view,
/// and the greatest term of an aspect ratio.
pub const FOV_LIMIT: i64 = 65536;

/// One on the scale of the lengths of the directions of a camera: a length
/// `l` stands for `l / LENGTH_UNIT`.
pub const LENGTH_UNIT: i64 = 65536;

/// The square of `LENGTH_UNIT`.
pub const LENGTH_UNIT_SQUARED: i64 = 4294967296;

/// The first of the objects `objects[from..]` that blocks the ray, if any.
pub open spec fn first_occluder(objects: Seq<Object>, ray: Ray, from: int) -> Option<int>
    decreases objects.len() - from,
{
    if from >= objects.len() {
        None
    } else if objects[from].shadowed(ray).is_some() {
        Some(from)
    } else {
        first_occluder(objects, ray, from + 1)
    }
}

impl Camera {
    pub fn new(position: Vector3<i64>, target: Vector3<i64>, up: Vector3<i64>) -> (c: Camera)
        ensures
            c == (Camera {
                world_position: position,
                target_position: target,
                up: up,
                fov: Ratio { num: DEFAULT_FOV_NUM, den: DEFAULT_FOV_DEN },
                clip: DEFAULT_CLIP,
            }),
    {
        Camera {
            world_position: position,
            target_position: target,
            fov: Ratio { num: DEFAULT_FOV_NUM, den: DEFAULT_FOV_DEN },
            up: up,
            clip: DEFAULT_CLIP,
        }
    }

    /// Sets the field of view, by the tangent of its half.
    pub fn set_fov(&mut self, fov: Ratio)
        ensures
            final(self).fov == fov,
            final(self).world_position == old(self).world_position,
            final(self).target_position == old(self).target_position,
            final(self).up == old(self).up,
            final(self).clip == old(self).clip,
    {
        self.fov = fov;
    }

    /// The direction in which the camera looks.
    pub open spec fn aim(&self) -> Vector3<int> {
        minus(self.target_position@, self.world_position@)
    }

    /// The direction of the picture's lines: across the aim and the up
    /// direction.
    pub open spec fn across(&self) -> Vector3<int> {
        cross(self.aim(), self.up@)
    }

    /// The direction of the picture's columns, from top to bottom.
    pub open spec fn down(&self) -> Vector3<int> {
        cross(self.aim(), self.across())
    }

    /// The camera lies within the limits of the lattice, looks somewhere,
    /// not straight up or down, and has a field of view and a clip distance
    /// within their limits.
    pub open spec fn wf(&self) -> bool {
        &&& bounded(self.world_position@, LIMIT as int)
        &&& bounded(self.target_position@, LIMIT as int)
        &&& bounded(self.up@, LIMIT as int)
        &&& self.across() != crate::algebra::zero()
        &&& 0 < self.fov.num <= FOV_LIMIT
        &&& 0 < self.fov.den <= FOV_LIMIT
        &&& 0 < self.clip <= LIMIT
    }

    /// Whether the camera can be used.
    pub fn is_valid(&self) -> (b: bool)
        ensures
            b == self.wf(),
    {
        if !(crate::ray::within_limit(&self.world_position, LIMIT) && crate::ray::within_limit(
            &self.target_position,
            LIMIT,
        ) && crate::ray::within_limit(&self.up, LIMIT)) {
            return false;
        }
        let cam = difference(
            &widen(&self.target_position),
            &widen(&self.world_position),
            Ghost(8192),
            Ghost(8192),
        );
        let e1 = cross_product(&cam, &widen(&self.up), Ghost(16384), Ghost(8192));
        (e1.x != 0 || e1.y != 0 || e1.z != 0) && 0 < self.fov.num && self.fov.num <= FOV_LIMIT && 0
            < self.fov.den && self.fov.den <= FOV_LIMIT && 0 < self.clip && self.clip <= LIMIT
    }

    /// The length of the aim, times `LENGTH_UNIT`, rounded down.
    pub open spec fn aim_length(&self) -> int {
        root_of((crate::algebra::norm_squared(self.aim()) * LENGTH_UNIT_SQUARED) as nat) as int
    }

    /// The length of the direction of the lines, times `LENGTH_UNIT`,
    /// rounded down.
    pub open spec fn across_length(&self) -> int {
        root_of((crate::algebra::norm_squared(self.across()) * LENGTH_UNIT_SQUARED) as nat) as int
    }

    /// What the three vectors of the canvas are divided by, when they are
    /// brought to one denominator.
    pub open spec fn canvas_divisor(&self, ratio: Ratio) -> int {
        self.fov.den * ratio.num * (self.aim_length() * self.across_length())
    }

    /// The vector along the lines of the canvas, from its left edge to its
    /// right edge: the direction across, with the length
    /// `2 * clip * tan(fov / 2)`, each coordinate rounded once, to the
    /// nearest step.
    pub open spec fn canvas_across(&self) -> Vector3<int> {
        rounded(
            scaled(self.across(), 2 * self.fov.num * self.clip * LENGTH_UNIT),
            self.fov.den * self.across_length(),
        )
    }

    /// The vector along the columns of the canvas, from its top edge to its
    /// bottom edge, for a picture whose width is `ratio` times its height;
    /// each coordinate is rounded once, to the nearest step.
    pub open spec fn canvas_down(&self, ratio: Ratio) -> Vector3<int> {
        rounded(
            scaled(self.down(), 2 * self.fov.num * self.clip * ratio.den * LENGTH_UNIT_SQUARED),
            self.canvas_divisor(ratio),
        )
    }

    /// The top left corner of the canvas: at the clip distance along the
    /// aim, then half the canvas back along each of its two vectors. The
    /// three moves are added as they are, and each coordinate of their sum
    /// is rounded once, to the nearest step.
    pub open spec fn canvas_origin(&self, ratio: Ratio) -> Vector3<int> {
        let ahead = scaled(
            self.aim(),
            self.clip * LENGTH_UNIT * (self.fov.den * ratio.num) * self.across_length(),
        );
        let below = scaled(
            self.down(),
            self.fov.num * self.clip * ratio.den * LENGTH_UNIT_SQUARED,
        );
        let aside = scaled(
            self.across(),
            self.fov.num * self.clip * LENGTH_UNIT * ratio.num * self.aim_length(),
        );
        plus(
            self.world_position@,
            rounded(minus(minus(ahead, below), aside), self.canvas_divisor(ratio)),
        )
    }

    /// The length of the aim of a camera that looks somewhere is positive,
    /// and so is that of the direction of its lines.
    proof fn lemma_lengths(&self)
        requires
            self.wf(),
        ensures
            0 < crate::algebra::norm_squared(self.aim()) <= 805306368,
            0 < crate::algebra::norm_squared(self.across()) <= 216172782113783808,
            bounded(self.aim(), 16384),
            bounded(self.across(), 268435456),
            bounded(self.down(), 8796093022208),
    {
        crate::algebra::lemma_cross_bounded(self.aim(), self.up@, 16384, 8192);
        crate::algebra::lemma_cross_bounded(self.aim(), self.across(), 16384, 268435456);
        crate::algebra::lemma_norm_nonnegative(self.aim());
        crate::algebra::lemma_norm_nonnegative(self.across());
        crate::algebra::lemma_dot_bounded(self.aim(), self.aim(), 16384, 16384);
        crate::algebra::lemma_dot_bounded(self.across(), self.across(), 268435456, 268435456);
        if self.aim() == crate::algebra::zero() {
            assert(self.across() == crate::algebra::zero()) by {
                let u = self.up@;
                let a = self.aim();
                assert(a.y * u.z - a.z * u.y == 0 && a.z * u.x - a.x * u.z == 0 && a.x * u.y - a.y
                    * u.x == 0) by (nonlinear_arith)
                    requires
                        a.x == 0,
                        a.y == 0,
                        a.z == 0,
                ;
            }
        }
    }

    /// The frame of the canvas, if it fits in the lattice.
    pub open spec fn canvas(&self, ratio: Ratio) -> Option<(Vector3<i64>, Vector3<i64>, Vector3<i64>)> {
        let o = self.canvas_origin(ratio);
        let a = self.canvas_across();
        let d = self.canvas_down(ratio);
        if bounded(o, LIMIT as int) && bounded(a, LIMIT as int) && bounded(d, LIMIT as int) {
            Some(
                (
                    Vector3 { x: o.x as i64, y: o.y as i64, z: o.z as i64 },
                    Vector3 { x: a.x as i64, y: a.y as i64, z: a.z as i64 },
                    Vector3 { x: d.x as i64, y: d.y as i64, z: d.z as i64 },
                ),
            )
        } else {
            None
        }
    }

    /// The frame of the canvas of the camera: its top left corner, and the
    /// two vectors that span it, along its lines and along its columns;
    /// nothing if the canvas does not fit in the lattice.
    pub fn get_canvas_base(&self, ratio: Ratio) -> (base: Option<
        (Vector3<i64>, Vector3<i64>, Vector3<i64>),
    >)
        requires
            self.wf(),
            0 < ratio.num <= FOV_LIMIT,
            0 < ratio.den <= FOV_LIMIT,
        ensures
            base == self.canvas(ratio),
            base matches Some(b) ==> bounded(b.0@, LIMIT as int) && bounded(b.1@, LIMIT as int)
                && bounded(b.2@, LIMIT as int),
    {
        proof {
            self.lemma_lengths();
        }
        let cam_vector = difference(
            &widen(&self.target_position),
            &widen(&self.world_position),
            Ghost(8192),
            Ghost(8192),
        );
        let e1_not_norm = cross_product(&cam_vector, &widen(&self.up), Ghost(16384), Ghost(8192));
        let e2_not_norm = cross_product(&cam_vector, &e1_not_norm, Ghost(16384), Ghost(268435456));

        let across_squared = squared_norm(&e1_not_norm, Ghost(268435456));
        let aim_squared = squared_norm(&cam_vector, Ghost(16384));
        let across_length = long_root(across_squared as u128 * 4294967296) as i128;
        let aim_length = long_root(aim_squared as u128 * 4294967296) as i128;
        proof {
            crate::exact::lemma_root_below(
                across_length as int,
                across_squared * 4294967296,
                35184372088832,
            );
            crate::exact::lemma_root_below(aim_length as int, aim_squared * 4294967296, 2147483648);
        }
        let fov_num = self.fov.num as i128;
        let fov_den = self.fov.den as i128;
        let clip = self.clip as i128;
        let unit = LENGTH_UNIT as i128;
        let unit_squared = LENGTH_UNIT_SQUARED as i128;
        let lengths = product(aim_length, across_length, Ghost(2147483648), Ghost(35184372088832));
        let terms = product(fov_den, ratio.num as i128, Ghost(65536), Ghost(65536));
        let divisor = product(terms, lengths, Ghost(4294967296), Ghost(75557863725914323419136));
        proof {
            assert(lengths > 0) by (nonlinear_arith)
                requires
                    lengths == aim_length * across_length,
                    aim_length > 0,
                    across_length > 0,
            ;
            assert(terms > 0) by (nonlinear_arith)
                requires
                    terms == fov_den * (ratio.num as i128),
                    fov_den > 0,
                    ratio.num > 0,
            ;
            assert(divisor > 0) by (nonlinear_arith)
                requires
                    divisor == terms * lengths,
                    terms > 0,
                    lengths > 0,
            ;
        }
        // The vector along the lines.
        let opening = product(2 * fov_num, clip, Ghost(131072), Ghost(8192));
        let k1 = product(opening, unit, Ghost(1073741824), Ghost(65536));
        let d1 = product(fov_den, across_length, Ghost(65536), Ghost(35184372088832));
        proof {
            assert(d1 > 0) by (nonlinear_arith)
                requires
                    d1 == fov_den * across_length,
                    fov_den > 0,
                    across_length > 0,
            ;
        }
        let vec1 = round(
            &scale(&e1_not_norm, k1, Ghost(268435456), Ghost(70368744177664)),
            d1,
            Ghost(18889465931478580854784),
        );
        // The vector along the columns.
        let k2 = product(
            product(opening, ratio.den as i128, Ghost(1073741824), Ghost(65536)),
            unit_squared,
            Ghost(70368744177664),
            Ghost(4294967296),
        );
        let vec2 = round(
            &scale(&e2_not_norm, k2, Ghost(8796093022208), Ghost(302231454903657293676544)),
            divisor,
            Ghost(2658455991569831745807614120560689152),
        );
        // The corner.
        let half = product(fov_num, clip, Ghost(65536), Ghost(8192));
        let c_ahead = product(
            product(
                product(clip, unit, Ghost(8192), Ghost(65536)),
                terms,
                Ghost(536870912),
                Ghost(4294967296),
            ),
            across_length,
            Ghost(2305843009213693952),
            Ghost(35184372088832),
        );
        let c_below = product(
            product(half, ratio.den as i128, Ghost(536870912), Ghost(65536)),
            unit_squared,
            Ghost(35184372088832),
            Ghost(4294967296),
        );
        let c_aside = product(
            product(
                product(half, unit, Ghost(536870912), Ghost(65536)),
                ratio.num as i128,
                Ghost(35184372088832),
                Ghost(65536),
            ),
            aim_length,
            Ghost(2305843009213693952),
            Ghost(2147483648),
        );
        let ahead = scale(
            &cam_vector,
            c_ahead,
            Ghost(16384),
            Ghost(81129638414606681695789005144064),
        );
        let below = scale(
            &e2_not_norm,
            c_below,
            Ghost(8796093022208),
            Ghost(151115727451828646838272),
        );
        let aside = scale(
            &e1_not_norm,
            c_aside,
            Ghost(268435456),
            Ghost(4951760157141521099596496896),
        );
        let moves = difference(
            &difference(
                &ahead,
                &below,
                Ghost(1329227995784915872903807060280344576),
                Ghost(1329227995784915872903807060280344576),
            ),
            &aside,
            Ghost(2658455991569831745807614120560689152),
            Ghost(1329227995784915872903807060280344576),
        );
        let moved = round(&moves, divisor, Ghost(3987683987354747618711421180841033728));
        let position = widen(&self.world_position);
        let origin = Vector3 {
            x: position.x + moved.x,
            y: position.y + moved.y,
            z: position.z + moved.z,
        };
        match (fit(&origin), fit(&vec1), fit(&vec2)) {
            (Some(o), Some(a), Some(d)) => Some((o, a, d)),
            _ => None,
        }
    }

    /// The point of a canvas at the place of a sample, given in pixels of a
    /// picture of `sample_res_x` by `sample_res_y` pixels: the move along
    /// the lines and the move along the columns are each rounded to the
    /// nearest step.
    pub open spec fn canvas_point(
        base: (Vector3<i64>, Vector3<i64>, Vector3<i64>),
        sample: Sample,
        sample_res_x: u32,
        sample_res_y: u32,
    ) -> Vector3<int> {
        let o = base.0;
        let a = base.1;
        let d = base.2;
        let sx = sample.position.x;
        let sy = sample.position.y;
        Vector3 {
            x: o.x + quotient_nearest(a.x * sx.num, sx.den * sample_res_x) + quotient_nearest(
                d.x * sy.num,
                sy.den * sample_res_y,
            ),
            y: o.y + quotient_nearest(a.y * sx.num, sx.den * sample_res_x) + quotient_nearest(
                d.y * sy.num,
                sy.den * sample_res_y,
            ),
            z: o.z + quotient_nearest(a.z * sx.num, sx.den * sample_res_x) + quotient_nearest(
                d.z * sy.num,
                sy.den * sample_res_y,
            ),
        }
    }

    /// The ray from the camera through the point of the canvas at the place
    /// of a sample; nothing if the canvas does not fit in the lattice, or
    /// that point is so far that the direction of the ray does not.
    pub open spec fn ray_through(
        &self,
        sample: Sample,
        ratio: Ratio,
        sample_res_x: u32,
        sample_res_y: u32,
    ) -> Option<Ray> {
        match self.canvas(ratio) {
            Some(base) => {
                let slope = minus(
                    Camera::canvas_point(base, sample, sample_res_x, sample_res_y),
                    self.world_position@,
                );
                if bounded(slope, crate::exact::SLOPE_LIMIT as int) {
                    Some(
                        Ray {
                            origin: self.world_position,
                            slope: Vector3 { x: slope.x as i64, y: slope.y as i64, z: slope.z as i64 },
                            max_t: None,
                        },
                    )
                } else {
                    None
                }
            },
            None => None,
        }
    }

    /// Makes the ray whose direction is given by the place of a sample.
    pub fn create_ray_from_sample(
        &self,
        sample: &Sample,
        ratio: Ratio,
        sample_res_x: u32,
        sample_res_y: u32,
    ) -> (r: Option<Ray>)
        requires
            self.wf(),
            0 < ratio.num <= FOV_LIMIT,
            0 < ratio.den <= FOV_LIMIT,
            sample_res_x > 0,
            sample_res_y > 0,
            sample.position.x.wf(),
            sample.position.y.wf(),
        ensures
            r == self.ray_through(*sample, ratio, sample_res_x, sample_res_y),
            r matches Some(ray) ==> ray.wf(),
    {
        let (origin, e1, e2) = match self.get_canvas_base(ratio) {
            Some(base) => base,
            None => {
                return None;
            },
        };
        let origin = widen(&origin);
        let e1 = widen(&e1);
        let e2 = widen(&e2);
        let sample_coord = sample.position();
        proof {
            crate::algebra::lemma_product_bounded(
                sample_coord.x.den as int,
                sample_res_x as int,
                0x8000_0000_0000_0000,
                0x1_0000_0000,
            );
            crate::algebra::lemma_product_bounded(
                sample_coord.y.den as int,
                sample_res_y as int,
                0x8000_0000_0000_0000,
                0x1_0000_0000,
            );
            assert(sample_coord.x.den * sample_res_x > 0) by (nonlinear_arith)
                requires
                    sample_coord.x.den > 0,
                    sample_res_x > 0,
            ;
            assert(sample_coord.y.den * sample_res_y > 0) by (nonlinear_arith)
                requires
                    sample_coord.y.den > 0,
                    sample_res_y > 0,
            ;
        }
        let along1 = round(
            &crate::exact::scale(
                &e1,
                sample_coord.x.num as i128,
                Ghost(8192),
                Ghost(0x8000_0000_0000_0000),
            ),
            (sample_coord.x.den as i128) * (sample_res_x as i128),
            Ghost(75557863725914323419136),
        );
        let along2 = round(
            &crate::exact::scale(
                &e2,
                sample_coord.y.num as i128,
                Ghost(8192),
                Ghost(0x8000_0000_0000_0000),
            ),
            (sample_coord.y.den as i128) * (sample_res_y as i128),
            Ghost(75557863725914323419136),
        );
        let position = widen(&self.world_position);
        let slope = Vector3 {
            x: origin.x + along1.x + along2.x - position.x,
            y: origin.y + along1.y + along2.y - position.y,
            z: origin.z + along1.z + along2.z - position.z,
        };
        let limit = crate::exact::SLOPE_LIMIT as i128;
        if -limit <= slope.x && slope.x <= limit && -limit <= slope.y && slope.y <= limit && -limit
            <= slope.z && slope.z <= limit {
            Some(
                Ray::new(
                    self.world_position,
                    Vector3 { x: slope.x as i64, y: slope.y as i64, z: slope.z as i64 },
                ),
            )
        } else {
            None
        }
    }
}

/// The vector with 64-bit components, if it lies within the lattice.
fn fit(v: &Vector3<i128>) -> (r: Option<Vector3<i64>>)
    ensures
        r is Some <==> bounded(v@, LIMIT as int),
        r matches Some(p) ==> p@ == v@,
{
    let limit = LIMIT as i128;
    if -limit <= v.x && v.x <= limit && -limit <= v.y && v.y <= limit && -limit <= v.z && v.z
        <= limit {
        Some(Vector3 { x: v.x as i64, y: v.y as i64, z: v.z as i64 })
    } else {
        None
    }
}

impl World {
    /// Every object and every light lies within the limits of the lattice.
    pub open spec fn wf(&self) -> bool {
        &&& forall|i: int| 0 <= i < self.objects@.len() ==> (#[trigger] self.objects@[i]).wf()
        &&& forall|i: int|
            0 <= i < self.lights@.len() ==> (#[trigger] self.lights@[i])->point.in_lattice()
    }

    /// Adds a camera at `position`, aimed at `target`, with the third
    /// vector of the base of the world as its up direction.
    pub fn add_camera(&mut self, position: Vector3<i64>, target: Vector3<i64>)
        ensures
            final(self).cameras@ == old(self).cameras@.push(
                Camera {
                    world_position: position,
                    target_position: target,
                    up: old(self).base_vector[2],
                    fov: Ratio { num: DEFAULT_FOV_NUM, den: DEFAULT_FOV_DEN },
                    clip: DEFAULT_CLIP,
                },
            ),
            final(self).objects == old(self).objects,
            final(self).lights == old(self).lights,
            final(self).base_vector == old(self).base_vector,
    {
        let up = self.base_vector[2];
        self.cameras.push(Camera::new(position, target, up));
    }

    /// A world without anything in it.
    pub fn new_empty() -> (w: World)
        ensures
            w.cameras@.len() == 0,
            w.objects@.len() == 0,
            w.lights@.len() == 0,
            w.base_vector[0] == (Vector3 { x: 1i64, y: 0i64, z: 0i64 }),
            w.base_vector[1] == (Vector3 { x: 0i64, y: 1i64, z: 0i64 }),
            w.base_vector[2] == (Vector3 { x: 0i64, y: 0i64, z: 1i64 }),
            w.wf(),
    {
        let base_vector = [
            Vector3 { x: 1i64, y: 0i64, z: 0i64 },
            Vector3 { x: 0i64, y: 1i64, z: 0i64 },
            Vector3 { x: 0i64, y: 0i64, z: 1i64 },
        ];
        World { base_vector: base_vector, cameras: Vec::new(), objects: Vec::new(), lights: Vec::new() }
    }

    /// Adds an object to the world.
    pub fn add_object(&mut self, object: Object)
        requires
            old(self).wf(),
            object.wf(),
        ensures
            final(self).wf(),
            final(self).objects@ == old(self).objects@.push(object),
            final(self).cameras == old(self).cameras,
            final(self).lights == old(self).lights,
    {
        self.objects.push(object);
    }

    pub fn get_camera(&self, cam_indice: usize) -> (c: &Camera)
        requires
            cam_indice < self.cameras@.len(),
        ensures
            *c == self.cameras@[cam_indice as int],
    {
        &self.cameras[cam_indice]
    }

    pub fn objects(&self) -> (o: &Vec<Object>)
        ensures
            o@ == self.objects@,
    {
        &self.objects
    }

    /// Whether some object of the world blocks the ray.
    pub open spec fn occludes(&self, ray: Ray) -> bool {
        first_occluder(self.objects@, ray, 0).is_some()
    }

    /// Whether some object of the world blocks the ray: one point is hidden
    /// from another when the ray between them meets a triangle. The ray is
    /// cut where the first such object, in order, blocks it.
    pub fn is_occluded(&self, ray: &mut Ray) -> (b: bool)
        requires
            self.wf(),
            old(ray).wf(),
        ensures
            b == self.occludes(*old(ray)),
            final(ray).wf(),
            *final(ray) == (match first_occluder(self.objects@, *old(ray), 0) {
                Some(i) => self.objects@[i].shadowed(*old(ray)).unwrap(),
                None => *old(ray),
            }),
    {
        let n = self.objects.len();
        let mut i: usize = 0;
        while i < n
            invariant
                i <= n,
                n == self.objects@.len(),
                self.wf(),
                ray.wf(),
                *ray == *old(ray),
                first_occluder(self.objects@, *ray, 0) == first_occluder(self.objects@, *ray, i as int),
            decreases n - i,
        {
            assert(self.objects@[i as int].wf());
            if self.objects[i].fast_intersection(ray) {
                return true;
            }
            i = i + 1;
        }
        false
    }

    pub fn lights(&self) -> (l: &Vec<LightObject>)
        ensures
            l@ == self.lights@,
    {
        &self.lights
    }
}

/// A scene: a world, and the renderer that makes its picture.
pub struct Scene {
    pub world: World,
    pub renderer: crate::renderer::render::Renderer,
}

impl Scene {
    /// An empty scene, with a picture of 960 by 540 pixels.
    pub fn new_empty() -> (s: Scene)
        ensures
            s.world.objects@.len() == 0,
            s.world.cameras@.len() == 0,
            s.world.lights@.len() == 0,
            s.world.wf(),
            s.renderer.res_x == 960,
            s.renderer.res_y == 540,
            s.renderer.wf(),
    {
        Scene { world: World::new_empty(), renderer: crate::renderer::render::Renderer::new(960, 540) }
    }
}

} // verus!
