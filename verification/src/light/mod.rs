//! The lights of a world.
pub mod point_light;

use crate::light::point_light::PointLight;
use crate::math::Vector3;
use crate::ray::Ray;
use crate::scene::World;
use vstd::prelude::*;

verus! {

/// One on the scale of the intensity of a light and of the light that a
/// point receives.
pub const INTENSITY_UNIT: u32 = 65536;

/// A light.
pub trait Light {
    /// The light lies within the limits of the lattice.
    spec fn light_wf(&self) -> bool;

    /// The rays that the light sends toward `point`.
    spec fn rays_toward(&self, point: Vector3<i64>) -> Seq<Ray>;

    /// The intensity of the light, on the scale of `INTENSITY_UNIT`.
    spec fn spec_intensity(&self) -> u32;

    /// Whether nothing of the world blocks the light on its way to `point`.
    fn visible(&self, point: &Vector3<i64>, world: &World) -> (b: bool)
        requires
            self.light_wf(),
            world.wf(),
            crate::algebra::bounded(point@, crate::exact::LIMIT as int),
        ensures
            self.rays_toward(*point).len() == 1,
            b == !world.occludes(self.rays_toward(*point)[0]),
    ;

    fn emit_rays(&self, point: &Vector3<i64>, world: &World) -> (rays: Vec<Ray>)
        requires
            self.light_wf(),
            crate::algebra::bounded(point@, crate::exact::LIMIT as int),
        ensures
            rays@ == self.rays_toward(*point),
            forall|i: int| 0 <= i < rays@.len() ==> (#[trigger] rays@[i]).wf(),
    ;

    fn intensity(&self) -> (i: u32)
        ensures
            i == self.spec_intensity(),
    ;
}

/// The kinds of lights.
#[derive(Debug)]
pub enum LightObject {
    Point { point: PointLight },
}

impl LightObject {
    /// The light itself, whatever its kind.
    pub fn as_trait(&self) -> (l: &PointLight)
        ensures
            *l == self->point,
    {
        match self {
            LightObject::Point { point } => point,
        }
    }
}

} // verus!
