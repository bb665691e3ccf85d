//! A light that shines from one point in all directions.
use crate::algebra::bounded;
use crate::color::RGBA32;
use crate::exact::{Ratio, LIMIT};
use crate::light::Light;
use crate::math::Vector3;
use crate::ray::Ray;
use crate::scene::World;
use vstd::prelude::*;

verus! {

/// A point light.
#[derive(Debug)]
pub struct PointLight {
    pub position: Vector3<i64>,
    pub color: RGBA32,
    pub intensity: u32,
}

impl PointLight {
    /// The light lies within the limits of the lattice.
    pub open spec fn in_lattice(&self) -> bool {
        bounded(self.position@, LIMIT as int)
    }

    /// The ray from the light to `point`, cut just short of the point.
    pub open spec fn ray_toward(&self, point: Vector3<i64>) -> Ray {
        Ray {
            origin: self.position,
            slope: Vector3 {
                x: (point.x - self.position.x) as i64,
                y: (point.y - self.position.y) as i64,
                z: (point.z - self.position.z) as i64,
            },
            max_t: Some(Ratio { num: 999, den: 1000 }),
        }
    }

    fn make_ray(&self, point: &Vector3<i64>) -> (ray: Ray)
        requires
            self.light_wf(),
            bounded(point@, LIMIT as int),
        ensures
            ray == self.ray_toward(*point),
            ray.wf(),
    {
        let slope = Vector3 {
            x: point.x - self.position.x,
            y: point.y - self.position.y,
            z: point.z - self.position.z,
        };
        let mut ray = Ray::new(self.position, slope);
        ray.max_t = Some(Ratio { num: 999, den: 1000 });
        ray
    }
}

impl Light for PointLight {
    open spec fn light_wf(&self) -> bool {
        self.in_lattice()
    }

    open spec fn rays_toward(&self, point: Vector3<i64>) -> Seq<Ray> {
        seq![self.ray_toward(point)]
    }

    open spec fn spec_intensity(&self) -> u32 {
        self.intensity
    }

    fn visible(&self, point: &Vector3<i64>, world: &World) -> (b: bool) {
        let mut ray = self.make_ray(point);
        !world.is_occluded(&mut ray)
    }

    fn emit_rays(&self, point: &Vector3<i64>, _world: &World) -> (rays: Vec<Ray>) {
        let mut result: Vec<Ray> = Vec::new();
        let ray = self.make_ray(point);
        result.push(ray);
        result
    }

    fn intensity(&self) -> (i: u32) {
        self.intensity
    }
}

} // verus!
