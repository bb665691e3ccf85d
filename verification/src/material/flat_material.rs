//! A material made of three channels, lit by the lights of the world.
use crate::color::{RGBA32, RGBA8};
use crate::exact::{integer_root, root, squared_norm, widen};
use crate::img::Image;
use crate::light::{Light, LightObject};
use crate::material::channel::Channel;
use crate::material::Material;
use crate::math::Vector3;
use crate::ray::{Fragment, Ray};
use crate::renderer::TextureRegister;
use crate::scene::World;
use vstd::prelude::*;

verus! {

/// A material with a diffuse, a specular and an ambient channel.
#[derive(Debug, Clone)]
pub struct FlatMaterial {
    pub diffuse: Channel,
    pub specular: Channel,
    pub ambient: Channel,
}

/// The paths of the texture channels among the first `n` of `channels`, in
/// order.
pub open spec fn texture_paths(channels: Seq<Channel>, n: int) -> Seq<Seq<char>>
    decreases n,
{
    if n <= 0 {
        Seq::empty()
    } else if channels[n - 1] is TextureMap {
        texture_paths(channels, n - 1).push(channels[n - 1]->texture.map_path@)
    } else {
        texture_paths(channels, n - 1)
    }
}

/// The absolute value of the cosine of the angle between a ray of light of
/// direction `d` and a normal `n`, on the scale of the intensities: the dot
/// product over the product of the lengths, each to the unit, and at most
/// one. Zero where either vector has no length.
pub open spec fn facing(d: Vector3<int>, n: Vector3<int>) -> int {
    let ld = root(crate::algebra::norm_squared(d) as u64) as int;
    let ln = root(crate::algebra::norm_squared(n) as u64) as int;
    let p = crate::algebra::dot(d, n);
    let a = if p < 0 {
        -p
    } else {
        p
    };
    if ld == 0 || ln == 0 {
        0
    } else if (a * 65536) / (ld * ln) > 65536 {
        65536
    } else {
        (a * 65536) / (ld * ln)
    }
}

/// The light that the first `k` of the rays of a light of intensity
/// `intensity` bring to a surface of normal `normal`: each ray that nothing
/// blocks brings the intensity times how much the surface faces it.
pub open spec fn brought(rays: Seq<Ray>, k: int, world: &World, normal: Vector3<i64>, intensity: u32) -> int
    decreases k,
{
    if k <= 0 {
        0
    } else {
        brought(rays, k - 1, world, normal, intensity) + (if world.occludes(rays[k - 1]) {
            0
        } else {
            (facing(rays[k - 1].slope@, normal@) * intensity) / 65536
        })
    }
}

/// The light that the first `k` lights bring to the point `point` of a
/// surface of normal `normal`.
pub open spec fn received(
    lights: Seq<LightObject>,
    k: int,
    world: &World,
    point: Vector3<i64>,
    normal: Vector3<i64>,
) -> int
    decreases k,
{
    if k <= 0 {
        0
    } else {
        let light = lights[k - 1]->point;
        received(lights, k - 1, world, point, normal) + brought(
            light.rays_toward(point),
            light.rays_toward(point).len() as int,
            world,
            normal,
            light.spec_intensity(),
        )
    }
}

/// The light that a point receives: one, in a world without lights.
pub open spec fn intensity_at(world: &World, point: Vector3<i64>, normal: Vector3<i64>) -> int {
    if world.lights@.len() == 0 {
        65536
    } else {
        received(world.lights@, world.lights@.len() as int, world, point, normal)
    }
}

/// A channel under the light `intensity`, on the scale of the intensities:
/// their product, at most the greatest value of a channel.
pub open spec fn lit_level(c: u32, intensity: int) -> u32 {
    let i = if intensity > 0x1_0000_0000_0000 {
        0x1_0000_0000_0000
    } else {
        intensity
    };
    if (c * i) / 65536 > u32::MAX {
        u32::MAX
    } else {
        ((c * i) / 65536) as u32
    }
}

/// The light brought by rays is never negative, and grows by at most the
/// intensity of the light with each ray.
pub proof fn lemma_brought_bounded(
    rays: Seq<Ray>,
    k: int,
    world: &World,
    normal: Vector3<i64>,
    intensity: u32,
)
    requires
        0 <= k,
    ensures
        0 <= brought(rays, k, world, normal, intensity) <= k * 0x1_0000_0000,
    decreases k,
{
    if k > 0 {
        lemma_brought_bounded(rays, k - 1, world, normal, intensity);
        let f = facing(rays[k - 1].slope@, normal@);
        lemma_facing_bounded(rays[k - 1].slope@, normal@);
        assert(0 <= (f * intensity) / 65536 <= 0x1_0000_0000) by (nonlinear_arith)
            requires
                0 <= f <= 65536,
                0 <= intensity <= 0xffff_ffff,
        ;
        assert((k - 1) * 0x1_0000_0000 + 0x1_0000_0000 == k * 0x1_0000_0000) by (nonlinear_arith);
    }
}

/// How much a surface faces a ray lies between zero and one.
pub proof fn lemma_facing_bounded(d: Vector3<int>, n: Vector3<int>)
    ensures
        0 <= facing(d, n) <= 65536,
{
    let ld = root(crate::algebra::norm_squared(d) as u64) as int;
    let ln = root(crate::algebra::norm_squared(n) as u64) as int;
    let p = crate::algebra::dot(d, n);
    let a = if p < 0 {
        -p
    } else {
        p
    };
    if ld != 0 && ln != 0 {
        assert(ld * ln > 0) by (nonlinear_arith)
            requires
                ld > 0,
                ln > 0,
        ;
        assert((a * 65536) / (ld * ln) >= 0) by (nonlinear_arith)
            requires
                a >= 0,
                ld * ln > 0,
        ;
    }
}

/// How much a surface of normal `n` faces a ray of direction `d`.
fn find_facing(d: &Vector3<i64>, n: &Vector3<i64>) -> (f: u32)
    requires
        crate::algebra::bounded(d@, 16384),
        crate::algebra::bounded(n@, 8192),
    ensures
        f == facing(d@, n@),
        f <= 65536,
{
    let dw = widen(d);
    let nw = widen(n);
    let ld = integer_root(squared_norm(&dw, Ghost(16384)));
    let ln = integer_root(squared_norm(&nw, Ghost(8192)));
    let p = crate::exact::dot_product(&dw, &nw, Ghost(16384), Ghost(8192));
    let a = if p < 0 {
        -p
    } else {
        p
    };
    if ld == 0 || ln == 0 {
        return 0;
    }
    proof {
        crate::algebra::lemma_product_bounded(ld as int, ln as int, 0xffff_ffff, 0xffff_ffff);
        assert(ld * ln > 0) by (nonlinear_arith)
            requires
                ld > 0,
                ln > 0,
        ;
        assert((a * 65536) / (ld * ln) >= 0) by (nonlinear_arith)
            requires
                a >= 0,
                ld * ln > 0,
        ;
    }
    let q = (a * 65536) / ((ld as i128) * (ln as i128));
    if q > 65536 {
        65536
    } else {
        q as u32
    }
}

/// A channel under a light.
fn light_level(c: u32, intensity: u128) -> (l: u32)
    ensures
        l == lit_level(c, intensity as int),
{
    let i: u128 = if intensity > 0x1_0000_0000_0000 {
        0x1_0000_0000_0000
    } else {
        intensity
    };
    proof {
        crate::algebra::lemma_product_bounded(c as int, i as int, 0x1_0000_0000, 0x1_0000_0000_0000);
        assert(c * i >= 0) by (nonlinear_arith)
            requires
                c >= 0,
                i >= 0,
        ;
    }
    let q = ((c as u128) * i) / 65536;
    if q > u32::MAX as u128 {
        u32::MAX
    } else {
        q as u32
    }
}

impl FlatMaterial {
    /// A light grey material without textures.
    pub fn new_empty() -> (m: FlatMaterial)
        ensures
            m.diffuse == (Channel::Solid { color: RGBA8::spec_new(200, 200, 200, 255) }),
            m.specular == (Channel::Solid { color: RGBA8::spec_new(255, 255, 255, 255) }),
            m.ambient == (Channel::Solid { color: RGBA8::spec_new(0, 0, 0, 255) }),
    {
        FlatMaterial {
            diffuse: Channel::Solid { color: RGBA8::new(&200u8, &200u8, &200u8, &255u8) },
            specular: Channel::Solid { color: RGBA8::new(&255u8, &255u8, &255u8, &255u8) },
            ambient: Channel::Solid { color: RGBA8::new(&0u8, &0u8, &0u8, &255u8) },
        }
    }

    /// The three channels: diffuse, specular, ambient.
    pub open spec fn channels(&self) -> Seq<Channel> {
        seq![self.diffuse, self.specular, self.ambient]
    }

    /// The paths of the images that the material needs, in the order of its
    /// channels.
    pub fn get_texture_paths(&self) -> (paths: Vec<String>)
        ensures
            paths@.len() == texture_paths(self.channels(), 3).len(),
            forall|i: int|
                0 <= i < paths@.len() ==> (#[trigger] paths@[i])@ == texture_paths(
                    self.channels(),
                    3,
                )[i],
    {
        let mut result: Vec<String> = Vec::new();
        if self.diffuse.is_texture() {
            result.push(self.diffuse.get_texture_path());
        }
        assert(result@.len() == texture_paths(self.channels(), 1).len()) by {
            reveal_with_fuel(texture_paths, 2);
        }
        assert(forall|i: int|
            0 <= i < result@.len() ==> (#[trigger] result@[i])@ == texture_paths(
                self.channels(),
                1,
            )[i]) by {
            reveal_with_fuel(texture_paths, 2);
        }
        if self.specular.is_texture() {
            result.push(self.specular.get_texture_path());
        }
        assert(result@.len() == texture_paths(self.channels(), 2).len());
        assert(forall|i: int|
            0 <= i < result@.len() ==> (#[trigger] result@[i])@ == texture_paths(
                self.channels(),
                2,
            )[i]);
        if self.ambient.is_texture() {
            result.push(self.ambient.get_texture_path());
        }
        result
    }

    /// The light that the point receives from the lights of the world.
    fn find_intensity(world: &World, point: &Vector3<i64>, normal: &Vector3<i64>) -> (total: u128)
        requires
            world.wf(),
            crate::algebra::bounded(point@, 8192),
            crate::algebra::bounded(normal@, 8192),
        ensures
            total == intensity_at(world, *point, *normal),
    {
        let lights = world.lights();
        let light_count = lights.len();
        if light_count == 0 {
            return 65536;
        }
        let mut intensity: u128 = 0;
        let mut i: usize = 0;
        while i < light_count
            invariant
                i <= light_count,
                light_count == lights@.len(),
                lights@ == world.lights@,
                world.wf(),
                crate::algebra::bounded(point@, 8192),
                crate::algebra::bounded(normal@, 8192),
                intensity == received(lights@, i as int, world, *point, *normal),
                intensity <= i * 0x1_0000_0000,
            decreases light_count - i,
        {
            let light = lights[i].as_trait();
            let light_rays = light.emit_rays(point, world);
            let power = light.intensity();
            let mut j: usize = 0;
            let mut sum: u128 = 0;
            assert(light_rays@.len() == 1);
            while j < light_rays.len()
                invariant
                    j <= light_rays@.len(),
                    light_rays@.len() == 1,
                    world.wf(),
                    crate::algebra::bounded(normal@, 8192),
                    forall|k: int| 0 <= k < light_rays@.len() ==> (#[trigger] light_rays@[k]).wf(),
                    sum == brought(light_rays@, j as int, world, *normal, power),
                decreases light_rays@.len() - j,
            {
                let mut light_ray = light_rays[j];
                proof {
                    lemma_brought_bounded(light_rays@, j as int, world, *normal, power);
                    lemma_brought_bounded(light_rays@, j + 1, world, *normal, power);
                }
                if !world.is_occluded(&mut light_ray) {
                    let slope = light_rays[j].slope();
                    let factor = find_facing(&slope, normal);
                    proof {
                        crate::algebra::lemma_product_bounded(
                            factor as int,
                            power as int,
                            65536,
                            0x1_0000_0000,
                        );
                        assert(factor * power >= 0) by (nonlinear_arith)
                            requires
                                factor >= 0,
                                power >= 0,
                        ;
                    }
                    sum = sum + ((factor as u128) * (power as u128)) / 65536;
                }
                j = j + 1;
            }
            proof {
                lemma_brought_bounded(light_rays@, 1, world, *normal, power);
                assert(i * 0x1_0000_0000 <= usize::MAX * 0x1_0000_0000) by (nonlinear_arith)
                    requires
                        i <= usize::MAX,
                ;
                assert((i + 1) * 0x1_0000_0000 == i * 0x1_0000_0000 + 0x1_0000_0000) by (nonlinear_arith);
            }
            intensity = intensity + sum;
            i = i + 1;
        }
        intensity
    }
}

impl Material for FlatMaterial {
    /// The colour of the diffuse channel at the fragment, times the light
    /// that the fragment receives. The channel is given the texture
    /// coordinates of the fragment where it has some and there is a
    /// register of textures.
    open spec fn shade(
        &self,
        frag: Fragment,
        ray: Ray,
        world: &World,
        texture_data: Option<Seq<Image<RGBA8>>>,
    ) -> Option<RGBA32> {
        let with_texture = frag.spec_tex_coordinates() is Some && texture_data is Some;
        let u = if with_texture {
            Some(frag.spec_tex_coordinates().unwrap().x)
        } else {
            None
        };
        let v = if with_texture {
            Some(frag.spec_tex_coordinates().unwrap().y)
        } else {
            None
        };
        let register = if with_texture {
            texture_data
        } else {
            None
        };
        match (
            frag.spec_lattice_point(),
            frag.spec_lattice_normal(),
            self.diffuse.color_at(frag, u, v, register),
        ) {
            (Some(point), Some(normal), Some(c)) => {
                let intensity = intensity_at(world, point, normal);
                Some(
                    RGBA32 {
                        r: lit_level(c.r, intensity),
                        g: lit_level(c.g, intensity),
                        b: lit_level(c.b, intensity),
                        a: c.a,
                    },
                )
            },
            _ => None,
        }
    }

    fn get_color(
        &self,
        frag: &Fragment,
        _ray: &Ray,
        world: &World,
        texture_data: Option<&TextureRegister>,
    ) -> (c: Option<RGBA32>) {
        let (u, v, tex_reg) = match (frag.tex_coordinates(), texture_data) {
            (Some(tex_coords), Some(texture_register)) => {
                (Some(tex_coords.x), Some(tex_coords.y), Some(texture_register))
            },
            _ => (None, None, None),
        };
        let point = match frag.lattice_point() {
            Some(p) => p,
            None => {
                return None;
            },
        };
        let normal = match frag.lattice_normal() {
            Some(n) => n,
            None => {
                return None;
            },
        };
        // The colour of the material.
        let color = match self.diffuse.get_color(frag, u, v, tex_reg) {
            Some(c) => c,
            None => {
                return None;
            },
        };
        // The light that reaches the point.
        let intensity = FlatMaterial::find_intensity(world, &point, &normal);
        Some(
            RGBA32 {
                r: light_level(color.r, intensity),
                g: light_level(color.g, intensity),
                b: light_level(color.b, intensity),
                a: color.a,
            },
        )
    }
}

} // verus!
