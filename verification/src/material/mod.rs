//! What a surface looks like: the channels of a material, and the colour
//! that a material gives to a fragment.
pub mod channel;
pub mod flat_material;

use crate::color::{RGBA32, RGBA8};
use crate::img::Image;
use crate::material::channel::register_wf;
use crate::ray::{Fragment, Ray};
use crate::renderer::TextureRegister;
use crate::scene::World;
use vstd::prelude::*;

verus! {

/// A material: what gives its colour to a point of a surface.
pub trait Material {
    /// The colour of the fragment, seen along the ray, in the world and
    /// with the textures given; nothing if the material cannot be
    /// evaluated there.
    spec fn shade(
        &self,
        frag: Fragment,
        ray: Ray,
        world: &World,
        texture_data: Option<Seq<Image<RGBA8>>>,
    ) -> Option<RGBA32>;

    fn get_color(
        &self,
        frag: &Fragment,
        ray: &Ray,
        world: &World,
        texture_data: Option<&TextureRegister>,
    ) -> (c: Option<RGBA32>)
        requires
            world.wf(),
            texture_data matches Some(r) ==> register_wf(r@),
        ensures
            c == self.shade(
                *frag,
                *ray,
                world,
                match texture_data {
                    Some(r) => Some(r@),
                    None => None,
                },
            ),
    ;
}

} // verus!
