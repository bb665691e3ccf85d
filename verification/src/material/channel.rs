//! A channel of a material: a plain colour, or a map that gives a colour to
//! each point of the surface.
use crate::color::{RGBA32, RGBA8};
use crate::exact::{integer_root, root, squared_norm, widen};
use crate::img::Image;
use crate::ray::Fragment;
use crate::renderer::TextureRegister;
use vstd::prelude::*;

verus! {

/// A map whose colours come from an image.
#[derive(Debug, Clone)]
pub struct TextureMap {
    /// Where the image was read from.
    pub map_path: String,
    /// The rank of the image in the register of textures.
    pub slot: usize,
    /// How many times the image is repeated along each axis.
    pub tiling_x: u32,
    pub tiling_y: u32,
}

/// A map whose colour shows the direction of the surface's normal.
#[derive(Debug, Clone)]
pub struct NormalMap {}

/// A channel of a material.
#[derive(Debug, Clone)]
pub enum Channel {
    Solid { color: RGBA8 },
    TextureMap { texture: TextureMap },
    NormalMap { normal: NormalMap },
}

/// Every image of the register is well formed.
pub open spec fn register_wf(register: Seq<Image<RGBA8>>) -> bool {
    forall|i: int| 0 <= i < register.len() ==> (#[trigger] register[i]).wf()
}

/// The column, or the line, of the pixel of an image of `size` columns, or
/// lines, at the texture coordinate `u / 8192`, for an image repeated
/// `tiling` times: `u * tiling * size`, wrapped around the image.
pub open spec fn texel(u: i64, tiling: u32, size: u32) -> int {
    let c = if u < 0 {
        0
    } else {
        u as int
    };
    let p = (c * tiling * size) / 8192;
    let q = if p > u32::MAX {
        u32::MAX as int
    } else {
        p
    };
    q % (size as int)
}

fn find_texel(u: i64, tiling: u32, size: u32) -> (t: u32)
    requires
        size > 0,
    ensures
        t == texel(u, tiling, size),
        t < size,
{
    let c: u128 = if u < 0 {
        0
    } else {
        u as u128
    };
    proof {
        crate::algebra::lemma_product_bounded(c as int, tiling as int, 0x8000_0000_0000_0000, 0x1_0000_0000);
        crate::algebra::lemma_product_bounded(
            (c * tiling) as int,
            size as int,
            0x8000_0000_0000_0000_0000_0000,
            0x1_0000_0000,
        );
        assert(c * tiling >= 0 && c * tiling * size >= 0) by (nonlinear_arith)
            requires
                c >= 0,
                tiling >= 0,
                size >= 0,
        ;
    }
    let p = (c * (tiling as u128) * (size as u128)) / 8192;
    let q: u32 = if p > u32::MAX as u128 {
        u32::MAX
    } else {
        p as u32
    };
    q % size
}

/// Something that gives a colour to a fragment.
pub trait Texture {
    /// The colour at the fragment, at the texture coordinates `u / 8192`
    /// and `v / 8192`; nothing if the texture cannot be evaluated with what
    /// it is given.
    spec fn color_at(
        &self,
        frag: Fragment,
        u: Option<i64>,
        v: Option<i64>,
        texture_registry: Option<Seq<Image<RGBA8>>>,
    ) -> Option<RGBA32>;

    fn get_color(
        &self,
        frag: &Fragment,
        u: Option<i64>,
        v: Option<i64>,
        texture_registry: Option<&TextureRegister>,
    ) -> (c: Option<RGBA32>)
        requires
            texture_registry matches Some(r) ==> register_wf(r@),
        ensures
            c == self.color_at(
                *frag,
                u,
                v,
                match texture_registry {
                    Some(r) => Some(r@),
                    None => None,
                },
            ),
    ;
}

impl TextureMap {
    pub fn get_map_path(&self) -> (p: String)
        ensures
            p@ == self.map_path@,
    {
        self.map_path.clone()
    }

    /// A map without an image, tiled once.
    pub fn new_empty() -> (t: TextureMap)
        ensures
            t.map_path@ == "/empty/map/path"@,
            t.slot == 0,
            t.tiling_x == 1,
            t.tiling_y == 1,
    {
        TextureMap { tiling_x: 1, tiling_y: 1, slot: 0, map_path: "/empty/map/path".to_string() }
    }

    pub fn new(texture_path: String, tiling_x: u32, tiling_y: u32) -> (t: TextureMap)
        ensures
            t.map_path == texture_path,
            t.slot == 0,
            t.tiling_x == tiling_x,
            t.tiling_y == tiling_y,
    {
        TextureMap { map_path: texture_path, slot: 0, tiling_x: tiling_x, tiling_y: tiling_y }
    }
}

impl Texture for TextureMap {
    /// The pixel of the image at the texture coordinates, on the 32-bit
    /// scale; nothing without coordinates, without a register, or without
    /// an image with a pixel at the rank of the map.
    open spec fn color_at(
        &self,
        frag: Fragment,
        u: Option<i64>,
        v: Option<i64>,
        texture_registry: Option<Seq<Image<RGBA8>>>,
    ) -> Option<RGBA32> {
        match (u, v, texture_registry) {
            (Some(u), Some(v), Some(register)) => {
                if self.slot < register.len() && register[self.slot as int].spec_width() > 0
                    && register[self.slot as int].spec_height() > 0 {
                    let texture = register[self.slot as int];
                    Some(
                        texture.at(
                            texel(u, self.tiling_x, texture.spec_width() as u32),
                            texel(v, self.tiling_y, texture.spec_height() as u32),
                        ).spec_to_rgba32(),
                    )
                } else {
                    None
                }
            },
            _ => None,
        }
    }

    fn get_color(
        &self,
        frag: &Fragment,
        u: Option<i64>,
        v: Option<i64>,
        texture_registry: Option<&TextureRegister>,
    ) -> (c: Option<RGBA32>) {
        match (u, v, texture_registry) {
            (Some(u), Some(v), Some(register)) => {
                if self.slot >= register.len() {
                    return None;
                }
                let texture = &register[self.slot];
                assert(texture.wf());
                if texture.width() == 0 || texture.height() == 0 {
                    return None;
                }
                let x = find_texel(u, self.tiling_x, texture.width());
                let y = find_texel(v, self.tiling_y, texture.height());
                Some(texture.get_pixel_at(x, y).to_rgba32())
            },
            _ => None,
        }
    }
}

/// One channel of the colour of a normal: `(1 + n / len) / 2` on the 32-bit
/// scale, for a component `n` of a normal of length `len`.
pub open spec fn normal_level(n: int, len: int) -> u32 {
    let q = ((len + n) * 0xffff_ffff) / (2 * len);
    if q < 0 {
        0
    } else if q > u32::MAX {
        u32::MAX
    } else {
        q as u32
    }
}

fn find_normal_level(n: i64, len: u64) -> (l: u32)
    requires
        -8192 <= n <= 8192,
        0 < len <= 0xffff_ffff,
    ensures
        l == normal_level(n as int, len as int),
{
    let top = (len as i128 + n as i128) * 0xffff_ffff;
    if top < 0 {
        proof {
            assert(((len + n) * 0xffff_ffff) / (2 * len) < 0) by (nonlinear_arith)
                requires
                    (len + n) * 0xffff_ffff < 0,
                    len > 0,
            ;
        }
        return 0;
    }
    let q = top / (2 * len as i128);
    proof {
        assert(((len + n) * 0xffff_ffff) / (2 * len) >= 0) by (nonlinear_arith)
            requires
                (len + n) * 0xffff_ffff >= 0,
                len > 0,
        ;
    }
    if q > u32::MAX as i128 {
        u32::MAX
    } else {
        q as u32
    }
}

impl Texture for NormalMap {
    /// The colour that shows the direction of the normal of the fragment:
    /// each channel is half of one plus the component of the unit normal.
    /// Nothing for a fragment without a normal.
    open spec fn color_at(
        &self,
        frag: Fragment,
        u: Option<i64>,
        v: Option<i64>,
        texture_registry: Option<Seq<Image<RGBA8>>>,
    ) -> Option<RGBA32> {
        match frag.spec_lattice_normal() {
            Some(n) => {
                let len = root(crate::algebra::norm_squared(n@) as u64) as int;
                if len > 0 {
                    Some(
                        RGBA32 {
                            r: normal_level(n.x as int, len),
                            g: normal_level(n.y as int, len),
                            b: normal_level(n.z as int, len),
                            a: u32::MAX,
                        },
                    )
                } else {
                    None
                }
            },
            None => None,
        }
    }

    fn get_color(
        &self,
        frag: &Fragment,
        _u: Option<i64>,
        _v: Option<i64>,
        _texture_registry: Option<&TextureRegister>,
    ) -> (c: Option<RGBA32>) {
        match frag.lattice_normal() {
            Some(n) => {
                let len = integer_root(squared_norm(&widen(&n), Ghost(8192)));
                if len > 0 {
                    Some(
                        RGBA32 {
                            r: find_normal_level(n.x, len),
                            g: find_normal_level(n.y, len),
                            b: find_normal_level(n.z, len),
                            a: u32::MAX,
                        },
                    )
                } else {
                    None
                }
            },
            None => None,
        }
    }
}

impl Channel {
    /// The colour of the channel at a fragment. A texture map wants texture
    /// coordinates and a register; a normal map wants neither; a plain
    /// colour takes whatever it is given. Nothing in any other case.
    pub open spec fn color_at(
        &self,
        frag: Fragment,
        u: Option<i64>,
        v: Option<i64>,
        texture_registry: Option<Seq<Image<RGBA8>>>,
    ) -> Option<RGBA32> {
        match (u, v, texture_registry, *self) {
            (Some(_), Some(_), Some(_), Channel::TextureMap { texture }) => texture.color_at(
                frag,
                u,
                v,
                texture_registry,
            ),
            (None, None, None, Channel::NormalMap { normal }) => normal.color_at(
                frag,
                None,
                None,
                None,
            ),
            (_, _, _, Channel::Solid { color }) => Some(color.spec_to_rgba32()),
            _ => None,
        }
    }

    pub fn get_color(
        &self,
        frag: &Fragment,
        u: Option<i64>,
        v: Option<i64>,
        texture_registry: Option<&TextureRegister>,
    ) -> (c: Option<RGBA32>)
        requires
            texture_registry matches Some(r) ==> register_wf(r@),
        ensures
            c == self.color_at(
                *frag,
                u,
                v,
                match texture_registry {
                    Some(r) => Some(r@),
                    None => None,
                },
            ),
    {
        match (u, v, texture_registry, self) {
            (Some(u), Some(v), Some(texture_registry), Channel::TextureMap { texture }) => {
                texture.get_color(frag, Some(u), Some(v), Some(texture_registry))
            },
            (None, None, None, Channel::NormalMap { normal }) => {
                normal.get_color(frag, None, None, None)
            },
            (_, _, _, Channel::Solid { color }) => Some(color.to_rgba32()),
            _ => None,
        }
    }

    pub fn is_solid(&self) -> (b: bool)
        ensures
            b == (*self is Solid),
    {
        match *self {
            Channel::Solid { .. } => true,
            _ => false,
        }
    }

    pub fn is_texture(&self) -> (b: bool)
        ensures
            b == (*self is TextureMap),
    {
        match *self {
            Channel::TextureMap { .. } => true,
            _ => false,
        }
    }

    /// The path of the image of a texture channel.
    pub fn get_texture_path(&self) -> (p: String)
        requires
            *self is TextureMap,
        ensures
            p@ == self->texture.map_path@,
    {
        match self {
            Channel::TextureMap { texture } => texture.get_map_path(),
            _ => {
                assert(false);
                String::new()
            },
        }
    }
}

} // verus!
