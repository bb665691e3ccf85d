//! The renderer: it divides the image into blocks, and for each block
//! places the samples, casts a ray for each sample, finds what the ray
//! hits and its colour, and lets the filter make the colour of each pixel.
use crate::color::{RGBA32, RGBA8};
use crate::exact::Ratio;
use crate::filter::{Filter, FilterFactory, SAMPLES_LIMIT};
use crate::geometry::obj3d::Object;
use crate::img::Image;
use crate::material::channel::register_wf;
use crate::ray::{Fragment, Intersection, Ray, Surface};
use crate::renderer::block::Block;
use crate::renderer::Pixel;
use crate::sampler::{Grid, SamplableArea, Sample, Sampler, SamplerFactory, AREA_LIMIT};
use crate::scene::{Camera, World};
use vstd::arithmetic::div_mod::lemma_fundamental_div_mod_converse;
use vstd::prelude::*;

verus! {

/// The renderer, with the size of the image, the kinds of sampler and of
/// filter, and the size of the blocks.
pub struct Renderer {
    /// The number of columns of the image.
    pub res_x: usize,
    /// The number of lines of the image.
    pub res_y: usize,
    pub sampler_factory: SamplerFactory,
    pub filter_factory: FilterFactory,
    pub background_color: RGBA8,
    pub textures: Vec<Image<RGBA8>>,
    pub threads: usize,
    pub bucket_size: usize,
}

/// The place and the size of a block of the image.
pub struct Tile {
    pub size_x: int,
    pub size_y: int,
    pub pos_x: int,
    pub pos_y: int,
}

impl Tile {
    /// The pixel at column `x` and line `y` of the image lies in the tile.
    pub open spec fn covers(&self, x: int, y: int) -> bool {
        self.pos_x <= x < self.pos_x + self.size_x && self.pos_y <= y < self.pos_y + self.size_y
    }
}

/// The tiles of an image of `res_x` by `res_y` pixels, for blocks of side
/// `side`: first the narrower blocks of the right edge, from top to bottom,
/// then the lower blocks of the bottom edge, from left to right, then the
/// block of the corner, then the square blocks, column after column.
pub open spec fn tiles(res_x: int, res_y: int, side: int) -> Seq<Tile> {
    let rest_x = res_x % side;
    let rest_y = res_y % side;
    let full_x = res_x - rest_x;
    let full_y = res_y - rest_y;
    let count_x = full_x / side;
    let count_y = full_y / side;
    let right = if rest_x != 0 {
        Seq::new(
            count_y as nat,
            |j: int| Tile { size_x: rest_x, size_y: side, pos_x: full_x, pos_y: j * side },
        )
    } else {
        Seq::empty()
    };
    let bottom = if rest_y != 0 {
        Seq::new(
            count_x as nat,
            |i: int| Tile { size_x: side, size_y: rest_y, pos_x: i * side, pos_y: full_y },
        )
    } else {
        Seq::empty()
    };
    let corner = if rest_x != 0 && rest_y != 0 {
        seq![Tile { size_x: rest_x, size_y: rest_y, pos_x: full_x, pos_y: full_y }]
    } else {
        Seq::empty()
    };
    let square = Seq::new(
        (count_x * count_y) as nat,
        |k: int|
            Tile {
                size_x: side,
                size_y: side,
                pos_x: (k / count_y) * side,
                pos_y: (k % count_y) * side,
            },
    );
    right + bottom + corner + square
}

/// The numbers of whole blocks along each axis, and what is left over.
pub proof fn lemma_counts(res: int, side: int)
    requires
        0 <= res,
        0 < side,
    ensures
        0 <= res % side < side,
        0 <= (res - res % side) / side <= res,
        ((res - res % side) / side) * side == res - res % side,
        (res - res % side) / side == res / side,
{
    let q = res / side;
    let r = res % side;
    assert(res == q * side + r && 0 <= r < side && 0 <= q <= res) by (nonlinear_arith)
        requires
            0 <= res,
            0 < side,
            q == res / side,
            r == res % side,
    ;
    lemma_fundamental_div_mod_converse(res - r, side, q, 0);
}

/// Every tile has at least one pixel and lies within the image.
pub proof fn lemma_tiles_inside(res_x: int, res_y: int, side: int, k: int)
    requires
        0 <= res_x,
        0 <= res_y,
        0 < side,
        0 <= k < tiles(res_x, res_y, side).len(),
    ensures
        ({
            let t = tiles(res_x, res_y, side)[k];
            &&& 0 < t.size_x <= side
            &&& 0 < t.size_y <= side
            &&& 0 <= t.pos_x
            &&& 0 <= t.pos_y
            &&& t.pos_x + t.size_x <= res_x
            &&& t.pos_y + t.size_y <= res_y
        }),
{
    lemma_counts(res_x, side);
    lemma_counts(res_y, side);
    let rest_x = res_x % side;
    let rest_y = res_y % side;
    let full_x = res_x - rest_x;
    let full_y = res_y - rest_y;
    let count_x = full_x / side;
    let count_y = full_y / side;
    let n_right = if rest_x != 0 {
        count_y
    } else {
        0
    };
    let n_bottom = if rest_y != 0 {
        count_x
    } else {
        0
    };
    let n_corner: int = if rest_x != 0 && rest_y != 0 {
        1
    } else {
        0
    };
    let t = tiles(res_x, res_y, side)[k];
    if k < n_right {
        assert(t.pos_y == k * side);
        assert(0 <= k * side && k * side + side <= count_y * side) by (nonlinear_arith)
            requires
                0 <= k < count_y,
                side > 0,
        ;
    } else if k < n_right + n_bottom {
        let i = k - n_right;
        assert(t.pos_x == i * side);
        assert(0 <= i * side && i * side + side <= count_x * side) by (nonlinear_arith)
            requires
                0 <= i < count_x,
                side > 0,
        ;
    } else if k < n_right + n_bottom + n_corner {
    } else {
        let m = k - n_right - n_bottom - n_corner;
        assert(0 <= m < count_x * count_y);
        let i = m / count_y;
        let j = m % count_y;
        assert(count_y > 0) by (nonlinear_arith)
            requires
                0 <= m < count_x * count_y,
                count_x >= 0,
                count_y >= 0,
        ;
        assert(0 <= i < count_x && 0 <= j < count_y) by (nonlinear_arith)
            requires
                0 <= m < count_x * count_y,
                count_y > 0,
                i == m / count_y,
                j == m % count_y,
        ;
        assert(0 <= i * side && i * side + side <= count_x * side) by (nonlinear_arith)
            requires
                0 <= i < count_x,
                side > 0,
        ;
        assert(0 <= j * side && j * side + side <= count_y * side) by (nonlinear_arith)
            requires
                0 <= j < count_y,
                side > 0,
        ;
    }
}

impl Renderer {
    /// A renderer for an image of `res_x` by `res_y` pixels, with four
    /// samples of the Halton sequence per pixel, the box filter, blocks of
    /// ten pixels and one thread.
    pub fn new(res_x: usize, res_y: usize) -> (r: Renderer)
        ensures
            r.res_x == res_x,
            r.res_y == res_y,
            r.sampler_factory == (SamplerFactory::HaltonSampler { subdivision_sampling: 4 }),
            r.filter_factory is BoxFilter,
            r.bucket_size == 10,
            r.threads == 1,
            r.textures@.len() == 0,
            r.background_color == RGBA8::spec_new(0, 0, 0, 255),
    {
        Renderer {
            res_x: res_x,
            res_y: res_y,
            background_color: RGBA8::new_black(),
            textures: Vec::new(),
            sampler_factory: SamplerFactory::HaltonSampler { subdivision_sampling: 4 },
            filter_factory: FilterFactory::BoxFilter,
            bucket_size: 10,
            threads: 1,
        }
    }

    pub fn set_resolution(&mut self, res_x: usize, res_y: usize)
        ensures
            final(self).res_x == res_x,
            final(self).res_y == res_y,
            final(self).sampler_factory == old(self).sampler_factory,
            final(self).filter_factory == old(self).filter_factory,
            final(self).background_color == old(self).background_color,
            final(self).textures == old(self).textures,
            final(self).threads == old(self).threads,
            final(self).bucket_size == old(self).bucket_size,
    {
        self.res_x = res_x;
        self.res_y = res_y;
    }

    /// Forgets the textures.
    pub fn free_textures(&mut self)
        ensures
            final(self).textures@.len() == 0,
            final(self).res_x == old(self).res_x,
            final(self).res_y == old(self).res_y,
            final(self).sampler_factory == old(self).sampler_factory,
            final(self).filter_factory == old(self).filter_factory,
            final(self).background_color == old(self).background_color,
            final(self).threads == old(self).threads,
            final(self).bucket_size == old(self).bucket_size,
    {
        self.textures = Vec::new();
    }

    /// The number of samples per pixel that the renderer asks for.
    pub open spec fn sample_rate(&self) -> u32 {
        match self.sampler_factory {
            SamplerFactory::HaltonSampler { subdivision_sampling } => subdivision_sampling,
            SamplerFactory::DefaultSampler { subdivision_sampling } => subdivision_sampling,
        }
    }

    /// The image and the blocks have at least one pixel and are within the
    /// limits of an area, no pixel gets more samples than a filter accepts,
    /// and every texture is well formed.
    pub open spec fn wf(&self) -> bool {
        &&& 0 < self.res_x <= AREA_LIMIT
        &&& 0 < self.res_y <= AREA_LIMIT
        &&& 0 < self.bucket_size <= AREA_LIMIT
        &&& self.sample_rate() <= SAMPLES_LIMIT
        &&& register_wf(self.textures@)
    }

    /// The ratio of the width of the image to its height.
    pub open spec fn ratio(&self) -> Ratio {
        Ratio { num: self.res_x as i64, den: self.res_y as i64 }
    }

    /// The ratio of the width of the image to its height.
    pub fn compute_ratio(&self) -> (r: Ratio)
        requires
            self.wf(),
        ensures
            r == self.ratio(),
            r.wf(),
    {
        Ratio { num: self.res_x as i64, den: self.res_y as i64 }
    }

    /// The blocks into which the image is divided, without samples.
    pub fn generate_blocks(&self) -> (blocks: Vec<Block>)
        requires
            self.wf(),
        ensures
            blocks@.len() == tiles(self.res_x as int, self.res_y as int, self.bucket_size as int).len(),
            forall|k: int|
                0 <= k < blocks@.len() ==> {
                    &&& (#[trigger] blocks@[k]).wf()
                    &&& is_tile(
                        blocks@[k],
                        tiles(self.res_x as int, self.res_y as int, self.bucket_size as int)[k],
                    )
                },
    {
        let bloc_size = self.bucket_size as u32;
        let mut result: Vec<Block> = Vec::new();
        let ghost plan = tiles(self.res_x as int, self.res_y as int, self.bucket_size as int);
        proof {
            lemma_counts(self.res_x as int, self.bucket_size as int);
            lemma_counts(self.res_y as int, self.bucket_size as int);
        }
        // The pixels that do not fit in blocks of the standard size.
        let offset_x: u32 = (self.res_x % self.bucket_size) as u32;
        let offset_y: u32 = (self.res_y % self.bucket_size) as u32;

        // The pixels that fit in blocks of the standard size.
        let size_x: u32 = self.res_x as u32 - offset_x;
        let size_y: u32 = self.res_y as u32 - offset_y;

        // The numbers of blocks of the standard size.
        let bloc_count_x: u32 = size_x / bloc_size;
        let bloc_count_y: u32 = size_y / bloc_size;

        // The narrower blocks of the right edge.
        if offset_x != 0 {
            let mut y: u32 = 0;
            while y < bloc_count_y
                invariant
                    y <= bloc_count_y,
                    self.wf(),
                    bloc_size == self.bucket_size,
                    offset_x == self.res_x % self.bucket_size,
                    offset_x != 0,
                    size_x == self.res_x - offset_x,
                    size_y == self.res_y - self.res_y % self.bucket_size,
                    bloc_count_y == size_y as int / bloc_size as int,
                    bloc_count_y * bloc_size == size_y,
                    plan == tiles(self.res_x as int, self.res_y as int, self.bucket_size as int),
                    result@.len() == y,
                    forall|k: int|
                        0 <= k < result@.len() ==> (#[trigger] result@[k]).wf() && is_tile(
                            result@[k],
                            plan[k],
                        ),
                decreases bloc_count_y - y,
            {
                proof {
                    assert(y * bloc_size + bloc_size <= bloc_count_y * bloc_size) by (nonlinear_arith)
                        requires
                            y < bloc_count_y,
                            bloc_size > 0,
                    ;
                }
                let block = Block::new(offset_x, bloc_size, size_x, y * bloc_size);
                result.push(block);
                y = y + 1;
            }
        }
        let ghost n_right = result@.len() as int;
        if offset_y != 0 {
            let mut x: u32 = 0;
            while x < bloc_count_x
                invariant
                    x <= bloc_count_x,
                    self.wf(),
                    bloc_size == self.bucket_size,
                    offset_y == self.res_y % self.bucket_size,
                    offset_y != 0,
                    size_y == self.res_y - offset_y,
                    size_x == self.res_x - self.res_x % self.bucket_size,
                    bloc_count_x == size_x as int / bloc_size as int,
                    bloc_count_x * bloc_size == size_x,
                    bloc_count_y == size_y as int / bloc_size as int,
                    n_right == (if self.res_x % self.bucket_size != 0 {
                        bloc_count_y as int
                    } else {
                        0
                    }),
                    plan == tiles(self.res_x as int, self.res_y as int, self.bucket_size as int),
                    result@.len() == n_right + x,
                    forall|k: int|
                        0 <= k < result@.len() ==> (#[trigger] result@[k]).wf() && is_tile(
                            result@[k],
                            plan[k],
                        ),
                decreases bloc_count_x - x,
            {
                proof {
                    assert(x * bloc_size + bloc_size <= bloc_count_x * bloc_size) by (nonlinear_arith)
                        requires
                            x < bloc_count_x,
                            bloc_size > 0,
                    ;
                }
                let block = Block::new(bloc_size, offset_y, x * bloc_size, size_y);
                result.push(block);
                x = x + 1;
            }
        }
        let ghost n_bottom = result@.len() as int - n_right;

        // The block of the lower right corner.
        if offset_y != 0 && offset_x != 0 {
            let block = Block::new(offset_x, offset_y, size_x, size_y);
            result.push(block);
        }
        let ghost n_edge = result@.len() as int;

        // The blocks of the standard size.
        let mut i: u32 = 0;
        while i < bloc_count_x
            invariant
                i <= bloc_count_x,
                self.wf(),
                bloc_size == self.bucket_size,
                size_x == self.res_x - self.res_x % self.bucket_size,
                size_y == self.res_y - self.res_y % self.bucket_size,
                bloc_count_x == size_x as int / bloc_size as int,
                bloc_count_y == size_y as int / bloc_size as int,
                bloc_count_x * bloc_size == size_x,
                bloc_count_y * bloc_size == size_y,
                n_edge == (if self.res_x % self.bucket_size != 0 {
                    bloc_count_y as int
                } else {
                    0
                }) + (if self.res_y % self.bucket_size != 0 {
                    bloc_count_x as int
                } else {
                    0
                }) + (if self.res_x % self.bucket_size != 0 && self.res_y % self.bucket_size != 0 {
                    1int
                } else {
                    0
                }),
                plan == tiles(self.res_x as int, self.res_y as int, self.bucket_size as int),
                result@.len() == n_edge + i * bloc_count_y,
                forall|k: int|
                    0 <= k < result@.len() ==> (#[trigger] result@[k]).wf() && is_tile(
                        result@[k],
                        plan[k],
                    ),
            decreases bloc_count_x - i,
        {
            let mut j: u32 = 0;
            while j < bloc_count_y
                invariant
                    i < bloc_count_x,
                    j <= bloc_count_y,
                    self.wf(),
                    bloc_size == self.bucket_size,
                    size_x == self.res_x - self.res_x % self.bucket_size,
                    size_y == self.res_y - self.res_y % self.bucket_size,
                    bloc_count_x == size_x as int / bloc_size as int,
                    bloc_count_y == size_y as int / bloc_size as int,
                    bloc_count_x * bloc_size == size_x,
                    bloc_count_y * bloc_size == size_y,
                    n_edge == (if self.res_x % self.bucket_size != 0 {
                        bloc_count_y as int
                    } else {
                        0
                    }) + (if self.res_y % self.bucket_size != 0 {
                        bloc_count_x as int
                    } else {
                        0
                    }) + (if self.res_x % self.bucket_size != 0 && self.res_y % self.bucket_size
                        != 0 {
                        1int
                    } else {
                        0
                    }),
                    plan == tiles(self.res_x as int, self.res_y as int, self.bucket_size as int),
                    result@.len() == n_edge + i * bloc_count_y + j,
                    forall|k: int|
                        0 <= k < result@.len() ==> (#[trigger] result@[k]).wf() && is_tile(
                            result@[k],
                            plan[k],
                        ),
                decreases bloc_count_y - j,
            {
                proof {
                    assert(i * bloc_size + bloc_size <= bloc_count_x * bloc_size) by (nonlinear_arith)
                        requires
                            i < bloc_count_x,
                            bloc_size > 0,
                    ;
                    assert(j * bloc_size + bloc_size <= bloc_count_y * bloc_size) by (nonlinear_arith)
                        requires
                            j < bloc_count_y,
                            bloc_size > 0,
                    ;
                    let m = i * bloc_count_y + j;
                    assert(0 <= m < bloc_count_x * bloc_count_y) by (nonlinear_arith)
                        requires
                            0 <= i < bloc_count_x,
                            0 <= j < bloc_count_y,
                            m == i * bloc_count_y + j,
                    ;
                    lemma_fundamental_div_mod_converse(m, bloc_count_y as int, i as int, j as int);
                }
                let block = Block::new(bloc_size, bloc_size, i * bloc_size, j * bloc_size);
                result.push(block);
                j = j + 1;
            }
            proof {
                assert((i + 1) * bloc_count_y == i * bloc_count_y + bloc_count_y) by (nonlinear_arith);
            }
            i = i + 1;
        }
        result
    }
}

/// The block has the place and the size of the tile, and no sample yet.
pub open spec fn is_tile(block: Block, tile: Tile) -> bool {
    &&& block.size_x == tile.size_x
    &&& block.size_y == tile.size_y
    &&& block.pos_x == tile.pos_x
    &&& block.pos_y == tile.pos_y
    &&& forall|x: int, y: int|
        0 <= x < block.size_x && 0 <= y < block.size_y ==> (#[trigger] block.pixel_at(
            x,
            y,
        )).samples@.len() == 0
}

/// The visible objects among the first `k` of `objects`, in order.
pub open spec fn in_sight(objects: Seq<Object>, k: int) -> Seq<Object>
    decreases k,
{
    if k <= 0 {
        Seq::empty()
    } else if objects[k - 1].visible {
        in_sight(objects, k - 1).push(objects[k - 1])
    } else {
        in_sight(objects, k - 1)
    }
}

/// The visible objects of a world that is well formed are well formed.
pub proof fn lemma_in_sight_wf(objects: Seq<Object>, k: int)
    requires
        0 <= k <= objects.len(),
        forall|i: int| 0 <= i < objects.len() ==> (#[trigger] objects[i]).wf(),
    ensures
        forall|i: int| 0 <= i < in_sight(objects, k).len() ==> (#[trigger] in_sight(objects, k)[i]).wf(),
    decreases k,
{
    if k > 0 {
        lemma_in_sight_wf(objects, k - 1);
        let before = in_sight(objects, k - 1);
        assert(objects[k - 1].wf());
        assert forall|i: int| 0 <= i < in_sight(objects, k).len() implies (#[trigger] in_sight(
            objects,
            k,
        )[i]).wf() by {
            if i < before.len() {
                assert(before[i].wf());
            }
        }
    }
}

/// The objects to which a sequence of references refers.
pub open spec fn referred(objects: Seq<&Object>) -> Seq<Object> {
    Seq::new(objects.len(), |i: int| *objects[i])
}

/// What a ray meets among the first `k` of `objects`: the rank of the
/// object of the last hit with its fragment, and the ray cut at that hit.
/// An object is tried only if the line of the ray passes through its box;
/// each hit cuts the ray, so that the last hit is a nearest one.
pub open spec fn nearest(objects: Seq<Object>, k: int, ray: Ray) -> (Option<(int, Fragment)>, Ray)
    decreases k,
{
    if k <= 0 {
        (None, ray)
    } else {
        let (found, cut) = nearest(objects, k - 1, ray);
        let object = objects[k - 1];
        if object.bbox.crossed_by(cut) {
            match object.hit(cut) {
                Some(f) => (Some((k - 1, f)), object.trimmed(cut)),
                None => (found, cut),
            }
        } else {
            (found, cut)
        }
    }
}

/// The search for the nearest hit keeps the ray well formed, leaves its
/// origin and its direction as they are, and names an object of the
/// sequence; after a hit the bound of the ray is the parameter of the
/// fragment.
pub proof fn lemma_nearest(objects: Seq<Object>, k: int, ray: Ray)
    requires
        0 <= k <= objects.len(),
        ray.wf(),
        forall|i: int| 0 <= i < objects.len() ==> (#[trigger] objects[i]).wf(),
    ensures
        nearest(objects, k, ray).1.wf(),
        nearest(objects, k, ray).1.origin == ray.origin,
        nearest(objects, k, ray).1.slope == ray.slope,
        nearest(objects, k, ray).0 matches Some(found) ==> 0 <= found.0 < k && nearest(
            objects,
            k,
            ray,
        ).1.max_t == Some(found.1.param),
        nearest(objects, k, ray).0 is None ==> nearest(objects, k, ray).1 == ray,
    decreases k,
{
    if k > 0 {
        lemma_nearest(objects, k - 1, ray);
        let cut = nearest(objects, k - 1, ray).1;
        let object = objects[k - 1];
        assert(object.wf());
        crate::geometry::obj3d::lemma_trace_ray(object.triangles_view(), cut);
    }
}

/// The renderer finds a nearest hit: if a ray without a bound hits a
/// triangle of one of the objects, then the search among the objects finds
/// a fragment, and that triangle is not hit nearer than it. The boxes of
/// the objects hide nothing.
pub proof fn lemma_nearest_is_nearest(objects: Seq<Object>, k: int, ray: Ray, i: int, j: int)
    requires
        0 <= i < k <= objects.len(),
        ray.wf(),
        ray.max_t is None,
        forall|a: int| 0 <= a < objects.len() ==> (#[trigger] objects[a]).wf(),
        0 <= j < objects[i].triangles_view().len(),
        objects[i].triangles_view()[j].hit(ray) is Some,
    ensures
        nearest(objects, k, ray).0 is Some,
        nearest(objects, k, ray).0.unwrap().1.param.val() <= objects[i].triangles_view()[j].hit(
            ray,
        ).unwrap().param.val(),
    decreases k,
{
    let g = objects[i].triangles_view()[j].hit(ray).unwrap();
    lemma_nearest(objects, k - 1, ray);
    let (found, cut) = nearest(objects, k - 1, ray);
    let object = objects[k - 1];
    assert(object.wf());
    crate::geometry::obj3d::lemma_trace_ray(object.triangles_view(), cut);
    if i < k - 1 {
        lemma_nearest_is_nearest(objects, k - 1, ray, i, j);
        if object.bbox.crossed_by(cut) && object.hit(cut) is Some {
            // A later hit is within the bound that the earlier one has set.
            lemma_hit_within_bound(object.triangles_view(), cut);
        }
    } else {
        let tri = object.triangles_view()[j];
        assert(tri.wf());
        assert(object.bbox.holds(tri));
        // The box of the object does not hide the triangle.
        if !object.bbox.crossed_by(ray) {
            crate::geometry::laws::lemma_box_never_hides(object.bbox, tri, ray);
        }
        assert(object.bbox.crossed_by(cut)) by {
            let t = choose|t: real| object.bbox.holds_at(ray, t);
            assert(object.bbox.holds_at(cut, t));
        }
        if cut.max_t is Some && g.param.val() > cut.max_t.unwrap().val() {
            // The triangle lies beyond an earlier hit.
            if object.hit(cut) is Some {
                lemma_hit_within_bound(object.triangles_view(), cut);
            }
        } else {
            crate::geometry::laws::lemma_trace_is_nearest(object.triangles_view(), cut, ray, j);
        }
    }
}

/// The fragment that tracing finds lies within the bound of the ray.
pub proof fn lemma_hit_within_bound(tris: Seq<crate::geometry::obj3d::Triangle>, ray: Ray)
    requires
        ray.wf(),
        forall|j: int| 0 <= j < tris.len() ==> (#[trigger] tris[j]).wf(),
        crate::geometry::obj3d::trace(tris, ray).0 is Some,
    ensures
        ray.max_t matches Some(m) ==> crate::geometry::obj3d::trace(tris, ray).0.unwrap().param.val()
            <= m.val(),
    decreases tris.len(),
{
    if tris.len() > 0 {
        let rest = tris.drop_last();
        let last = tris.last();
        assert forall|j: int| 0 <= j < rest.len() implies (#[trigger] rest[j]).wf() by {
            assert(rest[j] == tris[j]);
        }
        crate::geometry::obj3d::lemma_trace_ray(rest, ray);
        let (found, cut) = crate::geometry::obj3d::trace(rest, ray);
        assert(last.wf());
        last.plane_wf();
        last.plane().lemma_fragment_bounded(cut);
        if found is Some {
            lemma_hit_within_bound(rest, ray);
        }
    }
}

impl Renderer {
    /// What the ray meets among the objects: the nearest place where it
    /// meets one of them, if any. The ray is cut at that place.
    pub fn calculate_ray_intersection<'b>(&self, objects: &[&'b Object], ray: &mut Ray) -> (r:
        Option<Intersection<'b>>)
        requires
            old(ray).wf(),
            forall|i: int| 0 <= i < objects@.len() ==> (#[trigger] objects@[i]).wf(),
        ensures
            *final(ray) == nearest(referred(objects@), objects@.len() as int, *old(ray)).1,
            final(ray).wf(),
            match nearest(referred(objects@), objects@.len() as int, *old(ray)).0 {
                Some(found) => r == Some(
                    Intersection {
                        fragment: found.1,
                        geometry: &objects@[found.0].mesh,
                        material: &objects@[found.0].material,
                        ray: *final(ray),
                    },
                ),
                None => r is None,
            },
    {
        let mut intersection_point: Option<Intersection<'b>> = None;
        let mut i: usize = 0;
        while i < objects.len()
            invariant
                i <= objects@.len(),
                old(ray).wf(),
                ray.wf(),
                forall|k: int| 0 <= k < objects@.len() ==> (#[trigger] objects@[k]).wf(),
                *ray == nearest(referred(objects@), i as int, *old(ray)).1,
                match nearest(referred(objects@), i as int, *old(ray)).0 {
                    Some(found) => 0 <= found.0 < i && intersection_point == Some(
                        Intersection {
                            fragment: found.1,
                            geometry: &objects@[found.0].mesh,
                            material: &objects@[found.0].material,
                            ray: *ray,
                        },
                    ),
                    None => intersection_point is None,
                },
            decreases objects@.len() - i,
        {
            let object = objects[i];
            assert(object.wf());
            proof {
                assert(*object == referred(objects@)[i as int]);
                crate::geometry::obj3d::lemma_trace_ray(object.triangles_view(), *ray);
            }
            if object.bounding_box().intersects(ray) {
                if let Some(point) = object.get_intersection_point(ray) {
                    intersection_point = Some(point);
                }
            }
            i = i + 1;
        }
        intersection_point
    }

    /// The colour of what the ray sees among the objects: that of the
    /// nearest place where it meets one of them, or the colour of the
    /// background; nothing if the material cannot be evaluated there.
    pub open spec fn seen(&self, world: &World, objects: Seq<Object>, ray: Ray) -> Option<RGBA32> {
        let (found, cut) = nearest(objects, objects.len() as int, ray);
        match found {
            Some(hit) => (Intersection {
                fragment: hit.1,
                geometry: &objects[hit.0].mesh,
                material: &objects[hit.0].material,
                ray: cut,
            }).point_color(world, self.textures@),
            None => Some(self.background_color.spec_to_rgba32()),
        }
    }

    /// The colour of a sample: that of what the ray of the camera through
    /// the sample sees among the visible objects of the world. A sample
    /// whose ray does not fit in the lattice has no colour: a camera whose
    /// canvas leaves the lattice cannot be rendered from.
    pub open spec fn sample_color(&self, world: &World, camera: &Camera, sample: Sample) -> Option<
        RGBA32,
    > {
        match camera.ray_through(sample, self.ratio(), self.res_x as u32, self.res_y as u32) {
            Some(ray) => self.seen(
                world,
                in_sight(world.objects@, world.objects@.len() as int),
                ray,
            ),
            None => None,
        }
    }

    /// The sample with its colour; it stays as it is where its colour
    /// cannot be found.
    pub open spec fn shaded(&self, world: &World, camera: &Camera, sample: Sample) -> Sample {
        match self.sample_color(world, camera, sample) {
            Some(c) => Sample { position: sample.position, color: c },
            None => sample,
        }
    }

    /// Casts a ray for each sample of the pixel and gives the sample the
    /// colour of what the ray sees. Answers whether every sample could be
    /// given its colour.
    pub fn calculate_rays(&self, world: &World, camera: &Camera, pixel: &mut Pixel) -> (ok: bool)
        requires
            self.wf(),
            world.wf(),
            camera.wf(),
            forall|i: int|
                0 <= i < old(pixel).samples@.len() ==> (#[trigger] old(pixel).samples@[i]).position.x.wf()
                    && old(pixel).samples@[i].position.y.wf(),
        ensures
            final(pixel).x == old(pixel).x,
            final(pixel).y == old(pixel).y,
            final(pixel).samples@.len() == old(pixel).samples@.len(),
            ok == (forall|i: int|
                0 <= i < old(pixel).samples@.len() ==> self.sample_color(
                    world,
                    camera,
                    #[trigger] old(pixel).samples@[i],
                ) is Some),
            ok ==> forall|i: int|
                0 <= i < old(pixel).samples@.len() ==> #[trigger] final(pixel).samples@[i]
                    == self.shaded(world, camera, old(pixel).samples@[i]),
            forall|i: int|
                0 <= i < final(pixel).samples@.len() ==> (#[trigger] final(pixel).samples@[i]).position
                    == old(pixel).samples@[i].position,
    {
        let all = world.objects();
        let mut objects: Vec<&Object> = Vec::new();
        let mut k: usize = 0;
        while k < all.len()
            invariant
                k <= all@.len(),
                all@ == world.objects@,
                referred(objects@) == in_sight(all@, k as int),
            decreases all@.len() - k,
        {
            if all[k].is_visible() {
                objects.push(&all[k]);
                assert(referred(objects@) =~= in_sight(all@, k as int).push(all@[k as int]));
            } else {
                assert(referred(objects@) =~= in_sight(all@, k as int));
            }
            k = k + 1;
        }
        proof {
            lemma_in_sight_wf(world.objects@, world.objects@.len() as int);
            assert forall|j: int| 0 <= j < objects@.len() implies (#[trigger] objects@[j]).wf() by {
                assert(*objects@[j] == referred(objects@)[j]);
            }
        }
        let ratio = self.compute_ratio();
        let n = pixel.samples.len();
        let mut i: usize = 0;
        while i < n
            invariant
                i <= n,
                n == pixel.samples@.len(),
                n == old(pixel).samples@.len(),
                pixel.x == old(pixel).x,
                pixel.y == old(pixel).y,
                self.wf(),
                world.wf(),
                camera.wf(),
                ratio == self.ratio(),
                referred(objects@) == in_sight(world.objects@, world.objects@.len() as int),
                forall|j: int| 0 <= j < objects@.len() ==> (#[trigger] objects@[j]).wf(),
                forall|j: int|
                    0 <= j < n ==> (#[trigger] old(pixel).samples@[j]).position.x.wf() && old(
                        pixel,
                    ).samples@[j].position.y.wf(),
                forall|j: int| i <= j < n ==> #[trigger] pixel.samples@[j] == old(pixel).samples@[j],
                forall|j: int|
                    0 <= j < i ==> self.sample_color(world, camera, #[trigger] old(pixel).samples@[j]) is Some,
                forall|j: int|
                    0 <= j < i ==> #[trigger] pixel.samples@[j] == self.shaded(
                        world,
                        camera,
                        old(pixel).samples@[j],
                    ),
            decreases n - i,
        {
            let sample = pixel.samples[i];
            assert(sample == old(pixel).samples@[i as int]);
            // The ray of the sample.
            let color = match camera.create_ray_from_sample(
                &sample,
                ratio,
                self.res_x as u32,
                self.res_y as u32,
            ) {
                Some(mut ray) => {
                    let ghost ray_start = ray;
                    proof {
                        assert forall|j: int| 0 <= j < referred(objects@).len() implies (#[trigger] referred(
                            objects@,
                        )[j]).wf() by {
                            assert(objects@[j].wf());
                        }
                    }
                    let point = self.calculate_ray_intersection(objects.as_slice(), &mut ray);
                    // The colour of the ray comes from the fragment and
                    // from the material of the object that was hit.
                    proof {
                        let found = nearest(referred(objects@), objects@.len() as int, ray_start).0;
                        lemma_nearest(referred(objects@), objects@.len() as int, ray_start);
                        if found is Some {
                            assert(*objects@[found.unwrap().0] == referred(objects@)[found.unwrap().0]);
                        }
                    }
                    match point {
                        Some(p) => p.get_point_color(world, &self.textures),
                        None => Some(self.background_color.to_rgba32()),
                    }
                },
                None => None,
            };
            assert(color == self.sample_color(world, camera, sample));
            match color {
                Some(c) => {
                    pixel.samples.set(i, Sample { position: sample.position, color: c });
                },
                None => {
                    return false;
                },
            }
            i = i + 1;
        }
        true
    }
}

impl Tile {
    /// The grid of the block at the place of the tile: one cell for each
    /// pixel.
    pub open spec fn grid(&self) -> Grid {
        Grid {
            dimensions: (self.size_x as u32, self.size_y as u32),
            offset: crate::math::Vector2 { x: self.pos_x as u32, y: self.pos_y as u32 },
            pixel_width: self.size_x as u32,
            pixel_height: self.size_y as u32,
        }
    }
}

impl Renderer {
    /// The samples that the sampler places in the cell at column `x` and
    /// line `y` of a grid.
    pub open spec fn cell_samples(&self, grid: Grid, x: int, y: int) -> Seq<Sample> {
        grid.samples_of_cell(self.sampler_factory.sampler().distribution(), x, y)
    }

    /// The samples of a cell, each with its colour.
    pub open spec fn lit_samples(
        &self,
        world: &World,
        camera: &Camera,
        grid: Grid,
        x: int,
        y: int,
    ) -> Seq<Sample> {
        Seq::new(
            self.cell_samples(grid, x, y).len(),
            |k: int| self.shaded(world, camera, self.cell_samples(grid, x, y)[k]),
        )
    }

    /// Every sample of every cell of the grid can be given its colour.
    pub open spec fn block_shades(&self, world: &World, camera: &Camera, grid: Grid) -> bool {
        forall|x: int, y: int, k: int|
            0 <= x < grid.pixel_width && 0 <= y < grid.pixel_height && 0 <= k < self.cell_samples(
                grid,
                x,
                y,
            ).len() ==> self.sample_color(
                world,
                camera,
                #[trigger] self.cell_samples(grid, x, y)[k],
            ) is Some
    }

    /// The colour of the pixel at column `x` and line `y` of a block: what
    /// the filter makes of the samples of the pixel, each with its colour.
    pub open spec fn pixel_color(
        &self,
        world: &World,
        camera: &Camera,
        grid: Grid,
        x: int,
        y: int,
    ) -> RGBA32 {
        self.filter_factory.filter(self.res_x as u32, self.res_y as u32).reconstructed(
            (x as u32, y as u32),
            self.lit_samples(world, camera, grid, x, y),
            (grid.offset.x, grid.offset.y),
        )
    }

    /// The colour of the pixel at column `x` and line `y` of the image once
    /// the tiles from the rank `k` on are rendered, the last one first: that
    /// of the first of them that covers the pixel, and black if none does.
    pub open spec fn color_from(
        &self,
        world: &World,
        camera: &Camera,
        plan: Seq<Tile>,
        k: int,
        x: int,
        y: int,
    ) -> RGBA32
        decreases plan.len() - k,
    {
        if k >= plan.len() {
            RGBA32 { r: 0, g: 0, b: 0, a: u32::MAX }
        } else if plan[k].covers(x, y) {
            self.pixel_color(world, camera, plan[k].grid(), x - plan[k].pos_x, y - plan[k].pos_y)
        } else {
            self.color_from(world, camera, plan, k + 1, x, y)
        }
    }

    /// The tiles of the image of the renderer.
    pub open spec fn plan(&self) -> Seq<Tile> {
        tiles(self.res_x as int, self.res_y as int, self.bucket_size as int)
    }

    /// Renders one block: places the samples, gives each its colour, and
    /// lets the filter make the colour of each pixel. Gives the picture of
    /// the block, of the size of the block; nothing if some sample could not
    /// be given its colour.
    pub fn shade_block(&self, block: Block, world: &World, camera: &Camera) -> (r: Option<
        Image<RGBA32>,
    >)
        requires
            self.wf(),
            world.wf(),
            camera.wf(),
            block.area_wf(),
            forall|x: int, y: int|
                0 <= x < block.size_x && 0 <= y < block.size_y ==> (#[trigger] block.pixel_at(
                    x,
                    y,
                )).samples@.len() == 0,
        ensures
            r is Some <==> self.block_shades(world, camera, block.grid()),
            r matches Some(img) ==> {
                &&& img.wf()
                &&& img.spec_width() == block.size_x
                &&& img.spec_height() == block.size_y
                &&& forall|x: int, y: int|
                    0 <= x < block.size_x && 0 <= y < block.size_y ==> #[trigger] img.at(x, y)
                        == self.pixel_color(world, camera, block.grid(), x, y)
            },
    {
        let ghost grid = block.grid();
        let mut work = block;
        let size_x = work.size_x;
        let size_y = work.size_y;
        let pos_x = work.pos_x;
        let pos_y = work.pos_y;

        // The samples.
        let sampler = self.sampler_factory.create_sampler();
        sampler.create_samples(&mut work);
        proof {
            assert forall|x: int, y: int| 0 <= x < size_x && 0 <= y < size_y implies (#[trigger] work.pixel_at(
                x,
                y,
            )).samples@ == self.cell_samples(grid, x, y) by {
                assert(work.pixel_samples(x, y) == Seq::<Sample>::empty() + self.cell_samples(
                    grid,
                    x,
                    y,
                ));
                assert(Seq::<Sample>::empty() + self.cell_samples(grid, x, y) =~= self.cell_samples(
                    grid,
                    x,
                    y,
                ));
            }
        }
        let filter = self.filter_factory.create_filter(self.res_x as u32, self.res_y as u32);

        // The rays.
        let mut y: u32 = 0;
        while y < size_y
            invariant
                y <= size_y,
                self.wf(),
                world.wf(),
                camera.wf(),
                work.wf(),
                work.grid() == grid,
                grid == block.grid(),
                pos_x == block.pos_x,
                pos_y == block.pos_y,
                size_x == block.size_x,
                size_y == block.size_y,
                size_x == work.size_x,
                size_y == work.size_y,
                0 < size_x,
                sampler == self.sampler_factory.sampler(),
                sampler.distribution().len() <= 65536,
                forall|i: int, j: int, k: int|
                    0 <= i < size_x && 0 <= j < size_y && 0 <= k < sampler.distribution().len() ==> {
                        let s = #[trigger] grid.samples_of_cell(sampler.distribution(), i, j)[k];
                        s.position.x.wf() && s.position.y.wf()
                    },
                forall|i: int, j: int|
                    0 <= i < size_x && y <= j < size_y ==> (#[trigger] work.pixel_at(i, j)).samples@
                        == self.cell_samples(grid, i, j),
                forall|i: int, j: int|
                    0 <= i < size_x && 0 <= j < y ==> (#[trigger] work.pixel_at(i, j)).samples@
                        == self.lit_samples(world, camera, grid, i, j),
                forall|i: int, j: int, k: int|
                    0 <= i < size_x && 0 <= j < y && 0 <= k < self.cell_samples(grid, i, j).len()
                        ==> self.sample_color(
                        world,
                        camera,
                        #[trigger] self.cell_samples(grid, i, j)[k],
                    ) is Some,
            decreases size_y - y,
        {
            let mut x: u32 = 0;
            while x < size_x
                invariant
                    x <= size_x,
                    y < size_y,
                    self.wf(),
                    world.wf(),
                    camera.wf(),
                    work.wf(),
                    work.grid() == grid,
                grid == block.grid(),
                pos_x == block.pos_x,
                pos_y == block.pos_y,
                size_x == block.size_x,
                size_y == block.size_y,
                    size_x == work.size_x,
                    size_y == work.size_y,
                    sampler == self.sampler_factory.sampler(),
                    sampler.distribution().len() <= 65536,
                    forall|i: int, j: int, k: int|
                        0 <= i < size_x && 0 <= j < size_y && 0 <= k < sampler.distribution().len()
                            ==> {
                            let s = #[trigger] grid.samples_of_cell(sampler.distribution(), i, j)[k];
                            s.position.x.wf() && s.position.y.wf()
                        },
                    forall|i: int, j: int|
                        0 <= i < size_x && 0 <= j < size_y && (j > y || (j == y && i >= x)) ==> (
                        #[trigger] work.pixel_at(i, j)).samples@ == self.cell_samples(grid, i, j),
                    forall|i: int, j: int|
                        0 <= i < size_x && 0 <= j < size_y && (j < y || (j == y && i < x)) ==> (
                        #[trigger] work.pixel_at(i, j)).samples@ == self.lit_samples(
                            world,
                            camera,
                            grid,
                            i,
                            j,
                        ),
                    forall|i: int, j: int, k: int|
                        0 <= i < size_x && 0 <= j < size_y && (j < y || (j == y && i < x)) && 0 <= k
                            < self.cell_samples(grid, i, j).len() ==> self.sample_color(
                            world,
                            camera,
                            #[trigger] self.cell_samples(grid, i, j)[k],
                        ) is Some,
                decreases size_x - x,
            {
                proof {
                    crate::renderer::block::lemma_rank(
                        x as int,
                        y as int,
                        size_x as int,
                        size_y as int,
                    );
                    assert(y * size_x <= 65535 * 65535) by (nonlinear_arith)
                        requires
                            y <= 65535,
                            size_x <= 65535,
                    ;
                    let cells = self.cell_samples(grid, x as int, y as int);
                    assert(work.pixel_at(x as int, y as int).samples@ == cells);
                    assert forall|k: int| 0 <= k < cells.len() implies (#[trigger] cells[k]).position.x.wf()
                        && cells[k].position.y.wf() by {
                        let s = grid.samples_of_cell(sampler.distribution(), x as int, y as int)[k];
                    }
                    assert forall|i: int, j: int|
                        0 <= i < size_x && 0 <= j < size_y && (i != x || j != y) implies #[trigger] crate::renderer::block::rank(
                        i,
                        j,
                        size_x as int,
                    ) != crate::renderer::block::rank(x as int, y as int, size_x as int) && 0
                        <= crate::renderer::block::rank(i, j, size_x as int) < size_x * size_y by {
                        crate::renderer::block::lemma_rank(i, j, size_x as int, size_y as int);
                        if crate::renderer::block::rank(i, j, size_x as int)
                            == crate::renderer::block::rank(x as int, y as int, size_x as int) {
                            crate::renderer::block::lemma_rank_injective(
                                i,
                                j,
                                x as int,
                                y as int,
                                size_x as int,
                            );
                        }
                    }
                }
                let index = (x + y * size_x) as usize;
                let ghost before = work;
                let pixel = &mut work.pixels[index];
                let fine = self.calculate_rays(world, camera, pixel);
                if !fine {
                    proof {
                        let cells = self.cell_samples(grid, x as int, y as int);
                        let k = choose|k: int|
                            0 <= k < cells.len() && !(self.sample_color(
                                world,
                                camera,
                                #[trigger] cells[k],
                            ) is Some);
                        assert(cells[k] == before.pixel_at(x as int, y as int).samples@[k]);
                        assert(!self.block_shades(world, camera, grid));
                    }
                    return None;
                }
                proof {
                    let cells = self.cell_samples(grid, x as int, y as int);
                    assert(work.pixel_at(x as int, y as int).samples@ =~= self.lit_samples(
                        world,
                        camera,
                        grid,
                        x as int,
                        y as int,
                    ));
                    assert forall|i: int, j: int|
                        0 <= i < size_x && 0 <= j < size_y && (i != x || j != y) implies #[trigger] work.pixel_at(
                        i,
                        j,
                    ) == before.pixel_at(i, j) by {}
                }
                x = x + 1;
            }
            y = y + 1;
        }

        // The image is made from the samples by the filter.
        let mut temp_result: Vec<Vec<RGBA32>> = Vec::new();
        let mut x: u32 = 0;
        while x < size_x
            invariant
                x <= size_x,
                self.wf(),
                work.wf(),
                work.grid() == grid,
                grid == block.grid(),
                pos_x == block.pos_x,
                pos_y == block.pos_y,
                size_x == block.size_x,
                size_y == block.size_y,
                size_x == work.size_x,
                size_y == work.size_y,
                pos_x == work.pos_x,
                pos_y == work.pos_y,
                0 < size_y,
                filter == self.filter_factory.filter(self.res_x as u32, self.res_y as u32),
                sampler == self.sampler_factory.sampler(),
                sampler.distribution().len() <= 65536,
                forall|i: int, j: int, k: int|
                    0 <= i < size_x && 0 <= j < size_y && 0 <= k < sampler.distribution().len() ==> {
                        let s = #[trigger] grid.samples_of_cell(sampler.distribution(), i, j)[k];
                        s.position.x.wf() && s.position.y.wf()
                    },
                forall|i: int, j: int|
                    0 <= i < size_x && 0 <= j < size_y ==> (#[trigger] work.pixel_at(i, j)).samples@
                        == self.lit_samples(world, camera, grid, i, j),
                forall|i: int, j: int, k: int|
                    0 <= i < size_x && 0 <= j < size_y && 0 <= k < self.cell_samples(grid, i, j).len()
                        ==> self.sample_color(
                        world,
                        camera,
                        #[trigger] self.cell_samples(grid, i, j)[k],
                    ) is Some,
                temp_result@.len() == x,
                forall|i: int| 0 <= i < x ==> (#[trigger] temp_result@[i])@.len() == size_y,
                forall|i: int, j: int|
                    0 <= i < x && 0 <= j < size_y ==> #[trigger] temp_result@[i]@[j]
                        == self.pixel_color(world, camera, grid, i, j),
            decreases size_x - x,
        {
            let mut col: Vec<RGBA32> = Vec::new();
            let mut y: u32 = 0;
            while y < size_y
                invariant
                    x < size_x,
                    y <= size_y,
                    self.wf(),
                    work.wf(),
                    work.grid() == grid,
                grid == block.grid(),
                pos_x == block.pos_x,
                pos_y == block.pos_y,
                size_x == block.size_x,
                size_y == block.size_y,
                    size_x == work.size_x,
                    size_y == work.size_y,
                    pos_x == work.pos_x,
                    pos_y == work.pos_y,
                    filter == self.filter_factory.filter(self.res_x as u32, self.res_y as u32),
                    sampler == self.sampler_factory.sampler(),
                    sampler.distribution().len() <= 65536,
                    forall|i: int, j: int, k: int|
                        0 <= i < size_x && 0 <= j < size_y && 0 <= k < sampler.distribution().len()
                            ==> {
                            let s = #[trigger] grid.samples_of_cell(sampler.distribution(), i, j)[k];
                            s.position.x.wf() && s.position.y.wf()
                        },
                    forall|i: int, j: int|
                        0 <= i < size_x && 0 <= j < size_y ==> (#[trigger] work.pixel_at(
                            i,
                            j,
                        )).samples@ == self.lit_samples(world, camera, grid, i, j),
                    forall|i: int, j: int, k: int|
                        0 <= i < size_x && 0 <= j < size_y && 0 <= k < self.cell_samples(
                            grid,
                            i,
                            j,
                        ).len() ==> self.sample_color(
                            world,
                            camera,
                            #[trigger] self.cell_samples(grid, i, j)[k],
                        ) is Some,
                    col@.len() == y,
                    forall|j: int|
                        0 <= j < y ==> #[trigger] col@[j] == self.pixel_color(
                            world,
                            camera,
                            grid,
                            x as int,
                            j,
                        ),
                decreases size_y - y,
            {
                let pixel = work.get_pixel(x, y);
                proof {
                    let lit = self.lit_samples(world, camera, grid, x as int, y as int);
                    let cells = self.cell_samples(grid, x as int, y as int);
                    assert(pixel.samples@ == lit);
                    assert forall|k: int| 0 <= k < lit.len() implies (#[trigger] lit[k]).position.x.wf()
                        && lit[k].position.y.wf() by {
                        let s = grid.samples_of_cell(sampler.distribution(), x as int, y as int)[k];
                        assert(self.sample_color(world, camera, cells[k]) is Some);
                    }
                }
                col.push(filter.compute_color(pixel, (pos_x, pos_y)));
                y = y + 1;
            }
            temp_result.push(col);
            x = x + 1;
        }
        proof {
            assert(size_x * size_y <= 65535 * 65535) by (nonlinear_arith)
                requires
                    size_x <= 65535,
                    size_y <= 65535,
            ;
            assert forall|i: int, j: int, k: int|
                0 <= i < grid.pixel_width && 0 <= j < grid.pixel_height && 0 <= k
                    < self.cell_samples(grid, i, j).len() implies self.sample_color(
                world,
                camera,
                #[trigger] self.cell_samples(grid, i, j)[k],
            ) is Some by {}
        }
        // The block is laid over the image.
        let rendered = Image::<RGBA32>::from_vec_vec(temp_result.as_slice());
        proof {
            assert forall|i: int, j: int| 0 <= i < size_x && 0 <= j < size_y implies #[trigger] rendered.at(
                i,
                j,
            ) == self.pixel_color(world, camera, grid, i, j) by {
                assert(temp_result@[i]@[j] == self.pixel_color(world, camera, grid, i, j));
            }
        }
        Some(rendered)
    }


    /// Renders one block of the image and lays its pixels over the image.
    /// Answers whether every sample could be given its colour; if not, the
    /// image is left as it is.
    pub fn render_block(
        &self,
        block: Block,
        world: &World,
        camera: &Camera,
        shared_image: &mut Image<RGBA32>,
    ) -> (ok: bool)
        requires
            self.wf(),
            world.wf(),
            camera.wf(),
            block.area_wf(),
            forall|x: int, y: int|
                0 <= x < block.size_x && 0 <= y < block.size_y ==> (#[trigger] block.pixel_at(
                    x,
                    y,
                )).samples@.len() == 0,
            block.pos_x + block.size_x <= self.res_x,
            block.pos_y + block.size_y <= self.res_y,
            old(shared_image).wf(),
            old(shared_image).spec_width() == self.res_x,
            old(shared_image).spec_height() == self.res_y,
        ensures
            ok == self.block_shades(world, camera, block.grid()),
            final(shared_image).wf(),
            final(shared_image).spec_width() == self.res_x,
            final(shared_image).spec_height() == self.res_y,
            forall|x: int, y: int|
                0 <= x < self.res_x && 0 <= y < self.res_y ==> #[trigger] final(shared_image).at(x, y)
                    == (if ok && block.pos_x <= x < block.pos_x + block.size_x && block.pos_y <= y
                    < block.pos_y + block.size_y {
                    self.pixel_color(world, camera, block.grid(), x - block.pos_x, y - block.pos_y)
                } else {
                    old(shared_image).at(x, y)
                }),
    {
        let pos_x = block.pos_x;
        let pos_y = block.pos_y;
        match self.shade_block(block, world, camera) {
            Some(rendered) => {
                // The block is laid over the image.
                shared_image.superpose_sub_image(rendered, pos_x, pos_y);
                true
            },
            None => false,
        }
    }

    /// Renders the image: divides it into blocks and renders each of them,
    /// the last one first. Nothing if some sample could not be given its
    /// colour: the canvas of the camera leaves the lattice, so that a ray
    /// cannot be made, or a material cannot be evaluated.
    pub fn render(&self, world: &World, camera: &Camera) -> (image: Option<Image<RGBA32>>)
        requires
            self.wf(),
            world.wf(),
            camera.wf(),
        ensures
            image is Some <==> (forall|k: int|
                0 <= k < self.plan().len() ==> self.block_shades(
                    world,
                    camera,
                    (#[trigger] self.plan()[k]).grid(),
                )),
            image matches Some(img) ==> {
                &&& img.wf()
                &&& img.spec_width() == self.res_x
                &&& img.spec_height() == self.res_y
                &&& forall|x: int, y: int|
                    0 <= x < self.res_x && 0 <= y < self.res_y ==> #[trigger] img.at(x, y)
                        == self.color_from(world, camera, self.plan(), 0, x, y)
            },
    {
        proof {
            assert(self.res_x * self.res_y <= 65535 * 65535) by (nonlinear_arith)
                requires
                    self.res_x <= 65535,
                    self.res_y <= 65535,
            ;
        }
        let mut shared_image = Image::new(self.res_x, self.res_y);
        let mut blocks = self.generate_blocks();
        let ghost plan = self.plan();
        while blocks.len() > 0
            invariant
                self.wf(),
                world.wf(),
                camera.wf(),
                plan == self.plan(),
                blocks@.len() <= plan.len(),
                forall|k: int|
                    0 <= k < blocks@.len() ==> (#[trigger] blocks@[k]).wf() && is_tile(
                        blocks@[k],
                        plan[k],
                    ),
                forall|k: int|
                    blocks@.len() <= k < plan.len() ==> self.block_shades(
                        world,
                        camera,
                        (#[trigger] plan[k]).grid(),
                    ),
                shared_image.wf(),
                shared_image.spec_width() == self.res_x,
                shared_image.spec_height() == self.res_y,
                forall|x: int, y: int|
                    0 <= x < self.res_x && 0 <= y < self.res_y ==> #[trigger] shared_image.at(x, y)
                        == self.color_from(world, camera, plan, blocks@.len() as int, x, y),
            decreases blocks@.len(),
        {
            let ghost m = blocks@.len() as int - 1;
            let block = blocks.pop().unwrap();
            proof {
                lemma_tiles_inside(
                    self.res_x as int,
                    self.res_y as int,
                    self.bucket_size as int,
                    m,
                );
                assert(is_tile(block, plan[m]));
                assert(block.grid() == plan[m].grid());
            }
            let ghost before = shared_image;
            if !self.render_block(block, world, camera, &mut shared_image) {
                return None;
            }
            proof {
                assert forall|x: int, y: int|
                    0 <= x < self.res_x && 0 <= y < self.res_y implies #[trigger] shared_image.at(
                    x,
                    y,
                ) == self.color_from(world, camera, plan, m, x, y) by {
                    assert(before.at(x, y) == self.color_from(world, camera, plan, m + 1, x, y));
                }
            }
        }
        Some(shared_image)
    }
}

/// Rendering is a function of the scene: two images rendered by the same
/// renderer from the same world through the same camera have the same
/// colour at every pixel.
pub proof fn lemma_render_twice(
    renderer: &Renderer,
    world: &World,
    camera: &Camera,
    first: Image<RGBA32>,
    second: Image<RGBA32>,
    x: int,
    y: int,
)
    requires
        0 <= x < renderer.res_x,
        0 <= y < renderer.res_y,
        forall|i: int, j: int|
            0 <= i < renderer.res_x && 0 <= j < renderer.res_y ==> #[trigger] first.at(i, j)
                == renderer.color_from(world, camera, renderer.plan(), 0, i, j),
        forall|i: int, j: int|
            0 <= i < renderer.res_x && 0 <= j < renderer.res_y ==> #[trigger] second.at(i, j)
                == renderer.color_from(world, camera, renderer.plan(), 0, i, j),
    ensures
        first.at(x, y) == second.at(x, y),
{
}

/// The rank, among the tiles of an image, of the tile of the pixel at
/// column `x` and line `y`.
pub open spec fn tile_rank(res_x: int, res_y: int, side: int, x: int, y: int) -> int {
    let rest_x = res_x % side;
    let rest_y = res_y % side;
    let full_x = res_x - rest_x;
    let full_y = res_y - rest_y;
    let count_x = full_x / side;
    let count_y = full_y / side;
    let n_right = if rest_x != 0 {
        count_y
    } else {
        0
    };
    let n_bottom = if rest_y != 0 {
        count_x
    } else {
        0
    };
    let n_corner: int = if rest_x != 0 && rest_y != 0 {
        1
    } else {
        0
    };
    if x >= full_x {
        if y >= full_y {
            n_right + n_bottom
        } else {
            y / side
        }
    } else if y >= full_y {
        n_right + x / side
    } else {
        n_right + n_bottom + n_corner + (x / side) * count_y + y / side
    }
}

/// A number between two multiples of a divisor that follow each other has
/// the first of them as its quotient.
proof fn lemma_quotient_between(y: int, side: int, a: int)
    requires
        side > 0,
        a * side <= y < a * side + side,
    ensures
        y / side == a,
{
    lemma_fundamental_div_mod_converse(y, side, a, y - a * side);
}

/// The tiles divide the image: every pixel of the image lies in one tile,
/// and in no other.
pub proof fn lemma_tiles_divide(res_x: int, res_y: int, side: int, x: int, y: int, k: int)
    requires
        0 < side,
        0 <= x < res_x,
        0 <= y < res_y,
    ensures
        0 <= tile_rank(res_x, res_y, side, x, y) < tiles(res_x, res_y, side).len(),
        0 <= k < tiles(res_x, res_y, side).len() ==> (tiles(res_x, res_y, side)[k].covers(x, y)
            <==> k == tile_rank(res_x, res_y, side, x, y)),
{
    lemma_counts(res_x, side);
    lemma_counts(res_y, side);
    let rest_x = res_x % side;
    let rest_y = res_y % side;
    let full_x = res_x - rest_x;
    let full_y = res_y - rest_y;
    let count_x = full_x / side;
    let count_y = full_y / side;
    let n_right = if rest_x != 0 {
        count_y
    } else {
        0
    };
    let n_bottom = if rest_y != 0 {
        count_x
    } else {
        0
    };
    let n_corner: int = if rest_x != 0 && rest_y != 0 {
        1
    } else {
        0
    };
    let plan = tiles(res_x, res_y, side);
    let rank = tile_rank(res_x, res_y, side, x, y);
    let i = x / side;
    let j = y / side;
    assert(i * side <= x < i * side + side && 0 <= i) by (nonlinear_arith)
        requires
            0 <= x,
            0 < side,
            i == x / side,
    ;
    assert(j * side <= y < j * side + side && 0 <= j) by (nonlinear_arith)
        requires
            0 <= y,
            0 < side,
            j == y / side,
    ;
    // The tile of the pixel covers it.
    if x < full_x {
        assert(i < count_x) by (nonlinear_arith)
            requires
                i * side <= x,
                x < count_x * side,
                side > 0,
        ;
    }
    if y < full_y {
        assert(j < count_y) by (nonlinear_arith)
            requires
                j * side <= y,
                y < count_y * side,
                side > 0,
        ;
    }
    if x < full_x && y < full_y {
        let m = i * count_y + j;
        assert(0 <= m < count_x * count_y) by (nonlinear_arith)
            requires
                0 <= i < count_x,
                0 <= j < count_y,
                m == i * count_y + j,
        ;
        lemma_fundamental_div_mod_converse(m, count_y, i, j);
    }
    assert(0 <= rank < plan.len());
    assert(plan[rank].covers(x, y));
    // No other tile covers the pixel.
    let t = plan[k];
    if 0 <= k < plan.len() && t.covers(x, y) {
        if k < n_right {
            assert(t.pos_y == k * side && t.size_y == side && t.pos_x == full_x);
            lemma_quotient_between(y, side, k);
            assert(y < full_y) by (nonlinear_arith)
                requires
                    y < k * side + side,
                    k < count_y,
                    count_y * side == full_y,
                    side > 0,
            ;
        } else if k < n_right + n_bottom {
            let a = k - n_right;
            assert(t.pos_x == a * side && t.size_x == side && t.pos_y == full_y);
            lemma_quotient_between(x, side, a);
            assert(x < full_x) by (nonlinear_arith)
                requires
                    x < a * side + side,
                    a < count_x,
                    count_x * side == full_x,
                    side > 0,
            ;
        } else if k < n_right + n_bottom + n_corner {
        } else {
            let m = k - n_right - n_bottom - n_corner;
            assert(0 <= m < count_x * count_y);
            let a = m / count_y;
            let b = m % count_y;
            assert(count_y > 0) by (nonlinear_arith)
                requires
                    0 <= m < count_x * count_y,
                    count_x >= 0,
                    count_y >= 0,
            ;
            assert(0 <= a < count_x && 0 <= b < count_y && m == a * count_y + b) by (nonlinear_arith)
                requires
                    0 <= m < count_x * count_y,
                    count_y > 0,
                    a == m / count_y,
                    b == m % count_y,
            ;
            assert(t.pos_x == a * side && t.pos_y == b * side && t.size_x == side && t.size_y
                == side);
            lemma_quotient_between(x, side, a);
            lemma_quotient_between(y, side, b);
            assert(x < full_x) by (nonlinear_arith)
                requires
                    x < a * side + side,
                    a < count_x,
                    count_x * side == full_x,
                    side > 0,
            ;
            assert(y < full_y) by (nonlinear_arith)
                requires
                    y < b * side + side,
                    b < count_y,
                    count_y * side == full_y,
                    side > 0,
            ;
        }
    }
}

impl Renderer {
    /// The colour of a pixel of the rendered image is that of its place in
    /// the one tile that covers it.
    pub proof fn lemma_color_of_pixel(&self, world: &World, camera: &Camera, x: int, y: int)
        requires
            self.wf(),
            0 <= x < self.res_x,
            0 <= y < self.res_y,
        ensures
            ({
                let rank = tile_rank(
                    self.res_x as int,
                    self.res_y as int,
                    self.bucket_size as int,
                    x,
                    y,
                );
                let tile = self.plan()[rank];
                &&& 0 <= rank < self.plan().len()
                &&& tile.covers(x, y)
                &&& self.color_from(world, camera, self.plan(), 0, x, y) == self.pixel_color(
                    world,
                    camera,
                    tile.grid(),
                    x - tile.pos_x,
                    y - tile.pos_y,
                )
            }),
    {
        let rank = tile_rank(self.res_x as int, self.res_y as int, self.bucket_size as int, x, y);
        lemma_tiles_divide(self.res_x as int, self.res_y as int, self.bucket_size as int, x, y, 0);
        lemma_tiles_divide(
            self.res_x as int,
            self.res_y as int,
            self.bucket_size as int,
            x,
            y,
            rank,
        );
        self.lemma_color_skips(world, camera, x, y, 0);
    }

    /// The tiles before that of a pixel do not give it its colour.
    proof fn lemma_color_skips(&self, world: &World, camera: &Camera, x: int, y: int, k: int)
        requires
            self.wf(),
            0 <= x < self.res_x,
            0 <= y < self.res_y,
            0 <= k <= tile_rank(self.res_x as int, self.res_y as int, self.bucket_size as int, x, y)
                < self.plan().len(),
        ensures
            self.color_from(world, camera, self.plan(), k, x, y) == self.color_from(
                world,
                camera,
                self.plan(),
                tile_rank(self.res_x as int, self.res_y as int, self.bucket_size as int, x, y),
                x,
                y,
            ),
        decreases tile_rank(self.res_x as int, self.res_y as int, self.bucket_size as int, x, y) - k,
    {
        let rank = tile_rank(self.res_x as int, self.res_y as int, self.bucket_size as int, x, y);
        if k < rank {
            lemma_tiles_divide(
                self.res_x as int,
                self.res_y as int,
                self.bucket_size as int,
                x,
                y,
                k,
            );
            self.lemma_color_skips(world, camera, x, y, k + 1);
        }
    }
}

} // verus!
