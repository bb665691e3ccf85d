//! Samples, the areas that receive them, and the samplers that place them.
//!
//! The position of a sample is a pair of exact ratios, in the units of the
//! area that receives it: for a block of an image, in pixels.
pub mod samplers;

use crate::color::RGBA32;
use crate::exact::Ratio;
use crate::math::Vector2;
use crate::sampler::samplers::{DefaultSampler, HaltonSampler};
use vstd::arithmetic::div_mod::lemma_fundamental_div_mod_converse;
use vstd::prelude::*;

verus! {

/// The greatest size of an area, in any of its measures.
pub const AREA_LIMIT: u32 = 65535;

/// The greatest denominator of a coordinate of a point of a distribution.
pub const GRAIN_LIMIT: i64 = 1048576;

/// The greatest rate of a sampler that follows the Halton sequence in the
/// bases 2 and 3: a third of `GRAIN_LIMIT`, so that no point of the
/// sequence has a denominator above it.
pub const RATE_LIMIT: u32 = 349525;

/// A sample, which stands for one ray cast into the scene. The samples of a
/// pixel are combined into its colour.
#[derive(Clone, Copy, Debug)]
pub struct Sample {
    /// Where the sample lies in its area.
    pub position: Vector2<Ratio>,
    pub color: RGBA32,
}

impl Sample {
    /// A black sample at `(x, y)`.
    pub fn new(x: Ratio, y: Ratio) -> (s: Sample)
        ensures
            s == Sample::at(x, y),
    {
        Sample { position: Vector2 { x: x, y: y }, color: RGBA32::new_black() }
    }

    /// The black sample at `(x, y)`.
    pub open spec fn at(x: Ratio, y: Ratio) -> Sample {
        Sample { position: Vector2 { x: x, y: y }, color: RGBA32 { r: 0, g: 0, b: 0, a: u32::MAX } }
    }

    pub fn position(&self) -> (p: Vector2<Ratio>)
        ensures
            p == self.position,
    {
        self.position
    }
}

/// The cell, among `cells` equal cells that divide the range from `offset`
/// to `offset + extent`, in which the coordinate `pos` falls.
pub open spec fn cell_index(pos: Ratio, offset: int, extent: int, cells: int) -> int {
    ((pos.num - offset * pos.den) * cells) / (pos.den * extent)
}

/// The coordinate at the fraction `p` of the cell `cell`, among `cells`
/// equal cells that divide the range from `offset` to `offset + extent`:
/// `(cell + p) * extent / cells + offset`.
pub open spec fn place(p: Ratio, cell: int, offset: int, extent: int, cells: int) -> Ratio {
    Ratio {
        num: ((cell * p.den + p.num) * extent + offset * (p.den * cells)) as i64,
        den: (p.den * cells) as i64,
    }
}

/// A fraction of a cell: at least zero and less than one, with a
/// denominator within the limit.
pub open spec fn is_fraction(p: Ratio) -> bool {
    0 <= p.num < p.den <= GRAIN_LIMIT
}

/// A coordinate placed in a cell is an exact ratio of 64-bit integers, and
/// falls in that cell.
pub proof fn lemma_place(p: Ratio, cell: int, offset: int, extent: int, cells: int)
    requires
        is_fraction(p),
        0 <= cell < cells <= AREA_LIMIT,
        0 <= offset <= AREA_LIMIT,
        0 < extent <= AREA_LIMIT,
    ensures
        place(p, cell, offset, extent, cells).wf(),
        place(p, cell, offset, extent, cells).num == (cell * p.den + p.num) * extent + offset * (
        p.den * cells),
        place(p, cell, offset, extent, cells).den == p.den * cells,
        0 <= (cell * p.den + p.num) * extent + offset * (p.den * cells) <= 0x7fff_ffff_ffff_ffff,
        0 < p.den * cells <= 0x7fff_ffff_ffff_ffff,
        0 <= cell * p.den <= 68718428160,
        cell_index(place(p, cell, offset, extent, cells), offset, extent, cells) == cell,
{
    let d = p.den as int;
    let n = p.num as int;
    assert(0 <= cell * d <= 65535 * 1048576) by (nonlinear_arith)
        requires
            0 <= cell <= 65535,
            0 < d <= 1048576,
    ;
    assert(0 < d * cells <= 1048576 * 65535) by (nonlinear_arith)
        requires
            0 < cells <= 65535,
            0 < d <= 1048576,
    ;
    let a = cell * d + n;
    assert(0 <= a * extent <= (65535 * 1048576 + 1048576) * 65535) by (nonlinear_arith)
        requires
            0 <= a <= 65535 * 1048576 + 1048576,
            0 < extent <= 65535,
    ;
    assert(0 <= offset * (d * cells) <= 65535 * (1048576 * 65535)) by (nonlinear_arith)
        requires
            0 <= offset <= 65535,
            0 < d * cells <= 1048576 * 65535,
    ;
    let q = place(p, cell, offset, extent, cells);
    let top = (q.num - offset * q.den) * cells;
    let bottom = q.den * extent;
    assert(top == cell * bottom + n * extent * cells) by (nonlinear_arith)
        requires
            top == ((cell * d + n) * extent + offset * (d * cells) - offset * (d * cells)) * cells,
            bottom == (d * cells) * extent,
    ;
    assert(0 <= n * extent * cells < bottom) by (nonlinear_arith)
        requires
            0 <= n < d,
            0 < extent,
            0 < cells,
            bottom == (d * cells) * extent,
    ;
    lemma_fundamental_div_mod_converse(top, bottom, cell, n * extent * cells);
}

/// A rectangular area that can be sampled: a block of an image, or the
/// surface of a light. It is divided into a grid of cells, its pixels.
/// The place and the size of an area, and the grid that divides it into
/// cells.
pub struct Grid {
    /// The width and the height of the area.
    pub dimensions: (u32, u32),
    /// The least corner of the area.
    pub offset: Vector2<u32>,
    /// The number of columns of the grid.
    pub pixel_width: u32,
    /// The number of lines of the grid.
    pub pixel_height: u32,
}

impl Grid {
    /// The column of the cell in which the sample falls.
    pub open spec fn column_of(&self, sample: Sample) -> int {
        cell_index(
            sample.position.x,
            self.offset.x as int,
            self.dimensions.0 as int,
            self.pixel_width as int,
        )
    }

    /// The line of the cell in which the sample falls.
    pub open spec fn line_of(&self, sample: Sample) -> int {
        cell_index(
            sample.position.y,
            self.offset.y as int,
            self.dimensions.1 as int,
            self.pixel_height as int,
        )
    }

    /// The samples of one cell: one for each point of the distribution,
    /// placed in the cell at column `x` and line `y`.
    pub open spec fn samples_of_cell(&self, distribution: Seq<Vector2<Ratio>>, x: int, y: int) -> Seq<
        Sample,
    > {
        Seq::new(
            distribution.len(),
            |k: int|
                Sample::at(
                    place(
                        distribution[k].x,
                        x,
                        self.offset.x as int,
                        self.dimensions.0 as int,
                        self.pixel_width as int,
                    ),
                    place(
                        distribution[k].y,
                        y,
                        self.offset.y as int,
                        self.dimensions.1 as int,
                        self.pixel_height as int,
                    ),
                ),
        )
    }
}

pub trait SamplableArea: Sized {
    /// The area is in a state in which it can receive samples.
    spec fn area_wf(&self) -> bool;

    /// The place, the size and the grid of the area.
    spec fn grid(&self) -> Grid;

    /// The samples that the cell at column `x` and line `y` has received,
    /// in order.
    spec fn pixel_samples(&self, x: int, y: int) -> Seq<Sample>;

    fn dimensions(&self) -> (d: (u32, u32))
        requires
            self.area_wf(),
        ensures
            d == self.grid().dimensions,
            0 < d.0 <= AREA_LIMIT,
            0 < d.1 <= AREA_LIMIT,
    ;

    fn offset(&self) -> (o: Vector2<u32>)
        requires
            self.area_wf(),
        ensures
            o == self.grid().offset,
            o.x <= AREA_LIMIT,
            o.y <= AREA_LIMIT,
    ;

    fn pixel_width(&self) -> (w: u32)
        requires
            self.area_wf(),
        ensures
            w == self.grid().pixel_width,
            0 < w <= AREA_LIMIT,
    ;

    fn pixel_height(&self) -> (h: u32)
        requires
            self.area_wf(),
        ensures
            h == self.grid().pixel_height,
            0 < h <= AREA_LIMIT,
    ;

    /// Gives the sample to the cell in which it falls.
    fn add_sample(&mut self, sample: Sample)
        requires
            old(self).area_wf(),
            sample.position.x.wf(),
            sample.position.y.wf(),
            sample.position.x.num >= 0,
            sample.position.y.num >= 0,
            0 <= old(self).grid().column_of(sample) < old(self).grid().pixel_width,
            0 <= old(self).grid().line_of(sample) < old(self).grid().pixel_height,
        ensures
            final(self).area_wf(),
            final(self).grid() == old(self).grid(),
            final(self).pixel_samples(old(self).grid().column_of(sample), old(self).grid().line_of(sample))
                == old(self).pixel_samples(
                old(self).grid().column_of(sample),
                old(self).grid().line_of(sample),
            ).push(sample),
            forall|x: int, y: int|
                0 <= x < old(self).grid().pixel_width && 0 <= y < old(self).grid().pixel_height && (x
                    != old(self).grid().column_of(sample) || y != old(self).grid().line_of(sample))
                    ==> #[trigger] final(self).pixel_samples(x, y) == old(self).pixel_samples(x, y),
    ;
}

/// Computes the place of a coordinate in a cell.
fn place_in_cell(p: Ratio, cell: u32, offset: u32, extent: u32, cells: u32) -> (r: Ratio)
    requires
        is_fraction(p),
        cell < cells <= AREA_LIMIT,
        offset <= AREA_LIMIT,
        0 < extent <= AREA_LIMIT,
    ensures
        r == place(p, cell as int, offset as int, extent as int, cells as int),
        r.wf(),
        r.num >= 0,
        cell_index(r, offset as int, extent as int, cells as int) == cell,
{
    proof {
        lemma_place(p, cell as int, offset as int, extent as int, cells as int);
        assert((cell * p.den + p.num) * extent >= 0) by (nonlinear_arith)
            requires
                cell * p.den + p.num >= 0,
                extent > 0,
        ;
        assert(offset * (p.den * cells) >= 0) by (nonlinear_arith)
            requires
                offset >= 0,
                p.den * cells > 0,
        ;
    }
    let den = p.den * (cells as i64);
    let within = (cell as i64) * p.den + p.num;
    Ratio { num: within * (extent as i64) + (offset as i64) * den, den: den }
}

/// A way of placing samples in the cells of an area.
pub trait Sampler {
    /// The sampler can be used.
    spec fn sampler_wf(&self) -> bool;

    /// The distribution of the sampler: the places of the samples within a
    /// cell, as fractions of the cell.
    spec fn distribution(&self) -> Seq<Vector2<Ratio>>;

    fn get_sample_distribution(&self) -> (d: Vec<Vector2<Ratio>>)
        requires
            self.sampler_wf(),
        ensures
            d@ == self.distribution(),
            forall|k: int|
                0 <= k < d@.len() ==> is_fraction((#[trigger] d@[k]).x) && is_fraction(d@[k].y),
    ;

    /// Gives every cell of the area one sample for each point of the
    /// distribution, placed in that cell, in the order of the distribution.
    fn create_samples<A: SamplableArea>(&self, area: &mut A)
        requires
            self.sampler_wf(),
            old(area).area_wf(),
        ensures
            final(area).area_wf(),
            final(area).grid() == old(area).grid(),
            forall|x: int, y: int|
                0 <= x < old(area).grid().pixel_width && 0 <= y < old(area).grid().pixel_height
                    ==> #[trigger] final(area).pixel_samples(x, y) == old(area).pixel_samples(x, y)
                    + old(area).grid().samples_of_cell(self.distribution(), x, y),
            forall|x: int, y: int, k: int|
                0 <= x < old(area).grid().pixel_width && 0 <= y < old(area).grid().pixel_height && 0
                    <= k < self.distribution().len() ==> {
                    let s = #[trigger] old(area).grid().samples_of_cell(self.distribution(), x, y)[k];
                    s.position.x.wf() && s.position.y.wf()
                },
    {
        let offset = area.offset();
        let (width, height) = area.dimensions();
        let pixel_width = area.pixel_width();
        let pixel_height = area.pixel_height();
        let distrib = self.get_sample_distribution();
        let ghost grid = area.grid();
        proof {
            assert forall|x: int, y: int, k: int|
                0 <= x < grid.pixel_width && 0 <= y < grid.pixel_height && 0 <= k
                    < distrib@.len() implies {
                let s = #[trigger] grid.samples_of_cell(distrib@, x, y)[k];
                s.position.x.wf() && s.position.y.wf()
            } by {
                lemma_place(
                    distrib@[k].x,
                    x,
                    grid.offset.x as int,
                    grid.dimensions.0 as int,
                    grid.pixel_width as int,
                );
                lemma_place(
                    distrib@[k].y,
                    y,
                    grid.offset.y as int,
                    grid.dimensions.1 as int,
                    grid.pixel_height as int,
                );
            }
        }

        let mut y: u32 = 0;
        while y < pixel_height
            invariant
                y <= pixel_height,
                area.area_wf(),
                area.grid() == grid,
                grid == old(area).grid(),
                offset == grid.offset,
                (width, height) == grid.dimensions,
                pixel_width == grid.pixel_width,
                pixel_height == grid.pixel_height,
                0 < width <= AREA_LIMIT,
                0 < height <= AREA_LIMIT,
                0 < pixel_width <= AREA_LIMIT,
                0 < pixel_height <= AREA_LIMIT,
                offset.x <= AREA_LIMIT,
                offset.y <= AREA_LIMIT,
                distrib@ == self.distribution(),
                forall|k: int|
                    0 <= k < distrib@.len() ==> is_fraction((#[trigger] distrib@[k]).x) && is_fraction(
                        distrib@[k].y,
                    ),
                forall|i: int, j: int|
                    0 <= i < pixel_width && 0 <= j < pixel_height ==> #[trigger] area.pixel_samples(
                        i,
                        j,
                    ) == (if j < y {
                        old(area).pixel_samples(i, j) + grid.samples_of_cell(distrib@, i, j)
                    } else {
                        old(area).pixel_samples(i, j)
                    }),
            decreases pixel_height - y,
        {
            let mut x: u32 = 0;
            while x < pixel_width
                invariant
                    x <= pixel_width,
                    y < pixel_height,
                    area.area_wf(),
                    area.grid() == grid,
                    grid == old(area).grid(),
                    offset == grid.offset,
                    (width, height) == grid.dimensions,
                    pixel_width == grid.pixel_width,
                    pixel_height == grid.pixel_height,
                    0 < width <= AREA_LIMIT,
                    0 < height <= AREA_LIMIT,
                    0 < pixel_width <= AREA_LIMIT,
                    0 < pixel_height <= AREA_LIMIT,
                    offset.x <= AREA_LIMIT,
                    offset.y <= AREA_LIMIT,
                    distrib@ == self.distribution(),
                    forall|k: int|
                        0 <= k < distrib@.len() ==> is_fraction((#[trigger] distrib@[k]).x)
                            && is_fraction(distrib@[k].y),
                    forall|i: int, j: int|
                        0 <= i < pixel_width && 0 <= j < pixel_height
                            ==> #[trigger] area.pixel_samples(i, j) == (if j < y || (j == y && i
                            < x) {
                            old(area).pixel_samples(i, j) + grid.samples_of_cell(distrib@, i, j)
                        } else {
                            old(area).pixel_samples(i, j)
                        }),
                decreases pixel_width - x,
            {
                let mut k: usize = 0;
                while k < distrib.len()
                    invariant
                        k <= distrib@.len(),
                        x < pixel_width,
                        y < pixel_height,
                        area.area_wf(),
                        area.grid() == grid,
                        grid == old(area).grid(),
                        offset == grid.offset,
                        (width, height) == grid.dimensions,
                        pixel_width == grid.pixel_width,
                        pixel_height == grid.pixel_height,
                        0 < width <= AREA_LIMIT,
                        0 < height <= AREA_LIMIT,
                        0 < pixel_width <= AREA_LIMIT,
                        0 < pixel_height <= AREA_LIMIT,
                        offset.x <= AREA_LIMIT,
                        offset.y <= AREA_LIMIT,
                        distrib@ == self.distribution(),
                        forall|k: int|
                            0 <= k < distrib@.len() ==> is_fraction((#[trigger] distrib@[k]).x)
                                && is_fraction(distrib@[k].y),
                        forall|i: int, j: int|
                            0 <= i < pixel_width && 0 <= j < pixel_height && (i != x || j != y)
                                ==> #[trigger] area.pixel_samples(i, j) == (if j < y || (j == y
                                && i < x) {
                                old(area).pixel_samples(i, j) + grid.samples_of_cell(distrib@, i, j)
                            } else {
                                old(area).pixel_samples(i, j)
                            }),
                        area.pixel_samples(x as int, y as int) == old(area).pixel_samples(
                            x as int,
                            y as int,
                        ) + grid.samples_of_cell(distrib@, x as int, y as int).take(k as int),
                    decreases distrib@.len() - k,
                {
                    let point = distrib[k];
                    let sample_x = place_in_cell(point.x, x, offset.x, width, pixel_width);
                    let sample_y = place_in_cell(point.y, y, offset.y, height, pixel_height);
                    let sample = Sample::new(sample_x, sample_y);
                    proof {
                        let cells = grid.samples_of_cell(distrib@, x as int, y as int);
                        assert(cells[k as int] == sample);
                        assert(cells.take(k + 1) == cells.take(k as int).push(sample));
                        assert((old(area).pixel_samples(x as int, y as int) + cells.take(
                            k as int,
                        )).push(sample) == old(area).pixel_samples(x as int, y as int)
                            + cells.take(k + 1));
                    }
                    area.add_sample(sample);
                    k = k + 1;
                }
                proof {
                    let cells = grid.samples_of_cell(distrib@, x as int, y as int);
                    assert(cells.take(distrib@.len() as int) == cells);
                }
                x = x + 1;
            }
            y = y + 1;
        }
    }
}

/// The kinds of samplers, each with the number of samples per pixel.
#[derive(Debug)]
pub enum SamplerFactory {
    HaltonSampler { subdivision_sampling: u32 },
    DefaultSampler { subdivision_sampling: u32 },
}

} // verus!

verus! {

impl SamplerFactory {
    /// The sampler of the kind and the rate that the factory names.
    pub fn create_sampler(&self) -> (s: crate::sampler::samplers::AnySampler)
        ensures
            s == self.sampler(),
            *self is DefaultSampler || self->HaltonSampler_subdivision_sampling <= RATE_LIMIT
                ==> s.sampler_wf(),
            (match *self {
                SamplerFactory::HaltonSampler { subdivision_sampling } => subdivision_sampling,
                SamplerFactory::DefaultSampler { subdivision_sampling } => subdivision_sampling,
            }) <= 65536 ==> s.distribution().len() <= 65536,
    {
        match *self {
            SamplerFactory::HaltonSampler { subdivision_sampling } => {
                crate::sampler::samplers::AnySampler::Halton(HaltonSampler::new(subdivision_sampling))
            },
            SamplerFactory::DefaultSampler { subdivision_sampling } => {
                proof {
                    crate::sampler::samplers::lemma_nearest_root(subdivision_sampling);
                }
                crate::sampler::samplers::AnySampler::Regular(
                    DefaultSampler::new(subdivision_sampling),
                )
            },
        }
    }

    /// The sampler that the factory names.
    pub open spec fn sampler(&self) -> crate::sampler::samplers::AnySampler {
        match *self {
            SamplerFactory::HaltonSampler { subdivision_sampling } => {
                crate::sampler::samplers::AnySampler::Halton(
                    HaltonSampler { sample_rate: subdivision_sampling },
                )
            },
            SamplerFactory::DefaultSampler { subdivision_sampling } => {
                crate::sampler::samplers::AnySampler::Regular(
                    DefaultSampler {
                        sample_rate: subdivision_sampling,
                        sample_square_root: crate::sampler::samplers::nearest_root(
                            subdivision_sampling,
                        ),
                    },
                )
            },
        }
    }
}

} // verus!
