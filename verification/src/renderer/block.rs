//! A rectangular part of the image: the unit of work of the renderer. The
//! sampler fills its pixels with samples, and the filter reads them to make
//! the colours of the image.
use crate::math::Vector2;
use crate::renderer::Pixel;
use crate::sampler::{cell_index, Grid, SamplableArea, Sample, AREA_LIMIT};
use vstd::arithmetic::div_mod::lemma_fundamental_div_mod_converse;
use vstd::prelude::*;

verus! {

/// A block of `size_x` columns and `size_y` lines of pixels, whose first
/// pixel is at column `pos_x` and line `pos_y` of the image.
#[derive(Clone)]
pub struct Block {
    pub pixels: Vec<Pixel>,
    pub size_x: u32,
    pub size_y: u32,
    pub pos_x: u32,
    pub pos_y: u32,
}

/// The rank, in a block of `size_x` columns, of the pixel at column `x` and
/// line `y`: the pixels are kept line after line.
pub open spec fn rank(x: int, y: int, size_x: int) -> int {
    x + y * size_x
}

/// The rank of a pixel of a block is within the block.
pub proof fn lemma_rank(x: int, y: int, size_x: int, size_y: int)
    requires
        0 <= x < size_x,
        0 <= y < size_y,
    ensures
        0 <= rank(x, y, size_x) < size_x * size_y,
        0 <= y * size_x,
{
    assert(0 <= x + y * size_x < size_x * size_y && 0 <= y * size_x) by (nonlinear_arith)
        requires
            0 <= x < size_x,
            0 <= y < size_y,
    ;
}

/// Two pixels of a block with the same rank are the same pixel.
pub proof fn lemma_rank_injective(x: int, y: int, i: int, j: int, size_x: int)
    requires
        0 <= x < size_x,
        0 <= i < size_x,
        0 <= y,
        0 <= j,
        rank(x, y, size_x) == rank(i, j, size_x),
    ensures
        x == i && y == j,
{
    if y < j {
        assert(x + y * size_x < i + j * size_x) by (nonlinear_arith)
            requires
                0 <= x < size_x,
                0 <= i,
                0 <= y < j,
        ;
    } else if j < y {
        assert(i + j * size_x < x + y * size_x) by (nonlinear_arith)
            requires
                0 <= i < size_x,
                0 <= x,
                0 <= j < y,
        ;
    }
}

/// The pixel of a block in which a coordinate falls is the whole part of
/// the coordinate, less the place of the block.
pub proof fn lemma_cell_of_block(num: int, den: int, offset: int, size: int)
    requires
        den > 0,
        size > 0,
    ensures
        cell_index(crate::exact::Ratio { num: num as i64, den: den as i64 }, offset, size, size)
            == ((num as i64) as int) / ((den as i64) as int) - offset || (num as i64) != num || (
        den as i64) != den,
{
    if (num as i64) == num && (den as i64) == den {
        let q = num / den;
        let r = num % den;
        assert(num == q * den + r && 0 <= r < den) by (nonlinear_arith)
            requires
                den > 0,
                q == num / den,
                r == num % den,
        ;
        assert((num - offset * den) * size == (q - offset) * (den * size) + r * size) by (nonlinear_arith)
            requires
                num == q * den + r,
        ;
        assert(0 <= r * size < den * size) by (nonlinear_arith)
            requires
                0 <= r < den,
                size > 0,
        ;
        lemma_fundamental_div_mod_converse(
            (num - offset * den) * size,
            den * size,
            q - offset,
            r * size,
        );
    }
}

impl Block {
    /// The block has one pixel for each column and line, each at its rank
    /// and knowing its own place.
    pub open spec fn wf(&self) -> bool {
        &&& self.size_x <= AREA_LIMIT
        &&& self.size_y <= AREA_LIMIT
        &&& self.pos_x <= AREA_LIMIT
        &&& self.pos_y <= AREA_LIMIT
        &&& self.pixels@.len() == self.size_x * self.size_y
        &&& forall|x: int, y: int|
            0 <= x < self.size_x && 0 <= y < self.size_y ==> {
                &&& self.pixels@[#[trigger] rank(x, y, self.size_x as int)].x == x
                &&& self.pixels@[rank(x, y, self.size_x as int)].y == y
            }
    }

    /// The pixel at column `x` and line `y` of the block.
    pub open spec fn pixel_at(&self, x: int, y: int) -> Pixel {
        self.pixels@[rank(x, y, self.size_x as int)]
    }

    /// A block whose pixels have no samples yet.
    pub fn new(size_x: u32, size_y: u32, pos_x: u32, pos_y: u32) -> (b: Block)
        requires
            size_x <= AREA_LIMIT,
            size_y <= AREA_LIMIT,
            pos_x <= AREA_LIMIT,
            pos_y <= AREA_LIMIT,
        ensures
            b.wf(),
            b.size_x == size_x,
            b.size_y == size_y,
            b.pos_x == pos_x,
            b.pos_y == pos_y,
            forall|x: int, y: int|
                0 <= x < size_x && 0 <= y < size_y ==> (#[trigger] b.pixel_at(x, y)).samples@.len()
                    == 0,
    {
        let mut pixels: Vec<Pixel> = Vec::new();
        // The order of the two loops matters.
        let mut y: u32 = 0;
        while y < size_y
            invariant
                y <= size_y,
                pixels@.len() == y * size_x,
                forall|i: int, j: int|
                    0 <= i < size_x && 0 <= j < y ==> {
                        &&& pixels@[#[trigger] rank(i, j, size_x as int)].x == i
                        &&& pixels@[rank(i, j, size_x as int)].y == j
                        &&& pixels@[rank(i, j, size_x as int)].samples@.len() == 0
                    },
            decreases size_y - y,
        {
            let mut x: u32 = 0;
            while x < size_x
                invariant
                    x <= size_x,
                    y < size_y,
                    pixels@.len() == y * size_x + x,
                    forall|i: int, j: int|
                        0 <= i < size_x && 0 <= j < y ==> {
                            &&& pixels@[#[trigger] rank(i, j, size_x as int)].x == i
                            &&& pixels@[rank(i, j, size_x as int)].y == j
                            &&& pixels@[rank(i, j, size_x as int)].samples@.len() == 0
                        },
                    forall|i: int|
                        0 <= i < x ==> {
                            &&& pixels@[#[trigger] rank(i, y as int, size_x as int)].x == i
                            &&& pixels@[rank(i, y as int, size_x as int)].y == y
                            &&& pixels@[rank(i, y as int, size_x as int)].samples@.len() == 0
                        },
                decreases size_x - x,
            {
                proof {
                    assert forall|i: int, j: int| 0 <= i < size_x && 0 <= j < y implies 0
                        <= #[trigger] rank(i, j, size_x as int) < y * size_x by {
                        lemma_rank(i, j, size_x as int, y as int);
                    }
                }
                pixels.push(Pixel::new(x, y));
                x = x + 1;
            }
            proof {
                assert((y + 1) * size_x == y * size_x + size_x) by (nonlinear_arith);
            }
            y = y + 1;
        }
        proof {
            assert(size_y * size_x == size_x * size_y) by (nonlinear_arith);
        }
        Block { pixels: pixels, size_x: size_x, size_y: size_y, pos_x: pos_x, pos_y: pos_y }
    }

    pub fn position_x(&self) -> (x: u32)
        ensures
            x == self.pos_x,
    {
        self.pos_x
    }

    pub fn position_y(&self) -> (y: u32)
        ensures
            y == self.pos_y,
    {
        self.pos_y
    }

    pub fn dimensions(&self) -> (d: (u32, u32))
        ensures
            d == (self.size_x, self.size_y),
    {
        (self.size_x, self.size_y)
    }

    /// The pixel at column `x` and line `y` of the block.
    pub fn get_pixel(&self, x: u32, y: u32) -> (p: &Pixel)
        requires
            self.wf(),
            x < self.size_x,
            y < self.size_y,
        ensures
            *p == self.pixel_at(x as int, y as int),
            p.x == x,
            p.y == y,
    {
        proof {
            lemma_rank(x as int, y as int, self.size_x as int, self.size_y as int);
            assert(y * self.size_x <= 65535 * 65535) by (nonlinear_arith)
                requires
                    y <= 65535,
                    self.size_x <= 65535,
            ;
        }
        &self.pixels[(x + y * self.size_x) as usize]
    }

    /// The pixels of the block, line after line.
    pub fn pixels(&self) -> (p: &Vec<Pixel>)
        ensures
            p@ == self.pixels@,
    {
        &self.pixels
    }
}

impl SamplableArea for Block {
    /// A block takes samples when it is well formed and not empty.
    open spec fn area_wf(&self) -> bool {
        self.wf() && self.size_x > 0 && self.size_y > 0
    }

    /// The cells of a block are its pixels, each of size one.
    open spec fn grid(&self) -> Grid {
        Grid {
            dimensions: (self.size_x, self.size_y),
            offset: Vector2 { x: self.pos_x, y: self.pos_y },
            pixel_width: self.size_x,
            pixel_height: self.size_y,
        }
    }

    open spec fn pixel_samples(&self, x: int, y: int) -> Seq<Sample> {
        self.pixel_at(x, y).samples@
    }

    fn dimensions(&self) -> (d: (u32, u32)) {
        (self.size_x, self.size_y)
    }

    fn offset(&self) -> (o: Vector2<u32>) {
        Vector2 { x: self.pos_x, y: self.pos_y }
    }

    fn pixel_width(&self) -> (w: u32) {
        self.size_x
    }

    fn pixel_height(&self) -> (h: u32) {
        self.size_y
    }

    fn add_sample(&mut self, sample: Sample) {
        let position = sample.position();
        proof {
            lemma_cell_of_block(
                position.x.num as int,
                position.x.den as int,
                self.pos_x as int,
                self.size_x as int,
            );
            lemma_cell_of_block(
                position.y.num as int,
                position.y.den as int,
                self.pos_y as int,
                self.size_y as int,
            );
        }
        let x = (position.x.num / position.x.den - self.pos_x as i64) as u32;
        let y = (position.y.num / position.y.den - self.pos_y as i64) as u32;
        proof {
            lemma_rank(x as int, y as int, self.size_x as int, self.size_y as int);
            assert forall|i: int, j: int|
                0 <= i < self.size_x && 0 <= j < self.size_y && (i != x || j != y) implies #[trigger] rank(
                i,
                j,
                self.size_x as int,
            ) != rank(x as int, y as int, self.size_x as int) && 0 <= rank(i, j, self.size_x as int)
                < self.size_x * self.size_y by {
                lemma_rank(i, j, self.size_x as int, self.size_y as int);
                if rank(i, j, self.size_x as int) == rank(x as int, y as int, self.size_x as int) {
                    lemma_rank_injective(i, j, x as int, y as int, self.size_x as int);
                }
            }
        }
        proof {
            assert(y * self.size_x <= 65535 * 65535) by (nonlinear_arith)
                requires
                    y <= 65535,
                    self.size_x <= 65535,
            ;
        }
        let index = (x + y * self.size_x) as usize;
        let pixel = &mut self.pixels[index];
        pixel.add_sample(sample);
    }
}

} // verus!
