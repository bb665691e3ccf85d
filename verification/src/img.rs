//! A raster of pixels, addressed by column and line.
use crate::color::RGBA32;
use vstd::prelude::*;

verus! {

/// A pixel that can be written out with 8 bits per channel.
pub trait Pixel: Copy {
    /// The red, green and blue levels of the pixel.
    spec fn rgb_spec(&self) -> (u8, u8, u8);

    /// The red, green, blue and alpha levels of the pixel.
    spec fn rgba_spec(&self) -> (u8, u8, u8, u8);

    fn to_rgb_pixel(&self) -> (p: (u8, u8, u8))
        ensures
            p == self.rgb_spec(),
    ;

    fn to_rgba_pixel(&self) -> (p: (u8, u8, u8, u8))
        ensures
            p == self.rgba_spec(),
    ;
}

/// The place in the buffer of the pixel at column `x` and line `y` of an
/// image of `height` lines.
pub open spec fn cell(x: int, y: int, height: int) -> int {
    x * height + y
}

/// An image of `width` columns and `height` lines, kept as one buffer,
/// column after column.
#[derive(Clone)]
pub struct Image<T: Pixel> {
    width: usize,
    height: usize,
    pub pixels: Vec<T>,
}

impl<T: Pixel> Image<T> {
    /// The buffer holds one pixel for each column and line, and the
    /// dimensions fit in 32 bits.
    pub closed spec fn wf(&self) -> bool {
        &&& self.pixels@.len() == self.width * self.height
        &&& self.width <= u32::MAX
        &&& self.height <= u32::MAX
    }

    /// The number of columns.
    pub closed spec fn spec_width(&self) -> nat {
        self.width as nat
    }

    /// The number of lines.
    pub closed spec fn spec_height(&self) -> nat {
        self.height as nat
    }

    /// The pixel at column `x` and line `y`.
    pub closed spec fn at(&self, x: int, y: int) -> T {
        self.pixels@[cell(x, y, self.height as int)]
    }

    /// An index made of a column and a line is within the buffer.
    proof fn lemma_index(x: int, y: int, width: int, height: int)
        requires
            0 <= x < width,
            0 <= y < height,
        ensures
            0 <= x * height + y < width * height,
    {
        assert(0 <= x * height + y < width * height) by (nonlinear_arith)
            requires
                0 <= x < width,
                0 <= y < height,
        ;
    }

    /// The image whose columns are the elements of `vec_vec`, which must
    /// all have the length of the first.
    pub fn from_vec_vec(vec_vec: &[Vec<T>]) -> (img: Image<T>)
        requires
            0 < vec_vec@.len() <= u32::MAX,
            vec_vec@[0]@.len() <= u32::MAX,
            vec_vec@.len() * vec_vec@[0]@.len() <= usize::MAX,
            forall|i: int| 0 <= i < vec_vec@.len() ==> (#[trigger] vec_vec@[i])@.len() == vec_vec@[0]@.len(),
        ensures
            img.wf(),
            img.spec_width() == vec_vec@.len(),
            img.spec_height() == vec_vec@[0]@.len(),
            forall|x: int, y: int|
                0 <= x < img.spec_width() && 0 <= y < img.spec_height() ==> img.at(x, y)
                    == #[trigger] vec_vec@[x]@[y],
    {
        let width = vec_vec.len();
        let height = vec_vec[0].len();
        let mut pixels: Vec<T> = Vec::new();
        let mut x: usize = 0;
        while x < width
            invariant
                x <= width,
                width == vec_vec@.len(),
                height == vec_vec@[0]@.len(),
                width * height <= usize::MAX,
                forall|i: int| 0 <= i < vec_vec@.len() ==> (#[trigger] vec_vec@[i])@.len() == height,
                pixels@.len() == x * height,
                forall|i: int, j: int|
                    0 <= i < x && 0 <= j < height ==> pixels@[#[trigger] cell(i, j, height as int)]
                        == vec_vec@[i]@[j],
            decreases width - x,
        {
            let column = &vec_vec[x];
            let mut y: usize = 0;
            while y < height
                invariant
                    y <= height,
                    x < width,
                    column@ == vec_vec@[x as int]@,
                    column@.len() == height,
                    pixels@.len() == x * height + y,
                    forall|i: int, j: int|
                        0 <= i < x && 0 <= j < height ==> pixels@[#[trigger] cell(i, j, height as int)]
                            == vec_vec@[i]@[j],
                    forall|j: int| 0 <= j < y ==> pixels@[x * height + j] == #[trigger] column@[j],
                decreases height - y,
            {
                proof {
                    assert forall|i: int, j: int| 0 <= i < x && 0 <= j < height implies 0
                        <= #[trigger] cell(i, j, height as int) < x * height by {
                        Self::lemma_index(i, j, x as int, height as int);
                    }
                }
                pixels.push(column[y]);
                y = y + 1;
            }
            proof {
                assert((x + 1) * height == x * height + height) by (nonlinear_arith);
                assert forall|i: int, j: int| 0 <= i < x + 1 && 0 <= j < height implies pixels@[#[trigger] cell(
                    i,
                    j,
                    height as int,
                )] == vec_vec@[i]@[j] by {
                    if i == x {
                        assert(pixels@[x * height + j] == column@[j]);
                    }
                }
            }
            x = x + 1;
        }
        Image { width: width, height: height, pixels: pixels }
    }

    pub fn get_pixel_at(&self, x: u32, y: u32) -> (px: T)
        requires
            self.wf(),
            x < self.spec_width(),
            y < self.spec_height(),
        ensures
            px == self.at(x as int, y as int),
    {
        proof {
            Self::lemma_index(x as int, y as int, self.width as int, self.height as int);
            assert(self.pixels.len() <= usize::MAX);
            assert(x * self.height >= 0) by (nonlinear_arith)
                requires
                    x >= 0,
                    self.height >= 0,
            ;
        }
        self.pixels[x as usize * self.height + y as usize]
    }

    pub fn write_pixel_at(&mut self, x: u32, y: u32, px: T)
        requires
            old(self).wf(),
            x < old(self).spec_width(),
            y < old(self).spec_height(),
        ensures
            final(self).wf(),
            final(self).spec_width() == old(self).spec_width(),
            final(self).spec_height() == old(self).spec_height(),
            final(self).at(x as int, y as int) == px,
            forall|i: int, j: int|
                0 <= i < old(self).spec_width() && 0 <= j < old(self).spec_height() && (i != x || j
                    != y) ==> #[trigger] final(self).at(i, j) == old(self).at(i, j),
    {
        proof {
            Self::lemma_index(x as int, y as int, self.width as int, self.height as int);
            let h = self.height as int;
            assert forall|i: int, j: int|
                0 <= i < self.width && 0 <= j < h && (i != x || j != y) implies #[trigger] cell(i, j, h) != x * h
                + y && 0 <= cell(i, j, h) < self.width * h by {
                Self::lemma_index(i, j, self.width as int, h);
                if i < x {
                    assert(i * h + j < x * h + y) by (nonlinear_arith)
                        requires
                            0 <= i < x,
                            0 <= j < h,
                            0 <= y,
                    ;
                } else if i > x {
                    assert(i * h + j > x * h + y) by (nonlinear_arith)
                        requires
                            0 <= x < i,
                            0 <= y < h,
                            0 <= j,
                    ;
                }
            }
        }
        proof {
            assert(self.pixels.len() <= usize::MAX);
            assert(x * self.height >= 0) by (nonlinear_arith)
                requires
                    x >= 0,
                    self.height >= 0,
            ;
        }
        let index = x as usize * self.height + y as usize;
        self.pixels.set(index, px);
    }

    pub fn width(&self) -> (w: u32)
        requires
            self.wf(),
        ensures
            w == self.spec_width(),
    {
        self.width as u32
    }

    pub fn height(&self) -> (h: u32)
        requires
            self.wf(),
        ensures
            h == self.spec_height(),
    {
        self.height as u32
    }

    /// Lays `other` over this image with its first pixel at column `pos_x`
    /// and line `pos_y`. The pixels under `other` become those of `other`;
    /// every other pixel stays as it is.
    pub fn superpose_sub_image(&mut self, other: Image<T>, pos_x: u32, pos_y: u32)
        requires
            old(self).wf(),
            other.wf(),
            pos_x + other.spec_width() <= old(self).spec_width(),
            pos_y + other.spec_height() <= old(self).spec_height(),
        ensures
            final(self).wf(),
            final(self).spec_width() == old(self).spec_width(),
            final(self).spec_height() == old(self).spec_height(),
            forall|i: int, j: int|
                0 <= i < old(self).spec_width() && 0 <= j < old(self).spec_height()
                    ==> #[trigger] final(self).at(i, j) == (if pos_x <= i < pos_x + other.spec_width()
                    && pos_y <= j < pos_y + other.spec_height() {
                    other.at(i - pos_x, j - pos_y)
                } else {
                    old(self).at(i, j)
                }),
    {
        let end_x = pos_x + other.width();
        let end_y = pos_y + other.height();
        let mut col = pos_x;
        while col < end_x
            invariant
                pos_x <= col <= end_x,
                end_x == pos_x + other.spec_width(),
                end_y == pos_y + other.spec_height(),
                other.wf(),
                self.wf(),
                self.spec_width() == old(self).spec_width(),
                self.spec_height() == old(self).spec_height(),
                end_x <= self.spec_width(),
                end_y <= self.spec_height(),
                forall|i: int, j: int|
                    0 <= i < self.spec_width() && 0 <= j < self.spec_height() ==> #[trigger] self.at(
                        i,
                        j,
                    ) == (if pos_x <= i < col && pos_y <= j < end_y {
                        other.at(i - pos_x, j - pos_y)
                    } else {
                        old(self).at(i, j)
                    }),
            decreases end_x - col,
        {
            let mut line = pos_y;
            while line < end_y
                invariant
                    pos_x <= col < end_x,
                    pos_y <= line <= end_y,
                    end_x == pos_x + other.spec_width(),
                    end_y == pos_y + other.spec_height(),
                    other.wf(),
                    self.wf(),
                    self.spec_width() == old(self).spec_width(),
                    self.spec_height() == old(self).spec_height(),
                    end_x <= self.spec_width(),
                    end_y <= self.spec_height(),
                    forall|i: int, j: int|
                        0 <= i < self.spec_width() && 0 <= j < self.spec_height()
                            ==> #[trigger] self.at(i, j) == (if (pos_x <= i < col && pos_y <= j
                            < end_y) || (i == col && pos_y <= j < line) {
                            other.at(i - pos_x, j - pos_y)
                        } else {
                            old(self).at(i, j)
                        }),
                decreases end_y - line,
            {
                let px = other.get_pixel_at(col - pos_x, line - pos_y);
                self.write_pixel_at(col, line, px);
                line = line + 1;
            }
            col = col + 1;
        }
    }
}

impl Image<RGBA32> {
    /// A black image of `sizex` columns and `sizey` lines.
    pub fn new(sizex: usize, sizey: usize) -> (img: Image<RGBA32>)
        requires
            sizex <= u32::MAX,
            sizey <= u32::MAX,
            sizex * sizey <= usize::MAX,
        ensures
            img.wf(),
            img.spec_width() == sizex,
            img.spec_height() == sizey,
            forall|x: int, y: int|
                0 <= x < sizex && 0 <= y < sizey ==> #[trigger] img.at(x, y) == (RGBA32 {
                    r: 0,
                    g: 0,
                    b: 0,
                    a: u32::MAX,
                }),
    {
        let total = sizex * sizey;
        let mut px: Vec<RGBA32> = Vec::new();
        let mut i: usize = 0;
        while i < total
            invariant
                i <= total,
                px@.len() == i,
                forall|k: int| 0 <= k < i ==> px@[k] == (RGBA32 { r: 0, g: 0, b: 0, a: u32::MAX }),
            decreases total - i,
        {
            px.push(RGBA32::new_black());
            i = i + 1;
        }
        proof {
            assert forall|x: int, y: int| 0 <= x < sizex && 0 <= y < sizey implies 0 <= #[trigger] cell(x, y, sizey as int) < total by {
                Self::lemma_index(x, y, sizex as int, sizey as int);
            }
        }
        Image { width: sizex, height: sizey, pixels: px }
    }
}

} // verus!
