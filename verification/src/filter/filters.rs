//! The box filter, which takes the plain mean of the samples, and the filter
//! of Mitchell and Netravali, which weighs each sample by its distance from
//! the centre of the pixel.
use crate::color::{average_color, make_average_color, RGBA32};
use crate::filter::Filter;
use crate::exact::{divide_toward_zero, quotient_toward_zero};
use crate::math::Vector2;
use crate::renderer::Pixel;
use crate::sampler::Sample;
use vstd::prelude::*;

verus! {

/// The colours of a sequence of samples, in order.
pub open spec fn colors_of(samples: Seq<Sample>) -> Seq<RGBA32> {
    Seq::new(samples.len(), |i: int| samples[i].color)
}

/// A filter that gives a pixel the mean of the colours of its samples.
pub struct BoxFilter {}

impl Default for BoxFilter {
    fn default() -> (f: BoxFilter)
        ensures
            f == (BoxFilter {  }),
    {
        BoxFilter {  }
    }
}

impl Filter for BoxFilter {
    /// The arithmetic mean of the colours of the samples, channel by
    /// channel; black for a pixel without samples.
    open spec fn reconstructed(
        &self,
        center: (u32, u32),
        samples: Seq<Sample>,
        position: (u32, u32),
    ) -> RGBA32 {
        if samples.len() == 0 {
            RGBA32 { r: 0, g: 0, b: 0, a: u32::MAX }
        } else {
            average_color(colors_of(samples))
        }
    }

    fn compute_color(&self, data: &Pixel, _position: (u32, u32)) -> (c: RGBA32) {
        let samples = data.samples();
        if samples.len() == 0 {
            return RGBA32::new_black();
        }
        let mut colors: Vec<RGBA32> = Vec::new();
        let mut i: usize = 0;
        while i < samples.len()
            invariant
                i <= samples@.len(),
                samples@ == data.samples@,
                colors@.len() == i,
                forall|k: int| 0 <= k < i ==> colors@[k] == samples@[k].color,
            decreases samples@.len() - i,
        {
            colors.push(samples[i].color);
            i = i + 1;
        }
        proof {
            assert(colors@ =~= colors_of(data.samples@));
        }
        make_average_color(colors.as_slice())
    }
}

/// One on the scale of the offsets that the kernel takes: an offset `t`
/// stands for `t / KERNEL_UNIT` pixels.
pub const KERNEL_UNIT: i64 = 1024;

/// The filter of Mitchell and Netravali with the standard parameters
/// B = C = 1/3.
pub struct MitchellFilter {
    pub image_size: Vector2<u32>,
}

/// The kernel of Mitchell and Netravali for B = C = 1/3, at the offset
/// `t / 1024`, times `18 * 1024^3`: a cubic on each side of zero up to one,
/// another from one to two, and zero beyond.
pub open spec fn kernel(t: int) -> int {
    let x = if t < 0 {
        -t
    } else {
        t
    };
    if x < 1024 {
        21 * (x * x * x) - 36864 * (x * x) + 17179869184
    } else if x <= 2048 {
        -7 * (x * x * x) + 36864 * (x * x) - 62914560 * x + 34359738368
    } else {
        0
    }
}

/// The kernel stays within known bounds.
pub proof fn lemma_kernel_bounded(t: int)
    ensures
        -274877906944 <= kernel(t) <= 274877906944,
{
    let x = if t < 0 {
        -t
    } else {
        t
    };
    if x <= 2048 {
        assert(0 <= x * x <= 4194304 && 0 <= x * x * x <= 8589934592) by (nonlinear_arith)
            requires
                0 <= x <= 2048,
        ;
    }
}

/// Twice the offset of a coordinate `num / den` from the centre of the
/// pixel at `pixel` of a block at `block`, on the scale of the kernel and
/// rounded down.
pub open spec fn doubled_offset(num: int, den: int, pixel: int, block: int) -> int {
    ((2 * num - (2 * (pixel + block) + 1) * den) * 1024) / den
}

/// The weight of a sample of the pixel `data` of a block at `position`:
/// the product of the kernel along the two axes, each taken at twice the
/// offset of the sample from the centre of the pixel.
pub open spec fn weight_of(sample: Sample, center: (u32, u32), position: (u32, u32)) -> int {
    kernel(
        doubled_offset(
            sample.position.x.num as int,
            sample.position.x.den as int,
            center.0 as int,
            position.0 as int,
        ),
    ) * kernel(
        doubled_offset(
            sample.position.y.num as int,
            sample.position.y.den as int,
            center.1 as int,
            position.1 as int,
        ),
    )
}

/// The sum of the weights of the samples of a pixel.
pub open spec fn weight_sum(samples: Seq<Sample>, center: (u32, u32), position: (u32, u32)) -> int
    decreases samples.len(),
{
    if samples.len() == 0 {
        0
    } else {
        weight_sum(samples.drop_last(), center, position) + weight_of(samples.last(), center, position)
    }
}

/// The sum of the red channels of the samples of a pixel, each times the
/// weight of its sample.
pub open spec fn weighted_r(samples: Seq<Sample>, center: (u32, u32), position: (u32, u32)) -> int
    decreases samples.len(),
{
    if samples.len() == 0 {
        0
    } else {
        weighted_r(samples.drop_last(), center, position) + weight_of(samples.last(), center, position)
            * samples.last().color.r
    }
}

/// The sum of the green channels, each times the weight of its sample.
pub open spec fn weighted_g(samples: Seq<Sample>, center: (u32, u32), position: (u32, u32)) -> int
    decreases samples.len(),
{
    if samples.len() == 0 {
        0
    } else {
        weighted_g(samples.drop_last(), center, position) + weight_of(samples.last(), center, position)
            * samples.last().color.g
    }
}

/// The sum of the blue channels, each times the weight of its sample.
pub open spec fn weighted_b(samples: Seq<Sample>, center: (u32, u32), position: (u32, u32)) -> int
    decreases samples.len(),
{
    if samples.len() == 0 {
        0
    } else {
        weighted_b(samples.drop_last(), center, position) + weight_of(samples.last(), center, position)
            * samples.last().color.b
    }
}

/// The channel `sum / weight`, rounded toward zero and kept between zero
/// and the greatest value of a channel.
pub open spec fn normalized(sum: int, weight: int) -> u32 {
    let q = if weight > 0 {
        quotient_toward_zero(sum, weight)
    } else {
        quotient_toward_zero(-sum, -weight)
    };
    if q < 0 {
        0
    } else if q > u32::MAX {
        u32::MAX
    } else {
        q as u32
    }
}

/// The sums of weights and of weighted channels stay within bounds that
/// grow with the number of samples.
pub proof fn lemma_sums_bounded(samples: Seq<Sample>, center: (u32, u32), position: (u32, u32))
    ensures
        -(samples.len() * 0x1000_0000_0000_0000_0000) <= weight_sum(samples, center, position)
            <= samples.len() * 0x1000_0000_0000_0000_0000,
        -(samples.len() * 0x1000_0000_0000_0000_0000_0000_0000) <= weighted_r(
            samples,
            center,
            position,
        ) <= samples.len() * 0x1000_0000_0000_0000_0000_0000_0000,
        -(samples.len() * 0x1000_0000_0000_0000_0000_0000_0000) <= weighted_g(
            samples,
            center,
            position,
        ) <= samples.len() * 0x1000_0000_0000_0000_0000_0000_0000,
        -(samples.len() * 0x1000_0000_0000_0000_0000_0000_0000) <= weighted_b(
            samples,
            center,
            position,
        ) <= samples.len() * 0x1000_0000_0000_0000_0000_0000_0000,
    decreases samples.len(),
{
    if samples.len() > 0 {
        lemma_sums_bounded(samples.drop_last(), center, position);
        lemma_weight_bounded(samples.last(), center, position);
        let w = weight_of(samples.last(), center, position);
        let c = samples.last().color;
        crate::algebra::lemma_product_bounded(w, c.r as int, 0x1000_0000_0000_0000_0000, 0x1_0000_0000);
        crate::algebra::lemma_product_bounded(w, c.g as int, 0x1000_0000_0000_0000_0000, 0x1_0000_0000);
        crate::algebra::lemma_product_bounded(w, c.b as int, 0x1000_0000_0000_0000_0000, 0x1_0000_0000);
        let n = samples.len() as int;
        assert((n - 1) * 0x1000_0000_0000_0000_0000 + 0x1000_0000_0000_0000_0000 == n
            * 0x1000_0000_0000_0000_0000) by (nonlinear_arith);
        assert((n - 1) * 0x1000_0000_0000_0000_0000_0000_0000 + 0x1000_0000_0000_0000_0000_0000_0000
            == n * 0x1000_0000_0000_0000_0000_0000_0000) by (nonlinear_arith);
    }
}

/// The weight of a sample is less than 2^76 in absolute value.
pub proof fn lemma_weight_bounded(sample: Sample, center: (u32, u32), position: (u32, u32))
    ensures
        -0x1000_0000_0000_0000_0000 <= weight_of(sample, center, position)
            <= 0x1000_0000_0000_0000_0000,
{
    let tx = doubled_offset(
        sample.position.x.num as int,
        sample.position.x.den as int,
        center.0 as int,
        position.0 as int,
    );
    let ty = doubled_offset(
        sample.position.y.num as int,
        sample.position.y.den as int,
        center.1 as int,
        position.1 as int,
    );
    lemma_kernel_bounded(tx);
    lemma_kernel_bounded(ty);
    crate::algebra::lemma_product_bounded(kernel(tx), kernel(ty), 274877906944, 274877906944);
}

/// Where every sample has the colour `c`, each weighted sum is the sum of
/// the weights times the channel of `c`.
pub proof fn lemma_sums_of_one_color(
    samples: Seq<Sample>,
    center: (u32, u32),
    position: (u32, u32),
    c: RGBA32,
)
    requires
        forall|i: int| 0 <= i < samples.len() ==> (#[trigger] samples[i]).color == c,
    ensures
        weighted_r(samples, center, position) == weight_sum(samples, center, position) * c.r,
        weighted_g(samples, center, position) == weight_sum(samples, center, position) * c.g,
        weighted_b(samples, center, position) == weight_sum(samples, center, position) * c.b,
    decreases samples.len(),
{
    if samples.len() > 0 {
        let rest = samples.drop_last();
        assert forall|i: int| 0 <= i < rest.len() implies (#[trigger] rest[i]).color == c by {
            assert(rest[i] == samples[i]);
        }
        lemma_sums_of_one_color(rest, center, position, c);
        let s = weight_sum(rest, center, position);
        let w = weight_of(samples.last(), center, position);
        assert(samples.last().color == c);
        crate::algebra::lemma_difference_scaled(s, w, c.r as int);
        crate::algebra::lemma_difference_scaled(s, w, c.g as int);
        crate::algebra::lemma_difference_scaled(s, w, c.b as int);
    }
}

/// Where all the samples of a pixel have the same colour and their weights
/// do not cancel out, the filter gives the pixel that colour, whatever the
/// places of the samples.
pub proof fn lemma_one_color_is_kept(
    filter: MitchellFilter,
    center: (u32, u32),
    samples: Seq<Sample>,
    position: (u32, u32),
    c: RGBA32,
)
    requires
        forall|i: int| 0 <= i < samples.len() ==> (#[trigger] samples[i]).color == c,
        weight_sum(samples, center, position) != 0,
    ensures
        filter.reconstructed(center, samples, position) == (RGBA32 {
            r: c.r,
            g: c.g,
            b: c.b,
            a: u32::MAX,
        }),
{
    lemma_sums_of_one_color(samples, center, position, c);
    let s = weight_sum(samples, center, position);
    lemma_quotient_of_multiple(s, c.r as int);
    lemma_quotient_of_multiple(s, c.g as int);
    lemma_quotient_of_multiple(s, c.b as int);
}

/// `normalized(s * c, s)` is `c`, for a channel `c` and a weight `s` that
/// is not zero.
pub proof fn lemma_quotient_of_multiple(s: int, c: int)
    requires
        s != 0,
        0 <= c <= u32::MAX,
    ensures
        normalized(s * c, s) == c,
{
    if s > 0 {
        assert(s * c >= 0 && (s * c) / s == c) by (nonlinear_arith)
            requires
                s > 0,
                c >= 0,
        ;
    } else {
        let n = -s;
        assert(-(s * c) == n * c) by (nonlinear_arith)
            requires
                n == -s,
        ;
        assert(n * c >= 0 && (n * c) / n == c) by (nonlinear_arith)
            requires
                n > 0,
                c >= 0,
        ;
    }
}

/// The quotient of `a` by a positive `b`, rounded down.
fn divide_down(a: i128, b: i128) -> (r: i128)
    requires
        b > 0,
        -0x4000_0000_0000_0000_0000_0000_0000_0000 <= a <= 0x4000_0000_0000_0000_0000_0000_0000_0000,
        b <= 0x4000_0000_0000_0000_0000_0000_0000_0000,
    ensures
        r == a as int / b as int,
{
    if a >= 0 {
        a / b
    } else {
        let q = (-a) / b;
        let m = (-a) % b;
        proof {
            let n = -(a as int);
            let bi = b as int;
            assert(n == q * bi + m && 0 <= m < bi) by (nonlinear_arith)
                requires
                    bi > 0,
                    q == n / bi,
                    m == n % bi,
            ;
            assert(0 <= q <= n) by (nonlinear_arith)
                requires
                    n == q * bi + m,
                    0 <= m,
                    bi > 0,
                    n >= 0,
                    q >= 0,
            ;
            if m == 0 {
                assert(a as int == (-q) * bi + 0) by (nonlinear_arith)
                    requires
                        n == q * bi + m,
                        m == 0,
                        n == -(a as int),
                ;
                vstd::arithmetic::div_mod::lemma_fundamental_div_mod_converse(a as int, bi, -q, 0);
            } else {
                assert(a as int == (-q - 1) * bi + (bi - m)) by (nonlinear_arith)
                    requires
                        n == q * bi + m,
                        n == -(a as int),
                ;
                vstd::arithmetic::div_mod::lemma_fundamental_div_mod_converse(
                    a as int,
                    bi,
                    -q - 1,
                    bi - m,
                );
            }
        }
        if m == 0 {
            -q
        } else {
            -q - 1
        }
    }
}

impl MitchellFilter {
    /// The weight of a sample at `coords`, given as twice its offset from
    /// the centre of the pixel along each axis, on the scale of the kernel.
    fn weight_contribution(&self, coords: Vector2<i128>) -> (w: i128)
        ensures
            w == kernel(coords.x as int) * kernel(coords.y as int),
            -0x1000_0000_0000_0000_0000 <= w <= 0x1000_0000_0000_0000_0000,
    {
        let kx = self.polynome(coords.x);
        let ky = self.polynome(coords.y);
        proof {
            crate::algebra::lemma_product_bounded(kx as int, ky as int, 274877906944, 274877906944);
        }
        kx * ky
    }

    /// The kernel at the offset `x / 1024`, times `18 * 1024^3`.
    fn polynome(&self, x: i128) -> (k: i128)
        ensures
            k == kernel(x as int),
            -274877906944 <= k <= 274877906944,
    {
        proof {
            lemma_kernel_bounded(x as int);
        }
        if x > 2048 || x < -2048 {
            return 0;
        }
        let abs_x = if x < 0 {
            -x
        } else {
            x
        };
        proof {
            assert(0 <= abs_x * abs_x <= 4194304 && 0 <= abs_x * abs_x * abs_x <= 8589934592) by (nonlinear_arith)
                requires
                    0 <= abs_x <= 2048,
            ;
        }
        if abs_x < 1024 {
            21 * (abs_x * abs_x * abs_x) - 36864 * (abs_x * abs_x) + 17179869184
        } else {
            -7 * (abs_x * abs_x * abs_x) + 36864 * (abs_x * abs_x) - 62914560 * abs_x + 34359738368
        }
    }

    pub fn set_image_size(&mut self, x: u32, y: u32)
        ensures
            final(self).image_size == (Vector2 { x, y }),
    {
        self.image_size = Vector2::new(x, y);
    }

    /// Twice the offset of a coordinate from the centre of a pixel, on the
    /// scale of the kernel.
    fn relative(num: i64, den: i64, pixel: u32, block: u32) -> (t: i128)
        requires
            den > 0,
        ensures
            t == doubled_offset(num as int, den as int, pixel as int, block as int),
    {
        let center = 2 * (pixel as i128 + block as i128) + 1;
        proof {
            crate::algebra::lemma_product_bounded(
                center as int,
                den as int,
                0x4_0000_0000,
                0x8000_0000_0000_0000,
            );
        }
        let n = 2 * (num as i128) - center * (den as i128);
        divide_down(n * 1024, den as i128)
    }

    /// The channel `sum / weight`, for a weight that is not zero.
    fn normalize(sum: i128, weight: i128) -> (c: u32)
        requires
            weight != 0,
            sum > i128::MIN,
            weight > i128::MIN,
        ensures
            c == normalized(sum as int, weight as int),
    {
        let q = if weight > 0 {
            divide_toward_zero(sum, weight)
        } else {
            divide_toward_zero(-sum, -weight)
        };
        if q < 0 {
            0
        } else if q > u32::MAX as i128 {
            u32::MAX
        } else {
            q as u32
        }
    }
}

impl Default for MitchellFilter {
    fn default() -> (f: MitchellFilter)
        ensures
            f.image_size == (Vector2 { x: 0u32, y: 0u32 }),
    {
        MitchellFilter { image_size: Vector2::new(0, 0) }
    }
}

impl Filter for MitchellFilter {
    /// The sum of the colours of the samples, each times the weight of its
    /// sample, divided by the sum of the weights; black where the weights
    /// cancel out or there is no sample.
    open spec fn reconstructed(
        &self,
        center: (u32, u32),
        samples: Seq<Sample>,
        position: (u32, u32),
    ) -> RGBA32 {
        let s = weight_sum(samples, center, position);
        if s == 0 {
            RGBA32 { r: 0, g: 0, b: 0, a: u32::MAX }
        } else {
            RGBA32 {
                r: normalized(weighted_r(samples, center, position), s),
                g: normalized(weighted_g(samples, center, position), s),
                b: normalized(weighted_b(samples, center, position), s),
                a: u32::MAX,
            }
        }
    }

    fn compute_color(&self, data: &Pixel, pixel_position: (u32, u32)) -> (c: RGBA32) {
        let samples = data.samples();
        let mut weight_total: i128 = 0;
        let mut red: i128 = 0;
        let mut green: i128 = 0;
        let mut blue: i128 = 0;
        let mut i: usize = 0;
        // The contribution of each sample.
        while i < samples.len()
            invariant
                i <= samples@.len(),
                samples@ == data.samples@,
                samples@.len() <= 65536,
                forall|k: int|
                    0 <= k < samples@.len() ==> (#[trigger] samples@[k]).position.x.wf()
                        && samples@[k].position.y.wf(),
                weight_total == weight_sum(samples@.take(i as int), (data.x, data.y), pixel_position),
                red == weighted_r(samples@.take(i as int), (data.x, data.y), pixel_position),
                green == weighted_g(samples@.take(i as int), (data.x, data.y), pixel_position),
                blue == weighted_b(samples@.take(i as int), (data.x, data.y), pixel_position),
            decreases samples@.len() - i,
        {
            let sample = &samples[i];
            proof {
                lemma_sums_bounded(samples@.take(i as int), (data.x, data.y), pixel_position);
                lemma_sums_bounded(samples@.take(i + 1), (data.x, data.y), pixel_position);
                assert(samples@.take(i + 1).drop_last() == samples@.take(i as int));
                assert(i * 0x1000_0000_0000_0000_0000_0000_0000 <= 65536
                    * 0x1000_0000_0000_0000_0000_0000_0000) by (nonlinear_arith)
                    requires
                        i <= 65536,
                ;
                assert((i + 1) * 0x1000_0000_0000_0000_0000_0000_0000 <= 65536
                    * 0x1000_0000_0000_0000_0000_0000_0000) by (nonlinear_arith)
                    requires
                        i + 1 <= 65536,
                ;
                assert(i * 0x1000_0000_0000_0000_0000 <= 65536 * 0x1000_0000_0000_0000_0000) by (nonlinear_arith)
                    requires
                        i <= 65536,
                ;
                assert((i + 1) * 0x1000_0000_0000_0000_0000 <= 65536 * 0x1000_0000_0000_0000_0000) by (nonlinear_arith)
                    requires
                        i + 1 <= 65536,
                ;
            }
            // The place of the sample, brought back to the centre of its
            // pixel.
            let position = sample.position();
            let relative_sample_pixel_pos = Vector2 {
                x: MitchellFilter::relative(
                    position.x.num,
                    position.x.den,
                    data.x(),
                    pixel_position.0,
                ),
                y: MitchellFilter::relative(
                    position.y.num,
                    position.y.den,
                    data.y(),
                    pixel_position.1,
                ),
            };
            let weight = self.weight_contribution(relative_sample_pixel_pos);
            proof {
                crate::algebra::lemma_product_bounded(
                    weight as int,
                    sample.color.r as int,
                    0x1000_0000_0000_0000_0000,
                    0x1_0000_0000,
                );
                crate::algebra::lemma_product_bounded(
                    weight as int,
                    sample.color.g as int,
                    0x1000_0000_0000_0000_0000,
                    0x1_0000_0000,
                );
                crate::algebra::lemma_product_bounded(
                    weight as int,
                    sample.color.b as int,
                    0x1000_0000_0000_0000_0000,
                    0x1_0000_0000,
                );
            }
            weight_total = weight_total + weight;
            red = red + weight * (sample.color.r as i128);
            green = green + weight * (sample.color.g as i128);
            blue = blue + weight * (sample.color.b as i128);
            i = i + 1;
        }
        proof {
            assert(samples@.take(i as int) == samples@);
            lemma_sums_bounded(samples@, (data.x, data.y), pixel_position);
            assert(samples@.len() * 0x1000_0000_0000_0000_0000_0000_0000 <= 65536
                * 0x1000_0000_0000_0000_0000_0000_0000) by (nonlinear_arith)
                requires
                    samples@.len() <= 65536,
            ;
            assert(samples@.len() * 0x1000_0000_0000_0000_0000 <= 65536 * 0x1000_0000_0000_0000_0000) by (nonlinear_arith)
                requires
                    samples@.len() <= 65536,
            ;
        }
        if weight_total == 0 {
            return RGBA32::new_black();
        }
        RGBA32 {
            r: MitchellFilter::normalize(red, weight_total),
            g: MitchellFilter::normalize(green, weight_total),
            b: MitchellFilter::normalize(blue, weight_total),
            a: u32::MAX,
        }
    }
}

} // verus!
