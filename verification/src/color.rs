//! Colours with integer channels: 32 bits per channel for all internal work,
//! 8 bits per channel for textures and for the pixels of an image file.
use crate::img::Pixel;
use std::ops::Mul;
use vstd::prelude::*;

verus! {

/// The step between two 8-bit levels on the 32-bit scale: 2^32 / 2^8.
pub const CONVERSION_FACTOR: u32 = 16777216;

/// A colour with 32 bits per channel.
#[derive(Clone, Debug, Copy, PartialEq, Eq, Structural)]
pub struct RGBA32 {
    pub r: u32,
    pub g: u32,
    pub b: u32,
    pub a: u32,
}

/// A colour with 8 bits per channel.
#[derive(Clone, Debug, Copy, PartialEq, Eq, Structural)]
pub struct RGBA8 {
    r: u8,
    g: u8,
    b: u8,
    a: u8,
}

/// The 8-bit level of a 32-bit channel: the channel divided by 2^24, rounded
/// down.
pub open spec fn spec_u32_to_u8(v: u32) -> u8 {
    (v / CONVERSION_FACTOR) as u8
}

/// The 32-bit channel of an 8-bit level: the level times 2^24.
pub open spec fn spec_u8_to_u32(v: u8) -> u32 {
    (v * CONVERSION_FACTOR) as u32
}

pub fn u32_to_u8(v: u32) -> (r: u8)
    ensures
        r == spec_u32_to_u8(v),
        r as int == v as int / 16777216,
{
    (v / CONVERSION_FACTOR) as u8
}

pub fn u8_to_u32(v: u8) -> (r: u32)
    ensures
        r == spec_u8_to_u32(v),
        r as int == v as int * 16777216,
{
    (v as u32 * CONVERSION_FACTOR)
}

/// Going to 32 bits and back gives the 8-bit level again.
pub proof fn lemma_u8_round_trip(v: u8)
    ensures
        spec_u32_to_u8(spec_u8_to_u32(v)) == v,
{
}

/// Going to 8 bits and back rounds a 32-bit channel down to a multiple of
/// 2^24, and so never raises it nor lowers it by a whole step.
pub proof fn lemma_u32_round_trip(v: u32)
    ensures
        spec_u8_to_u32(spec_u32_to_u8(v)) as int == (v as int / 16777216) * 16777216,
        spec_u8_to_u32(spec_u32_to_u8(v)) <= v,
        v - spec_u8_to_u32(spec_u32_to_u8(v)) < 16777216,
{
}

/// The sum of the red channels of a sequence of colours.
pub open spec fn sum_r(colors: Seq<RGBA32>) -> nat
    decreases colors.len(),
{
    if colors.len() == 0 {
        0
    } else {
        sum_r(colors.drop_last()) + colors.last().r as nat
    }
}

/// The sum of the green channels of a sequence of colours.
pub open spec fn sum_g(colors: Seq<RGBA32>) -> nat
    decreases colors.len(),
{
    if colors.len() == 0 {
        0
    } else {
        sum_g(colors.drop_last()) + colors.last().g as nat
    }
}

/// The sum of the blue channels of a sequence of colours.
pub open spec fn sum_b(colors: Seq<RGBA32>) -> nat
    decreases colors.len(),
{
    if colors.len() == 0 {
        0
    } else {
        sum_b(colors.drop_last()) + colors.last().b as nat
    }
}

/// The arithmetic mean of a non-empty sequence of colours, channel by
/// channel and rounded down; the result is fully opaque.
pub open spec fn average_color(colors: Seq<RGBA32>) -> RGBA32 {
    RGBA32 {
        r: (sum_r(colors) / colors.len()) as u32,
        g: (sum_g(colors) / colors.len()) as u32,
        b: (sum_b(colors) / colors.len()) as u32,
        a: u32::MAX,
    }
}

/// No channel sum exceeds the number of colours times the greatest channel
/// value, so no mean exceeds that value.
pub proof fn lemma_sums_bounded(colors: Seq<RGBA32>)
    ensures
        sum_r(colors) <= colors.len() * 0xffff_ffff,
        sum_g(colors) <= colors.len() * 0xffff_ffff,
        sum_b(colors) <= colors.len() * 0xffff_ffff,
    decreases colors.len(),
{
    if colors.len() > 0 {
        lemma_sums_bounded(colors.drop_last());
    }
}

/// The mean of colours that are all the same is that colour, made opaque.
pub proof fn lemma_average_of_equal_colors(colors: Seq<RGBA32>, c: RGBA32)
    requires
        colors.len() > 0,
        forall|i: int| 0 <= i < colors.len() ==> colors[i] == c,
    ensures
        average_color(colors) == (RGBA32 { r: c.r, g: c.g, b: c.b, a: u32::MAX }),
{
    lemma_sums_of_equal_colors(colors, c);
    let n = colors.len() as int;
    assert((n * c.r) / n == c.r) by (nonlinear_arith)
        requires
            n > 0,
    ;
    assert((n * c.g) / n == c.g) by (nonlinear_arith)
        requires
            n > 0,
    ;
    assert((n * c.b) / n == c.b) by (nonlinear_arith)
        requires
            n > 0,
    ;
}

proof fn lemma_sums_of_equal_colors(colors: Seq<RGBA32>, c: RGBA32)
    requires
        forall|i: int| 0 <= i < colors.len() ==> colors[i] == c,
    ensures
        sum_r(colors) == colors.len() * c.r,
        sum_g(colors) == colors.len() * c.g,
        sum_b(colors) == colors.len() * c.b,
    decreases colors.len(),
{
    if colors.len() > 0 {
        let rest = colors.drop_last();
        lemma_sums_of_equal_colors(rest, c);
        let n = rest.len() as int;
        assert((n + 1) * c.r == n * c.r + c.r) by (nonlinear_arith);
        assert((n + 1) * c.g == n * c.g + c.g) by (nonlinear_arith);
        assert((n + 1) * c.b == n * c.b + c.b) by (nonlinear_arith);
    }
}

/// The mean colour of a non-empty slice; transparency is not averaged.
pub fn make_average_color(colors: &[RGBA32]) -> (res: RGBA32)
    requires
        0 < colors.len() <= u32::MAX,
    ensures
        res == average_color(colors@),
{
    let number_of_colors = colors.len();
    let mut acc: (u64, u64, u64) = (0, 0, 0);
    let mut i: usize = 0;
    while i < number_of_colors
        invariant
            number_of_colors == colors.len(),
            number_of_colors <= u32::MAX,
            i <= number_of_colors,
            acc.0 == sum_r(colors@.take(i as int)),
            acc.1 == sum_g(colors@.take(i as int)),
            acc.2 == sum_b(colors@.take(i as int)),
        decreases number_of_colors - i,
    {
        proof {
            lemma_sums_bounded(colors@.take(i as int));
            assert(colors@.take(i + 1).drop_last() == colors@.take(i as int));
            assert(i * 0xffff_ffff <= 0xffff_fffe * 0xffff_ffff) by (nonlinear_arith)
                requires
                    i <= 0xffff_fffe,
            ;
        }
        let c = colors[i];
        acc = (acc.0 + c.r as u64, acc.1 + c.g as u64, acc.2 + c.b as u64);
        i = i + 1;
    }
    proof {
        assert(colors@.take(i as int) == colors@);
        lemma_sums_bounded(colors@);
        let n = number_of_colors as int;
        assert(sum_r(colors@) / (n as nat) <= 0xffff_ffff) by (nonlinear_arith)
            requires
                n > 0,
                sum_r(colors@) <= n * 0xffff_ffff,
        ;
        assert(sum_g(colors@) / (n as nat) <= 0xffff_ffff) by (nonlinear_arith)
            requires
                n > 0,
                sum_g(colors@) <= n * 0xffff_ffff,
        ;
        assert(sum_b(colors@) / (n as nat) <= 0xffff_ffff) by (nonlinear_arith)
            requires
                n > 0,
                sum_b(colors@) <= n * 0xffff_ffff,
        ;
    }
    let r = acc.0 / number_of_colors as u64;
    let g = acc.1 / number_of_colors as u64;
    let b = acc.2 / number_of_colors as u64;

    RGBA32::new(&(r as u32), &(g as u32), &(b as u32), &u32::MAX)
}

impl RGBA8 {
    /// A fully opaque black.
    pub fn new_black() -> (c: RGBA8)
        ensures
            c == RGBA8::spec_new(0, 0, 0, 255),
            c.r() == 0 && c.g() == 0 && c.b() == 0 && c.a() == 255,
    {
        RGBA8 { r: 0, g: 0, b: 0, a: u8::MAX }
    }

    /// The colour with the four given channels.
    pub closed spec fn spec_new(r: u8, g: u8, b: u8, a: u8) -> RGBA8 {
        RGBA8 { r, g, b, a }
    }

    /// The channels of a colour are those it was made with.
    pub broadcast proof fn lemma_new_channels(r: u8, g: u8, b: u8, a: u8)
        ensures
            (#[trigger] RGBA8::spec_new(r, g, b, a)).r() == r,
            RGBA8::spec_new(r, g, b, a).g() == g,
            RGBA8::spec_new(r, g, b, a).b() == b,
            RGBA8::spec_new(r, g, b, a).a() == a,
    {
    }

    pub closed spec fn spec_r(&self) -> u8 {
        self.r
    }

    pub closed spec fn spec_g(&self) -> u8 {
        self.g
    }

    pub closed spec fn spec_b(&self) -> u8 {
        self.b
    }

    pub closed spec fn spec_a(&self) -> u8 {
        self.a
    }

    #[verifier::when_used_as_spec(spec_r)]
    pub fn r(&self) -> (v: u8)
        ensures
            v == self.r(),
    {
        self.r
    }

    #[verifier::when_used_as_spec(spec_g)]
    pub fn g(&self) -> (v: u8)
        ensures
            v == self.g(),
    {
        self.g
    }

    #[verifier::when_used_as_spec(spec_b)]
    pub fn b(&self) -> (v: u8)
        ensures
            v == self.b(),
    {
        self.b
    }

    #[verifier::when_used_as_spec(spec_a)]
    pub fn a(&self) -> (v: u8)
        ensures
            v == self.a(),
    {
        self.a
    }

    pub fn new(r: &u8, g: &u8, b: &u8, a: &u8) -> (c: RGBA8)
        ensures
            c == RGBA8::spec_new(*r, *g, *b, *a),
            c.r() == *r,
            c.g() == *g,
            c.b() == *b,
            c.a() == *a,
    {
        RGBA8 { r: *r, g: *g, b: *b, a: *a }
    }

    /// Two colours with the same four channels are the same colour.
    pub proof fn lemma_channels_determine(self, other: RGBA8)
        requires
            self.r() == other.r(),
            self.g() == other.g(),
            self.b() == other.b(),
            self.a() == other.a(),
        ensures
            self == other,
    {
    }

    /// The same colour on the 32-bit scale.
    pub open spec fn spec_to_rgba32(&self) -> RGBA32 {
        RGBA32 {
            r: spec_u8_to_u32(self.r()),
            g: spec_u8_to_u32(self.g()),
            b: spec_u8_to_u32(self.b()),
            a: spec_u8_to_u32(self.a()),
        }
    }

    #[verifier::when_used_as_spec(spec_to_rgba32)]
    pub fn to_rgba32(&self) -> (c: RGBA32)
        ensures
            c == self.to_rgba32(),
    {
        RGBA32::new(&u8_to_u32(self.r), &u8_to_u32(self.g), &u8_to_u32(self.b), &u8_to_u32(self.a))
    }
}

impl RGBA32 {
    /// A fully opaque black.
    pub fn new_black() -> (c: RGBA32)
        ensures
            c == (RGBA32 { r: 0, g: 0, b: 0, a: u32::MAX }),
    {
        RGBA32 { r: 0, g: 0, b: 0, a: u32::MAX }
    }

    /// A fully opaque white.
    pub fn new_white() -> (c: RGBA32)
        ensures
            c == (RGBA32 { r: u32::MAX, g: u32::MAX, b: u32::MAX, a: u32::MAX }),
    {
        RGBA32 { r: u32::MAX, g: u32::MAX, b: u32::MAX, a: u32::MAX }
    }

    pub fn r(&self) -> (v: u32)
        ensures
            v == self.r,
    {
        self.r
    }

    pub fn g(&self) -> (v: u32)
        ensures
            v == self.g,
    {
        self.g
    }

    pub fn b(&self) -> (v: u32)
        ensures
            v == self.b,
    {
        self.b
    }

    pub fn a(&self) -> (v: u32)
        ensures
            v == self.a,
    {
        self.a
    }

    pub fn new(r: &u32, g: &u32, b: &u32, a: &u32) -> (c: RGBA32)
        ensures
            c == (RGBA32 { r: *r, g: *g, b: *b, a: *a }),
    {
        RGBA32 { r: *r, g: *g, b: *b, a: *a }
    }

    /// The squares of the three colour channels; transparency is left out.
    pub fn square(self) -> (s: (u64, u64, u64))
        ensures
            s.0 == self.r * self.r,
            s.1 == self.g * self.g,
            s.2 == self.b * self.b,
    {
        proof {
            assert(self.r * self.r <= 0xffff_ffff * 0xffff_ffff) by (nonlinear_arith)
                requires
                    self.r <= 0xffff_ffff,
            ;
            assert(self.g * self.g <= 0xffff_ffff * 0xffff_ffff) by (nonlinear_arith)
                requires
                    self.g <= 0xffff_ffff,
            ;
            assert(self.b * self.b <= 0xffff_ffff * 0xffff_ffff) by (nonlinear_arith)
                requires
                    self.b <= 0xffff_ffff,
            ;
        }
        (
            (self.r as u64) * (self.r as u64),
            (self.g as u64) * (self.g as u64),
            (self.b as u64) * (self.b as u64),
        )
    }

    /// The same colour on the 8-bit scale, each channel rounded down.
    pub open spec fn spec_to_rgba8(&self) -> RGBA8 {
        RGBA8::spec_new(
            spec_u32_to_u8(self.r),
            spec_u32_to_u8(self.g),
            spec_u32_to_u8(self.b),
            spec_u32_to_u8(self.a),
        )
    }

    #[verifier::when_used_as_spec(spec_to_rgba8)]
    pub fn to_rgba8(&self) -> (c: RGBA8)
        ensures
            c == self.to_rgba8(),
    {
        let c = RGBA8::new(
            &u32_to_u8(self.r),
            &u32_to_u8(self.g),
            &u32_to_u8(self.b),
            &u32_to_u8(self.a),
        );
        c
    }
}

/// The product of two channels, where the greatest channel value stands for
/// one: `a * b / (2^32 - 1)`, rounded down.
pub open spec fn modulate(a: u32, b: u32) -> u32 {
    ((a * b) / 0xffff_ffff) as u32
}

fn modulate_channel(a: u32, b: u32) -> (r: u32)
    ensures
        r == modulate(a, b),
        r as int == (a * b) / 0xffff_ffff,
{
    proof {
        assert(a * b <= 0xffff_ffff * 0xffff_ffff) by (nonlinear_arith)
            requires
                a <= 0xffff_ffff,
                b <= 0xffff_ffff,
        ;
    }
    (a as u64 * b as u64 / u32::MAX as u64) as u32
}

impl vstd::std_specs::ops::MulSpecImpl<RGBA32> for RGBA32 {
    open spec fn obeys_mul_spec() -> bool {
        true
    }

    open spec fn mul_req(self, other: RGBA32) -> bool {
        true
    }

    open spec fn mul_spec(self, other: RGBA32) -> RGBA32 {
        RGBA32 {
            r: modulate(self.r, other.r),
            g: modulate(self.g, other.g),
            b: modulate(self.b, other.b),
            a: modulate(self.a, other.a),
        }
    }
}

impl Mul<RGBA32> for RGBA32 {
    type Output = RGBA32;

    fn mul(self, other: RGBA32) -> RGBA32 {
        RGBA32 {
            r: modulate_channel(self.r, other.r),
            g: modulate_channel(self.g, other.g),
            b: modulate_channel(self.b, other.b),
            a: modulate_channel(self.a, other.a),
        }
    }
}

impl Pixel for RGBA32 {
    open spec fn rgb_spec(&self) -> (u8, u8, u8) {
        (spec_u32_to_u8(self.r), spec_u32_to_u8(self.g), spec_u32_to_u8(self.b))
    }

    open spec fn rgba_spec(&self) -> (u8, u8, u8, u8) {
        (
            spec_u32_to_u8(self.r),
            spec_u32_to_u8(self.g),
            spec_u32_to_u8(self.b),
            spec_u32_to_u8(self.a),
        )
    }

    fn to_rgb_pixel(&self) -> (p: (u8, u8, u8)) {
        (u32_to_u8(self.r), u32_to_u8(self.g), u32_to_u8(self.b))
    }

    fn to_rgba_pixel(&self) -> (p: (u8, u8, u8, u8)) {
        (u32_to_u8(self.r), u32_to_u8(self.g), u32_to_u8(self.b), u32_to_u8(self.a))
    }
}

impl Pixel for RGBA8 {
    open spec fn rgb_spec(&self) -> (u8, u8, u8) {
        (self.r(), self.g(), self.b())
    }

    open spec fn rgba_spec(&self) -> (u8, u8, u8, u8) {
        (self.r(), self.g(), self.b(), self.a())
    }

    fn to_rgb_pixel(&self) -> (p: (u8, u8, u8)) {
        (self.r, self.g, self.b)
    }

    fn to_rgba_pixel(&self) -> (p: (u8, u8, u8, u8)) {
        (self.r, self.g, self.b, self.a)
    }
}

} // verus!
