//! The two samplers: one that places a sample at the centre of each cell of
//! a regular grid, and one that follows the Halton sequence.
use crate::exact::{integer_root, ratio_of, root, Ratio};
use crate::math::Vector2;
use crate::sampler::{is_fraction, Sampler, GRAIN_LIMIT, RATE_LIMIT};
use vstd::arithmetic::div_mod::lemma_fundamental_div_mod_converse;
use vstd::prelude::*;

verus! {

/// The square root of `n`, rounded to the nearest whole number.
pub open spec fn nearest_root(n: u32) -> u32 {
    let r = root(n as u64);
    if n - r * r > r {
        (r + 1) as u32
    } else {
        r as u32
    }
}

/// The nearest root `r` of `n` is the whole number within a half of the
/// square root of `n`: `(r - 1/2)^2 <= n < (r + 1/2)^2`.
pub proof fn lemma_nearest_root(n: u32)
    ensures
        ({
            let r = nearest_root(n) as int;
            &&& 0 <= r <= 65536
            &&& (2 * r - 1) * (2 * r - 1) <= 4 * n || n == 0
            &&& 4 * n < (2 * r + 1) * (2 * r + 1)
            &&& n <= 65536 ==> r * r <= 65536
        }),
{
    let f = root(n as u64) as int;
    let r = nearest_root(n) as int;
    crate::exact::lemma_root_exists(n as u64);
    assert(f <= 65535) by (nonlinear_arith)
        requires
            f * f <= n,
            n <= 0xffff_ffff,
            f >= 0,
    ;
    assert((2 * r - 1) * (2 * r - 1) == 4 * (r * r) - 4 * r + 1 && (2 * r + 1) * (2 * r + 1) == 4
        * (r * r) + 4 * r + 1) by (nonlinear_arith);
    assert((f + 1) * (f + 1) == f * f + 2 * f + 1) by (nonlinear_arith);
    if n <= 65536 {
        assert(f <= 256) by (nonlinear_arith)
            requires
                f * f <= n,
                n <= 65536,
                f >= 0,
        ;
        if f == 256 {
            assert(f * f == 65536) by (nonlinear_arith)
                requires
                    f == 256,
            ;
        } else {
            assert(r * r <= 65536) by (nonlinear_arith)
                requires
                    0 <= r <= 256,
            ;
        }
    }
}

/// The square root of `n`, rounded to the nearest whole number.
pub fn rounded_sqrt(n: u32) -> (r: u32)
    ensures
        r == nearest_root(n),
        r <= 65536,
{
    let f = integer_root(n as u64);
    proof {
        assert(f <= 65535) by (nonlinear_arith)
            requires
                f * f <= n,
                n <= 0xffff_ffff,
        ;
        assert(f * f <= 65535 * 65535) by (nonlinear_arith)
            requires
                f <= 65535,
        ;
    }
    if (n as u64) - f * f > f {
        (f + 1) as u32
    } else {
        f as u32
    }
}

/// A sampler that gives every pixel the same regular grid of samples, one at
/// the centre of each cell of the grid.
#[derive(Debug)]
pub struct DefaultSampler {
    pub sample_rate: u32,
    pub sample_square_root: u32,
}

/// The point of the regular grid of side `n` with the rank `k`: the centre
/// of the cell at column `k / n` and line `k % n`.
pub open spec fn grid_point(n: int, k: int) -> Vector2<Ratio> {
    Vector2 {
        x: Ratio { num: (2 * (k / n) + 1) as i64, den: (2 * n) as i64 },
        y: Ratio { num: (2 * (k % n) + 1) as i64, den: (2 * n) as i64 },
    }
}

/// The fraction `p` of a pixel falls in the cell `cell` of a grid that
/// divides the pixel into `n` equal parts along one axis.
pub open spec fn in_cell(p: Ratio, cell: int, n: int) -> bool {
    ratio_of(cell, n) <= p.val() < ratio_of(cell + 1, n)
}

/// Each cell of the regular grid holds exactly one point of the
/// distribution: the point of rank `k` falls in the cell at column `i` and
/// line `j` if and only if `k` is the rank `i * n + j` of that cell.
pub proof fn lemma_one_sample_per_cell(n: int, i: int, j: int, k: int)
    requires
        0 < n <= 65536,
        0 <= i < n,
        0 <= j < n,
        0 <= k < n * n,
    ensures
        in_cell(grid_point(n, k).x, i, n) && in_cell(grid_point(n, k).y, j, n) <==> k == i * n + j,
{
    let a = k / n;
    let b = k % n;
    assert(0 <= a < n && 0 <= b < n && k == a * n + b) by (nonlinear_arith)
        requires
            0 < n,
            0 <= k < n * n,
            a == k / n,
            b == k % n,
    ;
    let p = grid_point(n, k);
    crate::exact::lemma_ratio_order(i, n, 2 * a + 1, 2 * n);
    crate::exact::lemma_ratio_order(2 * a + 1, 2 * n, i + 1, n);
    crate::exact::lemma_ratio_order(j, n, 2 * b + 1, 2 * n);
    crate::exact::lemma_ratio_order(2 * b + 1, 2 * n, j + 1, n);
    assert(i * (2 * n) <= (2 * a + 1) * n <==> i <= a) by (nonlinear_arith)
        requires
            0 < n,
    ;
    assert((2 * a + 1) * n < (i + 1) * (2 * n) <==> a <= i) by (nonlinear_arith)
        requires
            0 < n,
    ;
    assert(j * (2 * n) <= (2 * b + 1) * n <==> j <= b) by (nonlinear_arith)
        requires
            0 < n,
    ;
    assert((2 * b + 1) * n < (j + 1) * (2 * n) <==> b <= j) by (nonlinear_arith)
        requires
            0 < n,
    ;
    if k == i * n + j {
        lemma_fundamental_div_mod_converse(k, n, i, j);
    }
    if a == i && b == j {
        assert(k == i * n + j);
    }
}

impl DefaultSampler {
    /// A sampler of about `sample_rate` samples per pixel: the square
    /// number of them that is nearest to `sample_rate`.
    pub fn new(sample_rate: u32) -> (s: DefaultSampler)
        ensures
            s.sample_rate == sample_rate,
            s.sample_square_root == nearest_root(sample_rate),
            s.sampler_wf(),
    {
        DefaultSampler { sample_rate: sample_rate, sample_square_root: rounded_sqrt(sample_rate) }
    }
}

impl Sampler for DefaultSampler {
    open spec fn sampler_wf(&self) -> bool {
        self.sample_square_root <= 65536
    }

    /// The centres of the cells of a grid of `sample_square_root` columns
    /// and as many lines, column after column.
    open spec fn distribution(&self) -> Seq<Vector2<Ratio>> {
        Seq::new(
            (self.sample_square_root * self.sample_square_root) as nat,
            |k: int| grid_point(self.sample_square_root as int, k),
        )
    }

    fn get_sample_distribution(&self) -> (d: Vec<Vector2<Ratio>>) {
        let mut result: Vec<Vector2<Ratio>> = Vec::new();
        let n = self.sample_square_root;
        let mut i: u32 = 0;
        while i < n
            invariant
                i <= n <= 65536,
                result@.len() == i * n,
                forall|k: int| 0 <= k < result@.len() ==> #[trigger] result@[k] == grid_point(n as int, k),
                forall|k: int|
                    0 <= k < result@.len() ==> is_fraction((#[trigger] result@[k]).x) && is_fraction(
                        result@[k].y,
                    ),
            decreases n - i,
        {
            let mut j: u32 = 0;
            while j < n
                invariant
                    i < n <= 65536,
                    j <= n,
                    result@.len() == i * n + j,
                    forall|k: int|
                        0 <= k < result@.len() ==> #[trigger] result@[k] == grid_point(n as int, k),
                    forall|k: int|
                        0 <= k < result@.len() ==> is_fraction((#[trigger] result@[k]).x)
                            && is_fraction(result@[k].y),
                decreases n - j,
            {
                proof {
                    lemma_fundamental_div_mod_converse(i * n + j, n as int, i as int, j as int);
                }
                result.push(
                    Vector2 {
                        x: Ratio { num: 2 * (i as i64) + 1, den: 2 * (n as i64) },
                        y: Ratio { num: 2 * (j as i64) + 1, den: 2 * (n as i64) },
                    },
                );
                j = j + 1;
            }
            proof {
                assert((i + 1) * n == i * n + n) by (nonlinear_arith);
            }
            i = i + 1;
        }
        proof {
            assert(result@ =~= self.distribution());
        }
        result
    }
}

/// The digits of `a` in base `basis` span `digit_span(a, basis)`: the least
/// power of the base that is greater than `a`.
pub open spec fn digit_span(a: nat, basis: nat) -> nat
    decreases a,
    via digit_span_decreases
{
    if a == 0 || basis < 2 {
        1
    } else {
        basis * digit_span(a / basis, basis)
    }
}

#[via_fn]
proof fn digit_span_decreases(a: nat, basis: nat) {
    lemma_quotient_decreases(a, basis);
}

/// A positive number divided by a base of two or more is less than itself.
pub proof fn lemma_quotient_decreases(a: nat, basis: nat)
    ensures
        a > 0 && basis >= 2 ==> a / basis < a,
        basis >= 2 ==> a % basis < basis && a == basis * (a / basis) + a % basis,
{
    if basis >= 2 {
        assert(a % basis < basis && a == basis * (a / basis) + a % basis) by (nonlinear_arith)
            requires
                basis >= 2,
        ;
        if a > 0 {
            assert(a / basis < a) by (nonlinear_arith)
                requires
                    a > 0,
                    basis >= 2,
            ;
        }
    }
}

/// The number whose digits in base `basis` are those of `a` in the reverse
/// order.
pub open spec fn reversed_digits(a: nat, basis: nat) -> nat
    decreases a,
    via reversed_digits_decreases
{
    if a == 0 || basis < 2 {
        0
    } else {
        (a % basis) * digit_span(a / basis, basis) + reversed_digits(a / basis, basis)
    }
}

#[via_fn]
proof fn reversed_digits_decreases(a: nat, basis: nat) {
    lemma_quotient_decreases(a, basis);
}

#[via_fn]
proof fn radical_inverse_decreases(a: nat, basis: nat) {
    lemma_quotient_decreases(a, basis);
}

/// The radical inverse of `a` in base `basis`: the number between zero and
/// one whose digits after the point are those of `a` in the reverse order.
pub open spec fn radical_inverse(a: nat, basis: nat) -> real
    decreases a,
    via radical_inverse_decreases
{
    if a == 0 || basis < 2 {
        0real
    } else {
        ((a % basis) as real + radical_inverse(a / basis, basis)) / (basis as real)
    }
}

/// The reversed digits of a number are less than its span, which is
/// positive and at most the number times the base.
pub proof fn lemma_digit_span(a: nat, basis: nat)
    requires
        basis >= 2,
    ensures
        reversed_digits(a, basis) < digit_span(a, basis),
        digit_span(a, basis) >= 1,
        a >= 1 ==> digit_span(a, basis) <= a * basis,
    decreases a,
{
    if a != 0 {
        let q = a / basis;
        let d = a % basis;
        lemma_quotient_decreases(a, basis);
        lemma_digit_span(q, basis);
        let s = digit_span(q, basis);
        assert(d < basis && a == basis * q + d) by (nonlinear_arith)
            requires
                basis >= 2,
                q == a / basis,
                d == a % basis,
        ;
        assert(d * s + reversed_digits(q, basis) < basis * s) by (nonlinear_arith)
            requires
                d < basis,
                reversed_digits(q, basis) < s,
        ;
        if q >= 1 {
            assert(basis * s <= a * basis) by (nonlinear_arith)
                requires
                    s <= q * basis,
                    a == basis * q + d,
                    basis >= 2,
            ;
        } else {
            assert(s == 1);
            assert(basis * 1 <= a * basis) by (nonlinear_arith)
                requires
                    a >= 1,
                    basis >= 2,
            ;
        }
    }
}

/// The ratio of the reversed digits of a number to its span is its radical
/// inverse.
pub proof fn lemma_radical_inverse_ratio(a: nat, basis: nat)
    requires
        basis >= 2,
    ensures
        ratio_of(reversed_digits(a, basis) as int, digit_span(a, basis) as int) == radical_inverse(
            a,
            basis,
        ),
    decreases a,
{
    if a == 0 {
        assert(0real / 1real == 0real) by (nonlinear_arith);
    } else {
        let q = a / basis;
        let d = a % basis;
        lemma_quotient_decreases(a, basis);
        lemma_radical_inverse_ratio(q, basis);
        lemma_digit_span(q, basis);
        let s = digit_span(q, basis) as real;
        let r = reversed_digits(q, basis) as real;
        let b = basis as real;
        let dr = d as real;
        assert((d * digit_span(q, basis)) as real == dr * s) by (nonlinear_arith)
            requires
                dr == d as real,
                s == digit_span(q, basis) as real,
        ;
        assert((basis * digit_span(q, basis)) as real == b * s) by (nonlinear_arith)
            requires
                b == basis as real,
                s == digit_span(q, basis) as real,
        ;
        assert((dr * s + r) / (b * s) == (dr + r / s) / b) by (nonlinear_arith)
            requires
                s >= 1real,
                b >= 2real,
        ;
    }
}

/// The radical inverse lies between zero and one, and is zero for zero
/// only.
pub proof fn lemma_radical_inverse_range(a: nat, basis: nat)
    requires
        basis >= 2,
    ensures
        0real <= radical_inverse(a, basis) < 1real,
        a > 0 ==> radical_inverse(a, basis) > 0real,
    decreases a,
{
    if a != 0 {
        let q = a / basis;
        let d = a % basis;
        lemma_quotient_decreases(a, basis);
        lemma_radical_inverse_range(q, basis);
        assert(d < basis && a == basis * q + d) by (nonlinear_arith)
            requires
                basis >= 2,
                q == a / basis,
                d == a % basis,
        ;
        let x = radical_inverse(q, basis);
        let b = basis as real;
        let dr = d as real;
        assert(dr <= b - 1real);
        assert(0real <= (dr + x) / b < 1real) by (nonlinear_arith)
            requires
                0real <= x < 1real,
                0real <= dr <= b - 1real,
                b >= 2real,
        ;
        if d > 0 {
            assert((dr + x) / b > 0real) by (nonlinear_arith)
                requires
                    0real <= x,
                    dr >= 1real,
                    b >= 2real,
            ;
        } else {
            if q == 0 {
                assert(basis * q == 0) by (nonlinear_arith)
                    requires
                        q == 0,
                ;
            }
            assert(q > 0);
            assert((dr + x) / b > 0real) by (nonlinear_arith)
                requires
                    0real < x,
                    dr >= 0real,
                    b >= 2real,
            ;
        }
    }
}

/// Two numbers with the same radical inverse are the same number.
pub proof fn lemma_radical_inverse_injective(a: nat, c: nat, basis: nat)
    requires
        basis >= 2,
        radical_inverse(a, basis) == radical_inverse(c, basis),
    ensures
        a == c,
    decreases a + c,
{
    lemma_radical_inverse_range(a, basis);
    lemma_radical_inverse_range(c, basis);
    if a != 0 && c != 0 {
        let qa = a / basis;
        let da = a % basis;
        let qc = c / basis;
        let dc = c % basis;
        lemma_quotient_decreases(a, basis);
        lemma_quotient_decreases(c, basis);
        lemma_radical_inverse_range(qa, basis);
        lemma_radical_inverse_range(qc, basis);
        let x = radical_inverse(qa, basis);
        let y = radical_inverse(qc, basis);
        let b = basis as real;
        let dar = da as real;
        let dcr = dc as real;
        assert(dar + x == dcr + y) by (nonlinear_arith)
            requires
                (dar + x) / b == (dcr + y) / b,
                b >= 2real,
        ;
        assert(da == dc);
        assert(x == y);
        assert(a == basis * qa + da && c == basis * qc + dc && qa < a && qc < c) by (nonlinear_arith)
            requires
                basis >= 2,
                a > 0,
                c > 0,
                qa == a / basis,
                da == a % basis,
                qc == c / basis,
                dc == c % basis,
        ;
        lemma_radical_inverse_injective(qa, qc, basis);
    }
}

/// The radical inverse of `a` in base `basis`, as an exact ratio, for every
/// number whose digits span no more than the finest grain of a sample.
pub fn get_halton(a: u32, basis: u32) -> (r: Ratio)
    requires
        2 <= basis,
        digit_span(a as nat, basis as nat) <= GRAIN_LIMIT,
    ensures
        r.num == reversed_digits(a as nat, basis as nat),
        r.den == digit_span(a as nat, basis as nat),
        r.val() == radical_inverse(a as nat, basis as nat),
        is_fraction(r),
{
    // The digits of a, in the reverse order.
    let mut a_rev: u64 = 0;
    let mut a_not_rev: u32 = a;
    let mut total_div: u64 = 1;

    while a_not_rev != 0
        invariant
            2 <= basis,
            digit_span(a as nat, basis as nat) <= GRAIN_LIMIT,
            1 <= total_div,
            a_rev < total_div,
            reversed_digits(a as nat, basis as nat) == a_rev * digit_span(
                a_not_rev as nat,
                basis as nat,
            ) + reversed_digits(a_not_rev as nat, basis as nat),
            digit_span(a as nat, basis as nat) == total_div * digit_span(
                a_not_rev as nat,
                basis as nat,
            ),
        decreases a_not_rev,
    {
        let d = a_not_rev % basis;
        let ghost q = (a_not_rev / basis) as nat;
        let ghost s = digit_span(q, basis as nat);
        proof {
            lemma_quotient_decreases(a_not_rev as nat, basis as nat);
            lemma_digit_span(q, basis as nat);
            assert(digit_span(a_not_rev as nat, basis as nat) == basis * s);
            assert(total_div * (basis * s) == (total_div * basis) * s) by (nonlinear_arith);
            assert(total_div * basis <= (total_div * basis) * s) by (nonlinear_arith)
                requires
                    s >= 1,
                    total_div * basis >= 0,
            ;
            assert(basis * a_rev + d < total_div * basis) by (nonlinear_arith)
                requires
                    a_rev < total_div,
                    d < basis,
            ;
            assert(a_rev * (basis * s) + (d * s + reversed_digits(q, basis as nat)) == (basis
                * a_rev + d) * s + reversed_digits(q, basis as nat)) by (nonlinear_arith);
        }
        a_rev = (basis as u64) * a_rev + d as u64;
        a_not_rev = a_not_rev / basis;
        total_div = total_div * (basis as u64);
    }
    proof {
        lemma_radical_inverse_ratio(a as nat, basis as nat);
        lemma_digit_span(a as nat, basis as nat);
        assert(digit_span(0nat, basis as nat) == 1);
        assert(reversed_digits(0nat, basis as nat) == 0);
        assert(a_rev * 1 == a_rev && total_div * 1 == total_div);
    }
    Ratio { num: a_rev as i64, den: total_div as i64 }
}

/// Whether the radical inverse of `a` in base `basis` can be had: the base
/// is at least two, and the digits of `a` span no more than the finest
/// grain of a sample.
pub fn has_halton(a: u32, basis: u32) -> (b: bool)
    ensures
        b == (2 <= basis && digit_span(a as nat, basis as nat) <= GRAIN_LIMIT),
{
    if basis < 2 {
        return false;
    }
    let mut rest: u32 = a;
    let mut span: u64 = 1;
    while rest != 0
        invariant
            2 <= basis,
            1 <= span <= GRAIN_LIMIT,
            digit_span(a as nat, basis as nat) == span * digit_span(rest as nat, basis as nat),
        decreases rest,
    {
        let ghost q = (rest / basis) as nat;
        let ghost s = digit_span(q, basis as nat);
        proof {
            lemma_quotient_decreases(rest as nat, basis as nat);
            lemma_digit_span(q, basis as nat);
            assert(digit_span(rest as nat, basis as nat) == basis * s);
            assert(span * (basis * s) == (span * basis) * s) by (nonlinear_arith);
            assert(span * basis <= (span * basis) * s) by (nonlinear_arith)
                requires
                    s >= 1,
                    span * basis >= 0,
            ;
            assert(1 <= span * basis <= 1048576 * 0x1_0000_0000) by (nonlinear_arith)
                requires
                    1 <= span <= 1048576,
                    2 <= basis < 0x1_0000_0000,
            ;
        }
        span = span * (basis as u64);
        if span > GRAIN_LIMIT as u64 {
            return false;
        }
        rest = rest / basis;
    }
    proof {
        assert(digit_span(0nat, basis as nat) == 1);
        assert(span * 1 == span);
    }
    true
}

/// A sampler that gives every pixel the first points of the Halton sequence
/// in the bases 2 and 3.
#[derive(Debug)]
pub struct HaltonSampler {
    pub sample_rate: u32,
}

/// The point of rank `i` of the Halton sequence in the bases 2 and 3.
pub open spec fn halton_point(i: nat) -> Vector2<Ratio> {
    Vector2 {
        x: Ratio { num: reversed_digits(i, 2) as i64, den: digit_span(i, 2) as i64 },
        y: Ratio { num: reversed_digits(i, 3) as i64, den: digit_span(i, 3) as i64 },
    }
}

/// No two points of the Halton sequence are at the same place.
pub proof fn lemma_halton_points_differ(i: nat, j: nat)
    requires
        i != j,
        i <= u32::MAX,
        j <= u32::MAX,
    ensures
        halton_point(i).x.val() != halton_point(j).x.val(),
{
    lemma_radical_inverse_ratio(i, 2);
    lemma_radical_inverse_ratio(j, 2);
    lemma_digit_span(i, 2);
    lemma_digit_span(j, 2);
    if radical_inverse(i, 2) == radical_inverse(j, 2) {
        lemma_radical_inverse_injective(i, j, 2);
    }
}

impl HaltonSampler {
    pub fn new(sample_rate: u32) -> (s: HaltonSampler)
        ensures
            s.sample_rate == sample_rate,
    {
        HaltonSampler { sample_rate: sample_rate }
    }
}

impl Sampler for HaltonSampler {
    /// The rate is within its limit: then the points of the sequence are
    /// no finer than the finest grain of a sample.
    open spec fn sampler_wf(&self) -> bool {
        self.sample_rate <= RATE_LIMIT
    }

    /// The first `sample_rate` points of the Halton sequence.
    open spec fn distribution(&self) -> Seq<Vector2<Ratio>> {
        Seq::new(self.sample_rate as nat, |i: int| halton_point(i as nat))
    }

    fn get_sample_distribution(&self) -> (d: Vec<Vector2<Ratio>>) {
        let mut result: Vec<Vector2<Ratio>> = Vec::new();
        let mut i: u32 = 0;
        while i < self.sample_rate
            invariant
                i <= self.sample_rate <= RATE_LIMIT,
                result@.len() == i,
                forall|k: int| 0 <= k < i ==> #[trigger] result@[k] == halton_point(k as nat),
                forall|k: int|
                    0 <= k < i ==> is_fraction((#[trigger] result@[k]).x) && is_fraction(result@[k].y),
            decreases self.sample_rate - i,
        {
            proof {
                lemma_digit_span(i as nat, 2);
                lemma_digit_span(i as nat, 3);
            }
            result.push(Vector2 { x: get_halton(i, 2), y: get_halton(i, 3) });
            i = i + 1;
        }
        proof {
            assert(result@ =~= self.distribution());
        }
        result
    }
}

/// Either of the two samplers.
#[derive(Debug)]
pub enum AnySampler {
    Halton(HaltonSampler),
    Regular(DefaultSampler),
}

impl Sampler for AnySampler {
    open spec fn sampler_wf(&self) -> bool {
        match self {
            AnySampler::Halton(s) => s.sampler_wf(),
            AnySampler::Regular(s) => s.sampler_wf(),
        }
    }

    open spec fn distribution(&self) -> Seq<Vector2<Ratio>> {
        match self {
            AnySampler::Halton(s) => s.distribution(),
            AnySampler::Regular(s) => s.distribution(),
        }
    }

    fn get_sample_distribution(&self) -> (d: Vec<Vector2<Ratio>>) {
        match self {
            AnySampler::Halton(s) => s.get_sample_distribution(),
            AnySampler::Regular(s) => s.get_sample_distribution(),
        }
    }
}

} // verus!
