//! Double-JPEG-compression detection.
//!
//! Signals: periodic histograms of DCT coefficients, first digits that deviate from
//! Benford's law, a blocking grid off the standard offset, and quantization tables that are
//! no scaling of the standard one. Coefficients and statistics are computed in floating
//! point by the caller.

use crate::bits::P55;
use crate::bits::P80;
use crate::bits::P85;
use crate::components::lemma_cell_coords;
use crate::finding::Finding;
use crate::finding::FindingView;
use crate::finding::Severity;
use crate::finding::group_values;
use crate::finding::plain_finding;
use crate::finding::values;
use crate::grid::abs;
use crate::grid::imin;
use crate::grid::pixel;
use crate::grid::px;
use crate::number::is_share_above;
use crate::number::share_above;
use crate::select::how_many;
use crate::select::lemma_which;
use crate::share::Factor;
use crate::share::MAX_COUNT;
use crate::share::POWER_54;
use crate::share::TWO_FIFTHS;
use crate::share::U55;
use crate::share::U90;
use crate::share::graded;
use crate::share::graded_of;
use crate::share::percent;
use crate::share::percent_text;
use crate::text::append_decimal;
use crate::text::decimal_text;
use vstd::prelude::*;
use vstd::string::*;

verus! {

/// The double-JPEG detector.
pub struct DoubleJpegDetector;

/// Above this chi-squared distance first digits deviate, as a key: 0.02.
pub const DIGIT_DISTANCE: i64 = 0x3F94_7AE1_47AE_147B;

/// Above this divergence they deviate gravely, as a key: 0.1.
pub const GRAVE_DIVERGENCE: i64 = 0x3FB9_9999_9999_999A;

/// Above this strength a shifted grid counts, as a key: 1.02.
pub const GRID_STRENGTH: i64 = 0x3FF0_51EB_851E_B852;

/// Above this mean residual a table is no scaling of the standard one, as a key: 0.15.
pub const TABLE_RESIDUAL: i64 = 0x3FC3_3333_3333_3333;

/// The first decimal digit of a number.
pub open spec fn first_digit(n: nat) -> nat
    decreases n,
{
    if n < 10 {
        n
    } else {
        first_digit(n / 10)
    }
}

/// The first digit of a positive number is between one and nine.
pub proof fn law_first_digit(n: nat)
    requires
        n > 0,
    ensures
        1 <= first_digit(n) <= 9,
    decreases n,
{
    if n >= 10 {
        law_first_digit(n / 10);
    }
}

/// How many of the first `n` numbers are positive with the first digit `d`.
pub open spec fn digit_count(v: Seq<u64>, d: int, n: nat) -> nat
    decreases n,
{
    if n == 0 {
        0
    } else {
        digit_count(v, d, (n - 1) as nat) + if v[n - 1] > 0 && first_digit(v[n - 1] as nat) == d {
            1nat
        } else {
            0nat
        }
    }
}

/// How many of the first `n` numbers equal `p`.
pub open spec fn period_count(v: Seq<u32>, p: u32, n: nat) -> nat
    decreases n,
{
    if n == 0 {
        0
    } else {
        period_count(v, p, (n - 1) as nat) + if v[n - 1] == p {
            1nat
        } else {
            0nat
        }
    }
}

/// One period is preferred to another: it is more frequent, or as frequent and smaller.
pub open spec fn is_preferred(v: Seq<u32>, p: u32, q: u32) -> bool {
    period_count(v, p, v.len()) > period_count(v, q, v.len()) || (period_count(v, p, v.len())
        == period_count(v, q, v.len()) && p < q)
}

/// The dominant one among the first `n` periods.
pub open spec fn dominant(v: Seq<u32>, n: nat) -> u32
    decreases n,
{
    if n == 0 {
        0
    } else if n == 1 {
        v[0]
    } else {
        let d = dominant(v, (n - 1) as nat);
        if is_preferred(v, v[n - 1], d) {
            v[n - 1]
        } else {
            d
        }
    }
}

proof fn lemma_dominant(v: Seq<u32>, n: nat, k: int)
    requires
        0 <= k < n <= v.len(),
    ensures
        !is_preferred(v, v[k], dominant(v, n)),
    decreases n,
{
    if n > 1 {
        if k < n - 1 {
            lemma_dominant(v, (n - 1) as nat, k);
        }
    }
}

/// No period is preferred to the dominant one.
pub proof fn law_dominant_period(v: Seq<u32>, k: int)
    requires
        0 <= k < v.len(),
    ensures
        !is_preferred(v, v[k], dominant(v, v.len())),
{
    lemma_dominant(v, v.len(), k);
}

/// The step between the sampled rows and columns: four in images above half a megapixel.
pub open spec fn grid_sampling(w: int, h: int) -> int {
    if w * h > 500_000 {
        4
    } else {
        1
    }
}

/// The absolute difference number `k` across columns: sampled rows, all columns but the
/// first.
pub open spec fn across_step(g: Seq<u8>, w: int, step: int, k: int) -> int {
    let x = 1 + k % (w - 1);
    let y = (k / (w - 1)) * step;
    abs(pixel(g, w, x, y) - pixel(g, w, x - 1, y))
}

/// The absolute difference number `k` across rows: sampled columns, all rows but the first.
pub open spec fn down_step(g: Seq<u8>, w: int, step: int, cols: int, k: int) -> int {
    let x = (k % cols) * step;
    let y = 1 + k / cols;
    abs(pixel(g, w, x, y) - pixel(g, w, x, y - 1))
}

/// The sum of the first `n` differences across columns whose column has the remainder `r`.
pub open spec fn across_sum(g: Seq<u8>, w: int, step: int, r: int, n: nat) -> int
    decreases n,
{
    if n == 0 {
        0
    } else {
        across_sum(g, w, step, r, (n - 1) as nat) + if (1 + (n - 1) % (w - 1)) % 8 == r {
            across_step(g, w, step, n - 1)
        } else {
            0
        }
    }
}

/// The number of the first `n` differences across columns whose column has the remainder `r`.
pub open spec fn across_count(w: int, r: int, n: nat) -> int
    decreases n,
{
    if n == 0 {
        0
    } else {
        across_count(w, r, (n - 1) as nat) + if (1 + (n - 1) % (w - 1)) % 8 == r {
            1int
        } else {
            0int
        }
    }
}

/// The sum of the first `n` differences across rows whose row has the remainder `r`.
pub open spec fn down_sum(g: Seq<u8>, w: int, step: int, cols: int, r: int, n: nat) -> int
    decreases n,
{
    if n == 0 {
        0
    } else {
        down_sum(g, w, step, cols, r, (n - 1) as nat) + if (1 + (n - 1) / cols) % 8 == r {
            down_step(g, w, step, cols, n - 1)
        } else {
            0
        }
    }
}

/// The number of the first `n` differences across rows whose row has the remainder `r`.
pub open spec fn down_count(cols: int, r: int, n: nat) -> int
    decreases n,
{
    if n == 0 {
        0
    } else {
        down_count(cols, r, (n - 1) as nat) + if (1 + (n - 1) / cols) % 8 == r {
            1int
        } else {
            0int
        }
    }
}

/// The number of samples at a step.
pub open spec fn sampled(n: int, step: int) -> int {
    (n + step - 1) / step
}

/// The differences of neighbouring pixels, by the remainders of their positions by eight:
/// sums and counts across columns and across rows.
pub struct GridSums {
    pub across_sum: Vec<u64>,
    pub across_count: Vec<u64>,
    pub down_sum: Vec<u64>,
    pub down_count: Vec<u64>,
}

/// `s` holds the differences of an image.
pub open spec fn holds_sums(s: GridSums, g: Seq<u8>, w: int, h: int) -> bool {
    let step = grid_sampling(w, h);
    let a = (sampled(h, step) * (w - 1)) as nat;
    let cols = sampled(w, step);
    let d = (cols * (h - 1)) as nat;
    &&& s.across_sum.len() == 8
    &&& s.across_count.len() == 8
    &&& s.down_sum.len() == 8
    &&& s.down_count.len() == 8
    &&& forall|r: int|
        0 <= r < 8 ==> #[trigger] s.across_sum@[r] == across_sum(g, w, step, r, a)
    &&& forall|r: int| 0 <= r < 8 ==> #[trigger] s.across_count@[r] == across_count(w, r, a)
    &&& forall|r: int|
        0 <= r < 8 ==> #[trigger] s.down_sum@[r] == down_sum(g, w, step, cols, r, d)
    &&& forall|r: int| 0 <= r < 8 ==> #[trigger] s.down_count@[r] == down_count(cols, r, d)
}

proof fn lemma_across(g: Seq<u8>, w: int, step: int, r: int, n: nat)
    ensures
        0 <= across_sum(g, w, step, r, n) <= 255 * n,
        0 <= across_count(w, r, n) <= n,
    decreases n,
{
    if n > 0 {
        lemma_across(g, w, step, r, (n - 1) as nat);
    }
}

proof fn lemma_down(g: Seq<u8>, w: int, step: int, cols: int, r: int, n: nat)
    ensures
        0 <= down_sum(g, w, step, cols, r, n) <= 255 * n,
        0 <= down_count(cols, r, n) <= n,
    decreases n,
{
    if n > 0 {
        lemma_down(g, w, step, cols, r, (n - 1) as nat);
    }
}

/// The strongest grid offset but the standard one.
#[derive(Debug, Clone, Copy, PartialEq, Eq, Structural)]
pub struct Offset {
    pub x: usize,
    pub y: usize,
    pub strength: i64,
}

/// The strongest of the first `n` offsets, row by row, the first of equals. The standard
/// offset, the very first, does not count.
pub open spec fn best_offset(grid: Seq<i64>, n: nat) -> Offset
    decreases n,
{
    if n <= 1 {
        Offset { x: 0, y: 0, strength: 0 }
    } else {
        let b = best_offset(grid, (n - 1) as nat);
        if grid[n - 1] > b.strength {
            Offset {
                x: ((n - 1) % 8) as usize,
                y: ((n - 1) / 8) as usize,
                strength: grid[n - 1],
            }
        } else {
            b
        }
    }
}

/// The finding on a shifted grid.
pub open spec fn shifted_finding(o: Offset, percent: Seq<char>) -> FindingView {
    plain_finding(
        "double_jpeg"@,
        "shifted_jpeg_grid"@,
        "JPEG blocking grid at offset ("@ + decimal_text(o.x as nat) + ","@ + decimal_text(
            o.y as nat,
        ) + ") is "@ + percent
            + "% stronger than standard (0,0) grid - image was JPEG-compressed, cropped by non-8-pixel boundary, then re-compressed"@,
        Severity::High,
        P80,
    )
}

/// The finding on periodic histograms.
pub open spec fn periodicity_finding(
    periodic: int,
    tested: int,
    period: int,
    strength: Seq<char>,
) -> FindingView {
    plain_finding(
        "double_jpeg"@,
        "double_jpeg_periodicity"@,
        "Double JPEG compression detected: "@ + percent_text(periodic as nat, tested as nat)
            + "% of DCT coefficient histograms show periodic patterns (dominant period Q1≈"@
            + decimal_text(period as nat) + ", avg strength "@ + strength
            + ") - image was decompressed and re-compressed"@,
        Severity::High,
        graded_of(
            U55,
            periodic as nat,
            tested as nat,
            Factor { num: TWO_FIFTHS, den: POWER_54 },
            U90,
        ),
    )
}

/// The finding on first digits.
pub open spec fn benford_finding(
    chi: Seq<char>,
    kl_text: Seq<char>,
    kl: i64,
    confidence: u64,
) -> FindingView {
    plain_finding(
        "double_jpeg"@,
        "benfords_law_violation"@,
        "DCT coefficient first-digit distribution deviates from Benford's Law (χ²="@ + chi
            + ", KL divergence="@ + kl_text
            + ") - indicates double compression or non-camera-original content"@,
        if kl > GRAVE_DIVERGENCE {
            Severity::High
        } else {
            Severity::Medium
        },
        confidence,
    )
}

/// The finding on a table that is no scaling of the standard one.
pub open spec fn table_finding(index: int, residual: Seq<char>) -> FindingView {
    plain_finding(
        "double_jpeg"@,
        "non_standard_quantization"@,
        "Quantization table "@ + decimal_text(index as nat)
            + " is not a uniform scaling of standard JPEG tables (mean residual "@ + residual
            + ") - may indicate custom processing or double compression"@,
        Severity::Medium,
        P55,
    )
}

/// The finding on the estimated quality.
pub open spec fn quality_finding(index: int, quality: int) -> FindingView {
    plain_finding(
        "double_jpeg"@,
        "jpeg_quality_estimate"@,
        "Estimated JPEG quality factor: ~"@ + decimal_text(quality as nat) + " (table "@
            + decimal_text(index as nat) + ")"@,
        Severity::Info,
        P85,
    )
}

/// The report on a table: its mean residual, as a key and with three decimals, and the
/// quality estimated from it.
pub open spec fn table_findings(
    index: int,
    residual: i64,
    residual_text: Seq<char>,
    quality: int,
) -> Seq<FindingView> {
    (if residual > TABLE_RESIDUAL {
        seq![table_finding(index, residual_text)]
    } else {
        Seq::empty()
    }) + seq![quality_finding(index, quality)]
}

fn digit_of(n: u64) -> (r: u64)
    ensures
        r == first_digit(n as nat),
        r <= 9,
{
    let mut d: u64 = n;
    while d >= 10
        invariant
            first_digit(n as nat) == first_digit(d as nat),
        decreases d,
    {
        d = d / 10;
    }
    d
}

proof fn lemma_digit_bound(v: Seq<u64>, d: int, n: nat)
    ensures
        digit_count(v, d, n) <= n,
    decreases n,
{
    if n > 0 {
        lemma_digit_bound(v, d, (n - 1) as nat);
    }
}

fn count_period(v: &Vec<u32>, p: u32) -> (r: usize)
    ensures
        r == period_count(v@, p, v@.len()),
{
    let mut c: usize = 0;
    let mut i: usize = 0;
    while i < v.len()
        invariant
            i <= v.len(),
            c <= i,
            c == period_count(v@, p, i as nat),
        decreases v.len() - i,
    {
        if v[i] == p {
            c += 1;
        }
        i += 1;
    }
    c
}

fn step_between(a: i64, b: i64) -> (r: u64)
    requires
        0 <= a <= 255,
        0 <= b <= 255,
    ensures
        r == abs(a - b),
        r <= 255,
{
    if a >= b {
        (a - b) as u64
    } else {
        (b - a) as u64
    }
}

fn samples_at(n: usize, step: usize) -> (r: usize)
    requires
        n >= 1,
        step == 1 || step == 4,
    ensures
        r == sampled(n as int, step as int),
        1 <= r <= n,
        (r - 1) * step < n,
{
    if step == 1 {
        n
    } else {
        (n - 1) / 4 + 1
    }
}

/// The differences at the block boundaries of a grid offset, and the others.
#[derive(Debug, Clone, Copy, PartialEq, Eq, Structural)]
pub struct GridParts {
    pub boundary_sum: u128,
    pub boundary_count: u128,
    pub inner_sum: u128,
    pub inner_count: u128,
}

/// The sum of the first `n` numbers.
pub open spec fn total_of(v: Seq<u64>, n: nat) -> int
    decreases n,
{
    if n == 0 {
        0
    } else {
        total_of(v, (n - 1) as nat) + v[n - 1]
    }
}

/// The remainder by eight of the positions that are boundaries for an offset.
pub open spec fn boundary_at(offset: int) -> int {
    (8 - offset) % 8
}

/// The parts of the differences for the grid at an offset.
pub open spec fn parts_at(s: GridSums, x: int, y: int) -> GridParts {
    let sum = s.across_sum@[boundary_at(x)] + s.down_sum@[boundary_at(y)];
    let count = s.across_count@[boundary_at(x)] + s.down_count@[boundary_at(y)];
    GridParts {
        boundary_sum: sum as u128,
        boundary_count: count as u128,
        inner_sum: (total_of(s.across_sum@, 8) + total_of(s.down_sum@, 8) - sum) as u128,
        inner_count: (total_of(s.across_count@, 8) + total_of(s.down_count@, 8) - count) as u128,
    }
}

/// A position lies on a boundary of the grid at an offset if and only if it and the offset
/// add up to a multiple of eight.
pub proof fn law_boundary(position: int, offset: int)
    requires
        0 <= offset < 8,
    ensures
        position % 8 == boundary_at(offset) <==> (position + offset) % 8 == 0,
{
}

proof fn lemma_total_of(v: Seq<u64>, n: nat)
    requires
        n <= v.len(),
    ensures
        0 <= total_of(v, n) <= n * u64::MAX,
        forall|i: int| 0 <= i < n ==> #[trigger] v[i] <= total_of(v, n),
    decreases n,
{
    if n > 0 {
        lemma_total_of(v, (n - 1) as nat);
        assert(n * u64::MAX == (n - 1) * u64::MAX + u64::MAX) by (nonlinear_arith);
    }
}

fn total(v: &Vec<u64>) -> (r: u128)
    requires
        v.len() == 8,
    ensures
        r == total_of(v@, 8),
        r <= 8 * u64::MAX,
        forall|i: int| 0 <= i < 8 ==> #[trigger] v@[i] <= r,
{
    let mut r: u128 = 0;
    let mut i: usize = 0;
    while i < 8
        invariant
            i <= 8,
            v.len() == 8,
            r == total_of(v@, i as nat),
        decreases 8 - i,
    {
        proof {
            lemma_total_of(v@, i as nat);
            assert(i * u64::MAX <= 8 * u64::MAX) by (nonlinear_arith)
                requires
                    i <= 8,
            ;
        }
        r += v[i] as u128;
        i += 1;
    }
    proof {
        lemma_total_of(v@, 8);
    }
    r
}

/// How many of the first `n` coefficients have a value.
pub open spec fn hits(v: Seq<i32>, value: int, n: nat) -> int
    decreases n,
{
    if n == 0 {
        0
    } else {
        hits(v, value, (n - 1) as nat) + if v[n - 1] == value {
            1int
        } else {
            0int
        }
    }
}

proof fn lemma_hits(v: Seq<i32>, value: int, n: nat)
    ensures
        0 <= hits(v, value, n) <= n,
    decreases n,
{
    if n > 0 {
        lemma_hits(v, value, (n - 1) as nat);
    }
}

/// The largest coefficient that is counted.
pub const MAX_COEFFICIENT: i32 = 1024;

/// The number of bins of a coefficient histogram.
pub const COEFFICIENT_BINS: usize = 2049;

/// The sum of the first `n` bins but that of zero.
pub open spec fn populated(bins: Seq<u32>, n: nat) -> int
    decreases n,
{
    if n == 0 {
        0
    } else {
        populated(bins, (n - 1) as nat) + if n - 1 == MAX_COEFFICIENT {
            0
        } else {
            bins[n - 1] as int
        }
    }
}

/// The share of the power above which a frequency can be significant, as a key: 0.05.
pub const PERIOD_STRENGTH: i64 = 0x3FA9_9999_9999_999A;

/// The period of frequency `k` over `n` bins is one or more away from a quantization step.
pub open spec fn off_step(n: int, k: int, step: int) -> bool {
    n - step * k >= k || step * k - n >= k
}

/// The strongest of the frequencies from two up to `k` whose period is not that of the
/// step, the first of equals; zero if none has power.
pub open spec fn strongest_frequency(power: Seq<i64>, n: int, step: int, k: nat) -> int
    decreases k,
{
    if k <= 2 {
        0
    } else {
        let p = strongest_frequency(power, n, step, (k - 1) as nat);
        let most = if p == 0 {
            0
        } else {
            power[p]
        };
        if power[k - 1] > most && off_step(n, k - 1, step) {
            k - 1
        } else {
            p
        }
    }
}

/// The frequencies that are examined: those below a quarter of the bins.
pub open spec fn frequency_end(n: int, powers: int) -> int {
    imin(n / 4, powers)
}

/// `n / k` rounded to the nearest integer, halves up.
pub open spec fn rounded_period(n: int, k: int) -> int {
    (2 * n + k) / (2 * k)
}

impl DoubleJpegDetector {
    /// The frequency of the strongest periodicity of `n` bins other than that of the
    /// quantization step, and its period. `power` holds the keys of the powers.
    pub fn strongest_period(&self, power: &Vec<i64>, n: usize, step: u32) -> (r: Option<
        (usize, u32),
    >)
        requires
            n <= COEFFICIENT_BINS,
        ensures
            ({
                let k = strongest_frequency(
                    power@,
                    n as int,
                    step as int,
                    frequency_end(n as int, power@.len() as int) as nat,
                );
                r == if k == 0 {
                    None
                } else {
                    Some((k as usize, rounded_period(n as int, k) as u32))
                }
            }),
            r matches Some(p) ==> 2 <= p.0 < power.len(),
    {
        let end: usize = if n / 4 < power.len() {
            n / 4
        } else {
            power.len()
        };
        let mut best: usize = 0;
        let mut most: i64 = 0;
        let mut k: usize = 2;
        while k < end
            invariant
                2 <= k,
                end <= power.len(),
                end <= n,
                n <= COEFFICIENT_BINS,
                k <= end || k == 2,
                best == strongest_frequency(power@, n as int, step as int, k as nat),
                best == 0 || 2 <= best < end,
                most == (if best == 0 {
                    0
                } else {
                    power@[best as int]
                }),
            decreases end - k,
        {
            proof {
                assert(0 <= step * k <= u32::MAX * COEFFICIENT_BINS) by (nonlinear_arith)
                    requires
                        0 <= step <= u32::MAX,
                        0 <= k <= COEFFICIENT_BINS,
                ;
            }
            let at: i64 = step as i64 * k as i64;
            let off: i64 = n as i64 - at;
            if power[k] > most && (off >= k as i64 || -off >= k as i64) {
                best = k;
                most = power[k];
            }
            k += 1;
        }
        if best == 0 {
            None
        } else {
            Some((best, ((2 * n + best) / (2 * best)) as u32))
        }
    }

    /// Whether a periodicity is significant, given the keys of its share of the power, of
    /// its power and of the power that noise reaches.
    pub fn is_significant(&self, strength: i64, power: i64, noise: i64, period: u32) -> (r: bool)
        ensures
            r == (strength > PERIOD_STRENGTH && power > noise && period >= 2),
    {
        strength > PERIOD_STRENGTH && power > noise && period >= 2
    }

    /// Whether an image is large enough for its blocking grid to be tested.
    pub fn has_grid(&self, w: usize, h: usize) -> (r: bool)
        ensures
            r == (w >= 32 && h >= 32),
    {
        w >= 32 && h >= 32
    }

    /// Parts the differences into those at the boundaries of the grid at an offset and the
    /// others.
    pub fn grid_parts(&self, s: &GridSums, x: usize, y: usize) -> (r: GridParts)
        requires
            s.across_sum.len() == 8,
            s.across_count.len() == 8,
            s.down_sum.len() == 8,
            s.down_count.len() == 8,
            x < 8,
            y < 8,
        ensures
            r == parts_at(*s, x as int, y as int),
    {
        let at_x: usize = (8 - x) % 8;
        let at_y: usize = (8 - y) % 8;
        let boundary_sum: u128 = s.across_sum[at_x] as u128 + s.down_sum[at_y] as u128;
        let boundary_count: u128 = s.across_count[at_x] as u128 + s.down_count[at_y] as u128;
        let all: u128 = total(&s.across_sum) + total(&s.down_sum);
        let count: u128 = total(&s.across_count) + total(&s.down_count);
        GridParts {
            boundary_sum,
            boundary_count,
            inner_sum: all - boundary_sum,
            inner_count: count - boundary_count,
        }
    }

    /// Counts the rounded coefficients by value, from minus the largest to the largest;
    /// others are left out.
    pub fn coefficient_histogram(&self, v: &Vec<i32>) -> (r: Vec<u32>)
        requires
            v.len() <= u32::MAX,
        ensures
            r.len() == COEFFICIENT_BINS,
            forall|k: int|
                0 <= k < COEFFICIENT_BINS ==> #[trigger] r@[k] == hits(
                    v@,
                    k - MAX_COEFFICIENT,
                    v@.len(),
                ),
    {
        let mut r: Vec<u32> = vec![0u32; COEFFICIENT_BINS];
        let mut i: usize = 0;
        while i < v.len()
            invariant
                i <= v.len() <= u32::MAX,
                r.len() == COEFFICIENT_BINS,
                forall|k: int|
                    0 <= k < COEFFICIENT_BINS ==> #[trigger] r@[k] == hits(
                        v@,
                        k - MAX_COEFFICIENT,
                        i as nat,
                    ),
            decreases v.len() - i,
        {
            if -MAX_COEFFICIENT <= v[i] && v[i] <= MAX_COEFFICIENT {
                let k: usize = (v[i] + MAX_COEFFICIENT) as usize;
                proof {
                    lemma_hits(v@, v@[i as int] as int, i as nat);
                }
                r.set(k, r[k] + 1);
            }
            i += 1;
        }
        r
    }

    /// Whether a histogram has enough coefficients other than zero to be tested.
    pub fn is_tested(&self, bins: &Vec<u32>) -> (r: bool)
        requires
            bins.len() == COEFFICIENT_BINS,
        ensures
            r == (populated(bins@, COEFFICIENT_BINS as nat) >= 100),
    {
        let mut sum: u64 = 0;
        let mut i: usize = 0;
        while i < COEFFICIENT_BINS
            invariant
                i <= COEFFICIENT_BINS,
                bins.len() == COEFFICIENT_BINS,
                sum == populated(bins@, i as nat),
                sum <= i * u32::MAX,
            decreases COEFFICIENT_BINS - i,
        {
            if i != 1024 {
                sum += bins[i] as u64;
            }
            i += 1;
        }
        sum >= 100
    }

    /// Counts the first digits of positive numbers: the counts of the digits one to nine.
    pub fn count_digits(&self, v: &Vec<u64>) -> (r: Vec<u64>)
        ensures
            r.len() == 9,
            forall|d: int| 1 <= d <= 9 ==> #[trigger] r@[d - 1] == digit_count(v@, d, v@.len()),
    {
        let mut r: Vec<u64> = vec![0; 9];
        let mut i: usize = 0;
        while i < v.len()
            invariant
                i <= v.len(),
                r.len() == 9,
                forall|d: int|
                    0 <= d < 9 ==> #[trigger] r@[d] == digit_count(v@, d + 1, i as nat),
            decreases v.len() - i,
        {
            if v[i] > 0 {
                proof {
                    law_first_digit(v@[i as int] as nat);
                }
                let d: usize = digit_of(v[i]) as usize;
                proof {
                    lemma_digit_bound(v@, d as int, i as nat);
                }
                let c: u64 = r[d - 1];
                r.set(d - 1, c + 1);
            }
            i += 1;
        }
        proof {
            assert forall|d: int| 1 <= d <= 9 implies #[trigger] r@[d - 1] == digit_count(
                v@,
                d,
                v@.len(),
            ) by {
                let k = d - 1;
                assert(r@[k] == digit_count(v@, k + 1, v@.len()));
            }
        }
        r
    }

    /// The dominant period: the most frequent one, the smallest of equals; zero if there is
    /// none.
    pub fn dominant_period(&self, v: &Vec<u32>) -> (r: u32)
        ensures
            r == dominant(v@, v@.len()),
    {
        if v.len() == 0 {
            return 0;
        }
        let mut best: u32 = v[0];
        let mut most: usize = count_period(v, v[0]);
        let mut i: usize = 1;
        while i < v.len()
            invariant
                1 <= i <= v.len(),
                best == dominant(v@, i as nat),
                most == period_count(v@, best, v@.len()),
            decreases v.len() - i,
        {
            let c: usize = count_period(v, v[i]);
            if c > most || (c == most && v[i] < best) {
                best = v[i];
                most = c;
            }
            i += 1;
        }
        best
    }

    /// The differences of neighbouring pixels by their positions in the grid.
    pub fn grid_sums(&self, g: &[u8], w: usize, h: usize) -> (r: GridSums)
        requires
            g.len() == w * h,
            w >= 2,
            h >= 2,
            255 * (w * h) <= u64::MAX,
        ensures
            holds_sums(r, g@, w as int, h as int),
    {
        let step: usize = if w * h > 500_000 {
            4
        } else {
            1
        };
        let rows: usize = samples_at(h, step);
        let cols: usize = samples_at(w, step);
        proof {
            assert(rows * (w - 1) <= w * h) by (nonlinear_arith)
                requires
                    0 <= rows <= h,
                    1 <= w,
            ;
            assert(cols * (h - 1) <= w * h) by (nonlinear_arith)
                requires
                    0 <= cols <= w,
                    1 <= h,
            ;
        }
        let a: usize = rows * (w - 1);
        let mut asum: Vec<u64> = vec![0; 8];
        let mut acnt: Vec<u64> = vec![0; 8];
        let mut k: usize = 0;
        while k < a
            invariant
                k <= a,
                a == rows * (w - 1),
                a <= w * h,
                g.len() == w * h,
                w >= 2,
                h >= 2,
                255 * (w * h) <= u64::MAX,
                step == grid_sampling(w as int, h as int),
                step >= 1,
                (rows - 1) * step < h,
                asum.len() == 8,
                acnt.len() == 8,
                forall|r: int|
                    0 <= r < 8 ==> #[trigger] asum@[r] == across_sum(
                        g@,
                        w as int,
                        step as int,
                        r,
                        k as nat,
                    ),
                forall|r: int|
                    0 <= r < 8 ==> #[trigger] acnt@[r] == across_count(w as int, r, k as nat),
            decreases a - k,
        {
            proof {
                lemma_cell_coords(w - 1, rows as int, k as int);
                let row = k as int / (w - 1);
                assert(0 <= row * step <= (rows - 1) * step) by (nonlinear_arith)
                    requires
                        0 <= row <= rows - 1,
                        step >= 1,
                ;
            }
            let x: usize = 1 + k % (w - 1);
            let y: usize = (k / (w - 1)) * step;
            let d: u64 = step_between(px(g, w, h, x, y), px(g, w, h, x - 1, y));
            let r: usize = x % 8;
            proof {
                lemma_across(g@, w as int, step as int, r as int, k as nat);
            }
            let s: u64 = asum[r];
            let c: u64 = acnt[r];
            asum.set(r, s + d);
            acnt.set(r, c + 1);
            k += 1;
        }
        let b: usize = cols * (h - 1);
        let mut dsum: Vec<u64> = vec![0; 8];
        let mut dcnt: Vec<u64> = vec![0; 8];
        let mut j: usize = 0;
        while j < b
            invariant
                j <= b,
                b == cols * (h - 1),
                b <= w * h,
                g.len() == w * h,
                w >= 2,
                h >= 2,
                255 * (w * h) <= u64::MAX,
                step >= 1,
                cols >= 1,
                (cols - 1) * step < w,
                dsum.len() == 8,
                dcnt.len() == 8,
                forall|r: int|
                    0 <= r < 8 ==> #[trigger] dsum@[r] == down_sum(
                        g@,
                        w as int,
                        step as int,
                        cols as int,
                        r,
                        j as nat,
                    ),
                forall|r: int|
                    0 <= r < 8 ==> #[trigger] dcnt@[r] == down_count(cols as int, r, j as nat),
            decreases b - j,
        {
            proof {
                lemma_cell_coords(cols as int, h - 1, j as int);
                let col = j as int % (cols as int);
                assert(0 <= col * step <= (cols - 1) * step) by (nonlinear_arith)
                    requires
                        0 <= col <= cols - 1,
                        step >= 1,
                ;
            }
            let x: usize = (j % cols) * step;
            let y: usize = 1 + j / cols;
            let d: u64 = step_between(px(g, w, h, x, y), px(g, w, h, x, y - 1));
            let r: usize = y % 8;
            proof {
                lemma_down(g@, w as int, step as int, cols as int, r as int, j as nat);
            }
            let s: u64 = dsum[r];
            let c: u64 = dcnt[r];
            dsum.set(r, s + d);
            dcnt.set(r, c + 1);
            j += 1;
        }
        GridSums { across_sum: asum, across_count: acnt, down_sum: dsum, down_count: dcnt }
    }

    /// The strongest grid offset but the standard one, given the strengths of all offsets row
    /// by row.
    pub fn strongest_offset(&self, grid: &Vec<i64>) -> (r: Offset)
        requires
            grid.len() == 64,
        ensures
            r == best_offset(grid@, 64),
            r.x < 8,
            r.y < 8,
    {
        let mut b = Offset { x: 0, y: 0, strength: 0 };
        let mut i: usize = 1;
        while i < 64
            invariant
                1 <= i <= 64,
                grid.len() == 64,
                b == best_offset(grid@, i as nat),
                b.x < 8,
                b.y < 8,
            decreases 64 - i,
        {
            if grid[i] > b.strength {
                b = Offset { x: i % 8, y: i / 8, strength: grid[i] };
            }
            i += 1;
        }
        b
    }

    /// Reports a shifted grid, if it is stronger than the standard one by more than five
    /// percent. `limit` is the key of 1.05 times the strength of the standard grid, `percent`
    /// how much stronger the shifted one is, with one decimal.
    pub fn report_grid(&self, o: Offset, limit: i64, percent: &str) -> (r: Option<Finding>)
        ensures
            match r {
                Some(f) => o.strength > limit && o.strength > GRID_STRENGTH && f@
                    == shifted_finding(o, percent@),
                None => o.strength <= limit || o.strength <= GRID_STRENGTH,
            },
    {
        if o.strength > limit && o.strength > GRID_STRENGTH {
            let mut t = "JPEG blocking grid at offset (".to_string();
            append_decimal(&mut t, o.x as u64);
            t.append(",");
            append_decimal(&mut t, o.y as u64);
            t.append(") is ");
            t.append(percent);
            t.append(
                "% stronger than standard (0,0) grid - image was JPEG-compressed, cropped by non-8-pixel boundary, then re-compressed",
            );
            Some(Finding::new("double_jpeg", "shifted_jpeg_grid", t, Severity::High, P80))
        } else {
            None
        }
    }

    /// Reports periodic histograms, if more than fifteen percent of those tested are.
    pub fn report_periodicity(
        &self,
        periodic: usize,
        tested: usize,
        period: u32,
        strength: &str,
    ) -> (r: Option<Finding>)
        requires
            periodic <= tested <= MAX_COUNT,
        ensures
            match r {
                Some(f) => tested > 0 && share_above(periodic as int, tested as int, 15, 100) && f@
                    == periodicity_finding(
                    periodic as int,
                    tested as int,
                    period as int,
                    strength@,
                ),
                None => tested == 0 || !share_above(periodic as int, tested as int, 15, 100),
            },
    {
        if tested > 0 && is_share_above(periodic as u64, tested as u64, 15, 100) {
            let mut t = "Double JPEG compression detected: ".to_string();
            let share = percent(periodic as u64, tested as u64);
            t.append(share.as_str());
            t.append(
                "% of DCT coefficient histograms show periodic patterns (dominant period Q1≈",
            );
            append_decimal(&mut t, period as u64);
            t.append(", avg strength ");
            t.append(strength);
            t.append(") - image was decompressed and re-compressed");
            let factor = Factor { num: TWO_FIFTHS, den: POWER_54 };
            let sure: u64 = graded(U55, periodic as u64, tested as u64, factor, U90);
            Some(
                Finding::new(
                    "double_jpeg",
                    "double_jpeg_periodicity",
                    t,
                    Severity::High,
                    sure,
                ),
            )
        } else {
            None
        }
    }

    /// Reports first digits that deviate, if there are at least a thousand of them. `chi` and
    /// `kl` are keys; the texts have four decimals.
    pub fn report_digits(
        &self,
        total: u64,
        chi: i64,
        kl: i64,
        chi_text: &str,
        kl_text: &str,
        confidence: u64,
    ) -> (r: Option<Finding>)
        ensures
            match r {
                Some(f) => total >= 1000 && chi > DIGIT_DISTANCE && f@ == benford_finding(
                    chi_text@,
                    kl_text@,
                    kl,
                    confidence,
                ),
                None => total < 1000 || chi <= DIGIT_DISTANCE,
            },
    {
        if total >= 1000 && chi > DIGIT_DISTANCE {
            let mut t =
                "DCT coefficient first-digit distribution deviates from Benford's Law (χ²=".to_string();
            t.append(chi_text);
            t.append(", KL divergence=");
            t.append(kl_text);
            t.append(") - indicates double compression or non-camera-original content");
            let severity = if kl > GRAVE_DIVERGENCE {
                Severity::High
            } else {
                Severity::Medium
            };
            Some(Finding::new("double_jpeg", "benfords_law_violation", t, severity, confidence))
        } else {
            None
        }
    }

    /// Reports on a quantization table.
    pub fn analyze_qtable_forensics(
        &self,
        index: usize,
        residual: i64,
        residual_text: &str,
        quality: u8,
    ) -> (r: Vec<Finding>)
        ensures
            values(r@) == table_findings(index as int, residual, residual_text@, quality as int),
    {
        broadcast use group_values;

        let mut r: Vec<Finding> = Vec::new();
        if residual > TABLE_RESIDUAL {
            let mut t = "Quantization table ".to_string();
            append_decimal(&mut t, index as u64);
            t.append(" is not a uniform scaling of standard JPEG tables (mean residual ");
            t.append(residual_text);
            t.append(") - may indicate custom processing or double compression");
            r.push(
                Finding::new("double_jpeg", "non_standard_quantization", t, Severity::Medium, P55),
            );
        }
        let mut t = "Estimated JPEG quality factor: ~".to_string();
        append_decimal(&mut t, quality as u64);
        t.append(" (table ");
        append_decimal(&mut t, index as u64);
        t.append(")");
        r.push(Finding::new("double_jpeg", "jpeg_quality_estimate", t, Severity::Info, P85));
        proof {
            assert(values(r@) =~= table_findings(
                index as int,
                residual,
                residual_text@,
                quality as int,
            ));
        }
        r
    }
}

/// A digit is counted for the positive numbers that begin with it.
pub proof fn law_digits_are_counted(v: Seq<u64>, d: int, n: nat)
    requires
        n <= v.len(),
    ensures
        digit_count(v, d, n) == how_many(n, |i: int| v[i] != 0 && first_digit(v[i] as nat) == d),
    decreases n,
{
    let p = |i: int| v[i] != 0 && first_digit(v[i] as nat) == d;
    lemma_which(0, p);
    if n > 0 {
        law_digits_are_counted(v, d, (n - 1) as nat);
        lemma_which((n - 1) as nat, p);
    }
}

/// A period is counted where it occurs.
pub proof fn law_periods_are_counted(v: Seq<u32>, p0: u32, n: nat)
    requires
        n <= v.len(),
    ensures
        period_count(v, p0, n) == how_many(n, |i: int| v[i] == p0),
    decreases n,
{
    let p = |i: int| v[i] == p0;
    lemma_which(0, p);
    if n > 0 {
        law_periods_are_counted(v, p0, (n - 1) as nat);
        lemma_which((n - 1) as nat, p);
    }
}

/// The differences along rows are added up by the column of their right pixel, modulo
/// eight.
pub proof fn law_across_sums(g: Seq<u8>, w: int, step: int, r: int, n: nat)
    ensures
        across_sum(g, w, step, r, n) == crate::select::total(n, |i: int| (if (i % (w - 1) + 1) % 8 == r { across_step(g, w, step, i) } else { 0 })),
    decreases n,
{
    if n > 0 {
        law_across_sums(g, w, step, r, (n - 1) as nat);
    }
}

/// They are counted alike.
pub proof fn law_across_counts(w: int, r: int, n: nat)
    ensures
        across_count(w, r, n) == how_many(n, |i: int| (i % (w - 1) + 1) % 8 == r),
    decreases n,
{
    let p = |i: int| (i % (w - 1) + 1) % 8 == r;
    lemma_which(0, p);
    if n > 0 {
        law_across_counts(w, r, (n - 1) as nat);
        lemma_which((n - 1) as nat, p);
    }
}

/// The differences along columns are added up by the row of their lower pixel, modulo
/// eight.
pub proof fn law_down_sums(g: Seq<u8>, w: int, step: int, cols: int, r: int, n: nat)
    ensures
        down_sum(g, w, step, cols, r, n) == crate::select::total(n, |i: int| (if (i / cols + 1) % 8 == r { down_step(g, w, step, cols, i) } else { 0 })),
    decreases n,
{
    if n > 0 {
        law_down_sums(g, w, step, cols, r, (n - 1) as nat);
    }
}

/// They are counted alike.
pub proof fn law_down_counts(cols: int, r: int, n: nat)
    ensures
        down_count(cols, r, n) == how_many(n, |i: int| (i / cols + 1) % 8 == r),
    decreases n,
{
    let p = |i: int| (i / cols + 1) % 8 == r;
    lemma_which(0, p);
    if n > 0 {
        law_down_counts(cols, r, (n - 1) as nat);
        lemma_which((n - 1) as nat, p);
    }
}

/// Differences are those of neighbours: along a row of a pixel and the one left of it, along a
/// column of a pixel and the one above it.
pub proof fn law_grid_steps(g: Seq<u8>, w: int, step: int, cols: int, k: int)
    ensures
        ({
            let (x, y) = (1 + k % (w - 1), (k / (w - 1)) * step);
            let (a, b) = (g[y * w + x] as int, g[y * w + (x - 1)] as int);
            across_step(g, w, step, k) == if a > b {
                a - b
            } else {
                b - a
            }
        }),
        ({
            let (x, y) = ((k % cols) * step, 1 + k / cols);
            let (a, b) = (g[y * w + x] as int, g[(y - 1) * w + x] as int);
            down_step(g, w, step, cols, k) == if a > b {
                a - b
            } else {
                b - a
            }
        }),
{
}

/// The differences on the boundary at an offset are those of its column and of its row; with
/// the others they are all.
pub proof fn law_grid_parts(s: GridSums, x: int, y: int)
    requires
        0 <= x < 8,
        0 <= y < 8,
        s.across_sum@.len() == 8,
        s.down_sum@.len() == 8,
        s.across_count@.len() == 8,
        s.down_count@.len() == 8,
    ensures
        ({
            let p = parts_at(s, x, y);
            let a = if x == 0 {
                0
            } else {
                8 - x
            };
            let d = if y == 0 {
                0
            } else {
                8 - y
            };
            &&& p.boundary_sum == s.across_sum@[a] + s.down_sum@[d]
            &&& p.boundary_count == s.across_count@[a] + s.down_count@[d]
            &&& p.boundary_sum + p.inner_sum == crate::select::total(8, |k: int| s.across_sum@[k] as int) + crate::select::total(
                8,
                |k: int| s.down_sum@[k] as int,
            )
            &&& p.boundary_count + p.inner_count == crate::select::total(8, |k: int| s.across_count@[k] as int)
                + crate::select::total(8, |k: int| s.down_count@[k] as int)
        }),
{
    lemma_total_terms(s.across_sum@, 8);
    lemma_total_terms(s.down_sum@, 8);
    lemma_total_terms(s.across_count@, 8);
    lemma_total_terms(s.down_count@, 8);
    let a = boundary_at(x);
    let d = boundary_at(y);
    lemma_part_of(s.across_sum@, 8, a);
    lemma_part_of(s.down_sum@, 8, d);
    lemma_part_of(s.across_count@, 8, a);
    lemma_part_of(s.down_count@, 8, d);
}

proof fn lemma_total_terms(v: Seq<u64>, n: nat)
    requires
        n <= v.len(),
    ensures
        total_of(v, n) == crate::select::total(n, |k: int| v[k] as int),
        0 <= total_of(v, n) <= n * u64::MAX,
    decreases n,
{
    if n > 0 {
        lemma_total_terms(v, (n - 1) as nat);
    }
}

proof fn lemma_part_of(v: Seq<u64>, n: nat, k: int)
    requires
        0 <= k < n <= v.len(),
    ensures
        v[k] <= total_of(v, n),
    decreases n,
{
    if n > 0 {
        lemma_total_terms(v, (n - 1) as nat);
        if k < n - 1 {
            lemma_part_of(v, (n - 1) as nat, k);
        }
    }
}

/// The strongest offset has the greatest strength of all but the standard grid, and is the
/// first of equals.
pub proof fn law_strongest_offset(grid: Seq<i64>, n: nat, k: int)
    requires
        1 <= k < n <= grid.len(),
        n <= 64,
    ensures
        ({
            let o = best_offset(grid, n);
            let at = 8 * o.y + o.x;
            &&& o.x < 8 && o.y < 8 && at < n
            &&& grid[k] <= o.strength
            &&& o.strength > 0 ==> 1 <= at && grid[at] == o.strength && (k < at ==> grid[k]
                < o.strength)
            &&& o.strength >= 0
        }),
    decreases n,
{
    if n > 2 {
        if k < n - 1 {
            law_strongest_offset(grid, (n - 1) as nat, k);
        } else {
            law_strongest_offset(grid, (n - 1) as nat, 1);
        }
    } else {
        assert(best_offset(grid, 1) == (Offset { x: 0, y: 0, strength: 0 }));
    }
}

/// Large images are sampled at every fourth line.
pub proof fn law_grid_sampling(w: int, h: int)
    ensures
        grid_sampling(w, h) == if w * h <= 500_000 {
            1int
        } else {
            4
        },
{
}

/// A bin counts the coefficients of its value.
pub proof fn law_coefficients_are_counted(v: Seq<i32>, value: int, n: nat)
    requires
        n <= v.len(),
    ensures
        hits(v, value, n) == how_many(n, |i: int| v[i] == value),
    decreases n,
{
    let p = |i: int| v[i] == value;
    lemma_which(0, p);
    if n > 0 {
        law_coefficients_are_counted(v, value, (n - 1) as nat);
        lemma_which((n - 1) as nat, p);
    }
}

/// The coefficients other than zero are counted.
pub proof fn law_populated(bins: Seq<u32>, n: nat)
    requires
        n <= bins.len(),
    ensures
        populated(bins, n) == crate::select::total(n, |i: int| (if i == 1024 { 0int } else { bins[i] as int })),
    decreases n,
{
    if n > 0 {
        law_populated(bins, (n - 1) as nat);
    }
}

/// The strongest frequency has more power than every other whose period is a whole number or
/// more away from the step, and those before it less.
pub proof fn law_strongest_frequency(power: Seq<i64>, n: int, step: int, k: nat, j: int)
    requires
        2 <= j < k <= power.len(),
        n - step * j >= j || step * j - n >= j,
    ensures
        ({
            let b = strongest_frequency(power, n, step, k);
            &&& b != 0 ==> 2 <= b < k && power[j] <= power[b] && power[b] > 0 && (j < b ==> power[j]
                < power[b]) && (n - step * b >= b || step * b - n >= b)
            &&& b == 0 ==> power[j] <= 0
        }),
    decreases k,
{
    lemma_frequency(power, n, step, (k - 1) as nat);
    if j < k - 1 {
        law_strongest_frequency(power, n, step, (k - 1) as nat, j);
    }
}

proof fn lemma_frequency(power: Seq<i64>, n: int, step: int, k: nat)
    requires
        k <= power.len(),
    ensures
        ({
            let b = strongest_frequency(power, n, step, k);
            b != 0 ==> 2 <= b < k && power[b] > 0 && off_step(n, b, step)
        }),
    decreases k,
{
    if k > 2 {
        lemma_frequency(power, n, step, (k - 1) as nat);
    }
}

/// A period is the number of bins over the frequency, rounded to the nearest: it is off by a
/// half at most.
pub proof fn law_rounded_period(n: int, k: int)
    requires
        n >= 0,
        k > 0,
    ensures
        -k <= 2 * n - 2 * k * rounded_period(n, k) <= k,
{
    let r = (2 * n + k) / (2 * k);
    vstd::arithmetic::div_mod::lemma_fundamental_div_mod(2 * n + k, 2 * k);
    vstd::arithmetic::div_mod::lemma_mod_bound(2 * n + k, 2 * k);
    assert(2 * k * r == (2 * k) * r);
}

/// A table is told for its shape above a residual of 0.15, and always for its quality.
pub proof fn law_table_findings(index: int, residual: i64, text: Seq<char>, quality: int)
    ensures
        ({
            let f = table_findings(index, residual, text, quality);
            let odd = residual > 0x3FC3_3333_3333_3333;
            &&& f.len() == if odd {
                2int
            } else {
                1
            }
            &&& odd ==> f[0].code == "non_standard_quantization"@ && f[0].severity == Severity::Medium
            &&& f.last().code == "jpeg_quality_estimate"@ && f.last().severity == Severity::Info
        }),
{
}

/// Shifted grids and periodic histograms are of high severity; digits are where their
/// divergence is above a tenth, else medium.
pub proof fn law_double_jpeg_severities(
    o: Offset,
    t: Seq<char>,
    periodic: int,
    tested: int,
    period: int,
    kl: i64,
    confidence: u64,
)
    ensures
        shifted_finding(o, t).severity == Severity::High,
        shifted_finding(o, t).code == "shifted_jpeg_grid"@,
        periodicity_finding(periodic, tested, period, t).severity == Severity::High,
        periodicity_finding(periodic, tested, period, t).code == "double_jpeg_periodicity"@,
        benford_finding(t, t, kl, confidence).code == "benfords_law_violation"@,
        benford_finding(t, t, kl, confidence).severity == if kl > 0x3FB9_9999_9999_999A {
            Severity::High
        } else {
            Severity::Medium
        },
        DIGIT_DISTANCE == 0x3F94_7AE1_47AE_147B,
        GRID_STRENGTH == 0x3FF0_51EB_851E_B852,
        PERIOD_STRENGTH == 0x3FA9_9999_9999_999A,
{
}

/// Every so many lines one is taken, from the first on.
pub proof fn law_sampled(n: int, step: int)
    requires
        step > 0,
        n >= 0,
    ensures
        sampled(n, step) * step >= n,
        n > 0 ==> (sampled(n, step) - 1) * step < n,
        sampled(n, 1) == n,
{
    let a = n + step - 1;
    let k = a / step;
    vstd::arithmetic::div_mod::lemma_fundamental_div_mod(a, step);
    vstd::arithmetic::div_mod::lemma_mod_bound(a, step);
    assert(k * step >= n && (k - 1) * step < n || n == 0 && k * step >= n) by (nonlinear_arith)
        requires
            a == step * k + a % step,
            0 <= a % step < step,
            a == n + step - 1,
            n >= 0,
    ;
}

/// A period is off a step where it is a period or more away from its multiple; frequencies are
/// searched up to a quarter of the bins.
pub proof fn law_off_step(n: int, k: int, step: int, powers: int)
    ensures
        off_step(n, k, step) <==> n >= step * k + k || n <= step * k - k,
        4 * powers <= n ==> frequency_end(n, powers) == powers,
        4 * powers > n ==> frequency_end(n, powers) == n / 4,
        MAX_COEFFICIENT == 1024,
        COEFFICIENT_BINS == 2049,
{
}

} // verus!
