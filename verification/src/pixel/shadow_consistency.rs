//! Shadow direction consistency.
//!
//! Shadow boundaries are dark pixels with a moderate gradient towards a brighter side. In
//! a genuine photo their directions agree. Directions are computed in floating point by
//! the caller.

use crate::double::DIGITS;
use crate::finding::Finding;
use crate::finding::FindingView;
use crate::finding::Severity;
use crate::finding::group_values;
use crate::finding::plain_finding;
use crate::finding::values;
use crate::grid::pixel;
use crate::grid::px;
use crate::histogram::histogram;
use crate::histogram::histogram_of;
use crate::histogram::range_sum;
use crate::number::is_share_above;
use crate::number::share_above;
use crate::order::before;
use crate::order::law_order_exists;
use crate::order::order_of;
use crate::order::stable_order;
use crate::select::how_many;
use crate::select::lemma_which;
use crate::select::which;
use crate::share::Factor;
use crate::share::MAX_COUNT;
use crate::share::TWO_FIFTHS;
use crate::share::U40;
use crate::share::U80;
use crate::share::graded;
use crate::share::graded_of;
use crate::share::percent;
use crate::share::rest;
use crate::share::whole_percent;
use crate::share::whole_percent_text;
use crate::sobel::Gradient;
use crate::sobel::gradient_at;
use crate::sobel::sobel;
use crate::sobel::squared;
use crate::sobel::squared_magnitude;
use crate::text::append_decimal;
use crate::text::decimal;
use crate::text::decimal_text;
use vstd::prelude::*;
use vstd::string::*;

verus! {

/// The shadow-consistency analyzer.
pub struct ShadowConsistencyAnalyzer;

/// The size of a block in pixels.
pub const SHADOW_BLOCK: usize = 64;

/// Above this strength a block has a shadow direction, as a key: 0.3.
pub const SHADOW_STRENGTH: i64 = 0x3FD3_3333_3333_3333;

/// Above this deviation from the dominant direction a shadow is odd, as a key: 35 degrees,
/// in radians.
pub const TOLERANCE: i64 = 0x3FE3_8C35_418A_5BF6;

/// Above this separation two directions differ, as a key: 30 degrees, in radians.
pub const SEPARATION: i64 = 0x3FE0_C152_382D_7365;

/// How many of the first `n` deviations are above the tolerance.
pub open spec fn odd_count(d: Seq<i64>, n: nat) -> nat
    decreases n,
{
    if n == 0 {
        0
    } else {
        odd_count(d, (n - 1) as nat) + if d[n - 1] > TOLERANCE {
            1nat
        } else {
            0nat
        }
    }
}

/// The largest of the first `n` deviations that is above the tolerance; zero if none is.
pub open spec fn odd_largest(d: Seq<i64>, n: nat) -> i64
    decreases n,
{
    if n == 0 {
        0
    } else {
        let before = odd_largest(d, (n - 1) as nat);
        if d[n - 1] > TOLERANCE && d[n - 1] > before {
            d[n - 1]
        } else {
            before
        }
    }
}

/// The first value from `v` on up to which the samples reach a target; 128 if none does.
pub open spec fn reaches_at(h: Seq<u64>, target: int, v: nat) -> int
    decreases 256 - v,
{
    if v >= 256 {
        128
    } else if range_sum(h, 0, v + 1) >= target {
        v as int
    } else {
        reaches_at(h, target, v + 1)
    }
}

/// The value below which the darkest three tenths of the samples lie.
pub open spec fn dark_limit(gray: Seq<u8>) -> int {
    reaches_at(histogram_of(gray), 3 * gray.len() as int / 10, 0)
}

/// A candidate for a shadow boundary.
#[derive(Debug, Clone, Copy, PartialEq, Eq, Structural)]
pub struct ShadowPixel {
    pub x: usize,
    pub y: usize,
    pub gradient: Gradient,
}

/// The candidates among the first `n` inner pixels of a block: dark, with a gradient
/// magnitude from 12 to 100.
pub open spec fn shadow_pixels(
    gray: Seq<u8>,
    w: int,
    x0: int,
    y0: int,
    limit: int,
    n: nat,
) -> Seq<ShadowPixel>
    decreases n,
{
    if n == 0 {
        Seq::empty()
    } else {
        let rest = shadow_pixels(gray, w, x0, y0, limit, (n - 1) as nat);
        let x = x0 + 1 + (n - 1) % 62;
        let y = y0 + 1 + (n - 1) / 62;
        if pixel(gray, w, x, y) <= limit && 144 <= squared_magnitude(gray, w, x, y) <= 10000 {
            rest.push(
                ShadowPixel {
                    x: x as usize,
                    y: y as usize,
                    gradient: gradient_at(gray, w, x, y),
                },
            )
        } else {
            rest
        }
    }
}

/// The side of a boundary is brighter: more than 1.3 times the pixel.
pub open spec fn is_brighter(side: int, centre: int) -> bool {
    10 * side > 13 * centre
}

/// Directions disagree: three blocks or more, and more than fifteen percent.
pub open spec fn is_scattered(odd: int, blocks: int) -> bool {
    odd >= 3 && share_above(odd, blocks, 15, 100)
}

/// The finding on deviating directions.
pub open spec fn direction_finding(
    odd: int,
    blocks: int,
    largest: Seq<char>,
) -> FindingView {
    plain_finding(
        "shadow_consistency"@,
        "shadow_direction_inconsistency"@,
        decimal_text(odd as nat) + " of "@ + decimal_text(blocks as nat)
            + " shadow-bearing blocks ("@ + whole_percent_text(odd as nat, blocks as nat)
            + "%) have shadow directions deviating >35° from dominant direction (max deviation "@
            + largest + "°) - possible composite with different light source positions"@,
        if share_above(odd, blocks, 30, 100) {
            Severity::High
        } else {
            Severity::Medium
        },
        graded_of(
            U40,
            odd as nat,
            blocks as nat,
            Factor { num: TWO_FIFTHS, den: DIGITS },
            U80,
        ),
    )
}

/// Texts on two dominant directions, in degrees without decimals.
pub struct TwoDirections {
    pub first: String,
    pub second: String,
    pub separation: String,
    /// The confidence, as bits.
    pub confidence: u64,
}

/// The finding on two dominant directions.
pub open spec fn two_lights_finding(t: TwoDirections) -> FindingView {
    plain_finding(
        "shadow_consistency"@,
        "shadow_bimodal_direction"@,
        "Two dominant shadow directions detected at "@ + t.first@ + "° and "@ + t.second@
            + "° (separation "@ + t.separation@
            + "°) - evidence of two different light sources, strongly indicating image compositing"@,
        Severity::High,
        t.confidence,
    )
}

/// A bin of the direction histogram and its smoothed weight.
#[derive(Debug, Clone, Copy, PartialEq, Eq, Structural)]
pub struct DirectionPeak {
    pub bin: usize,
    pub weight: i64,
}

/// The least weight of a peak, as a key: 0.1.
pub const LEAST_WEIGHT: i64 = 0x3FB9_9999_9999_999A;

/// The peaks among the first `n` bins of a circular histogram: above both neighbours and the
/// least weight.
pub open spec fn direction_peaks(s: Seq<i64>, n: nat) -> Seq<DirectionPeak>
    decreases n,
{
    if n == 0 {
        Seq::empty()
    } else {
        let rest = direction_peaks(s, (n - 1) as nat);
        let i = n - 1;
        let len = s.len() as int;
        if s[i] > s[(i + len - 1) % len] && s[i] > s[(i + 1) % len] && s[i] > LEAST_WEIGHT {
            rest.push(DirectionPeak { bin: i as usize, weight: s[i] })
        } else {
            rest
        }
    }
}

/// Ordering keys that put heavier peaks first.
pub open spec fn weight_keys(p: Seq<DirectionPeak>) -> Seq<u128> {
    Seq::new(p.len(), |i: int| (i64::MAX - p[i].weight) as u128)
}

/// The peaks of a histogram, heaviest first and in their order among equals.
pub open spec fn sorted_peaks(s: Seq<i64>) -> Seq<DirectionPeak> {
    let p = direction_peaks(s, s.len());
    Seq::new(p.len(), |i: int| p[order_of(weight_keys(p))[i] as int])
}

proof fn lemma_peaks_bounded(s: Seq<i64>, n: nat)
    ensures
        direction_peaks(s, n).len() <= n,
    decreases n,
{
    if n > 0 {
        lemma_peaks_bounded(s, (n - 1) as nat);
    }
}

/// A direction that comes before another has no less weight.
pub proof fn law_heaviest_first(s: Seq<i64>, i: int, j: int)
    requires
        s.len() <= usize::MAX,
        0 <= i < j < sorted_peaks(s).len(),
    ensures
        sorted_peaks(s)[i].weight >= sorted_peaks(s)[j].weight,
{
    let p = direction_peaks(s, s.len());
    let keys = weight_keys(p);
    lemma_peaks_bounded(s, s.len());
    law_order_exists(keys);
    let o = order_of(keys);
    assert(o[i] < keys.len() && o[j] < keys.len());
    assert(before(keys, o[i] as int, o[j] as int));
}

impl ShadowConsistencyAnalyzer {
    /// Whether an image is large enough to be analyzed.
    pub fn large_enough(&self, w: usize, h: usize) -> (r: bool)
        ensures
            r == (w >= 192 && h >= 192),
    {
        w >= 192 && h >= 192
    }

    /// Whether so many blocks with shadows are enough for their directions to be compared.
    pub fn enough_blocks(&self, n: usize) -> (r: bool)
        ensures
            r == (n >= 4),
    {
        n >= 4
    }

    /// Whether so many blocks with shadows are enough to look for two directions.
    pub fn enough_for_peaks(&self, n: usize) -> (r: bool)
        ensures
            r == (n >= 8),
    {
        n >= 8
    }

    /// Whether there are two peaks or more.
    pub fn has_two(&self, n: usize) -> (r: bool)
        ensures
            r == (n >= 2),
    {
        n >= 2
    }

    /// The value below which the darkest three tenths of the samples lie.
    pub fn compute_dark_threshold(&self, gray: &[u8]) -> (r: u64)
        requires
            256 * gray.len() <= u64::MAX,
            3 * gray.len() <= u64::MAX,
        ensures
            r == dark_limit(gray@),
            r <= 255,
    {
        let h = histogram(gray);
        let target: u64 = 3 * gray.len() as u64 / 10;
        let mut sum: u64 = 0;
        let mut v: usize = 0;
        while v < 256
            invariant
                v <= 256,
                h@ == histogram_of(gray@),
                h.len() == 256,
                256 * gray.len() <= u64::MAX,
                forall|k: int| 0 <= k < 256 ==> #[trigger] h@[k] <= gray.len(),
                target == 3 * gray@.len() as int / 10,
                sum == range_sum(h@, 0, v as nat),
                sum <= v * gray.len(),
                reaches_at(h@, target as int, 0) == reaches_at(h@, target as int, v as nat),
            decreases 256 - v,
        {
            proof {
                assert(v * gray.len() + gray.len() == (v + 1) * gray.len()) by (nonlinear_arith);
                assert((v + 1) * gray.len() <= 256 * gray.len()) by (nonlinear_arith)
                    requires
                        v + 1 <= 256,
                ;
                assert(h@[v as int] <= gray.len());
            }
            sum += h[v];
            if sum >= target {
                return v as u64;
            }
            v += 1;
        }
        128
    }

    /// The candidates for shadow boundaries in a block.
    pub fn boundary_pixels(
        &self,
        gray: &[u8],
        w: usize,
        h: usize,
        x0: usize,
        y0: usize,
        limit: u64,
    ) -> (r: Vec<ShadowPixel>)
        requires
            gray.len() == w * h,
            x0 + 64 <= w,
            y0 + 64 <= h,
        ensures
            r@ == shadow_pixels(gray@, w as int, x0 as int, y0 as int, limit as int, 3844),
    {
        let mut r: Vec<ShadowPixel> = Vec::new();
        let mut k: usize = 0;
        while k < 3844
            invariant
                k <= 3844,
                gray.len() == w * h,
                x0 + 64 <= w,
                y0 + 64 <= h,
                r@ == shadow_pixels(
                    gray@,
                    w as int,
                    x0 as int,
                    y0 as int,
                    limit as int,
                    k as nat,
                ),
            decreases 3844 - k,
        {
            let x: usize = x0 + 1 + k % 62;
            let y: usize = y0 + 1 + k / 62;
            let v: i64 = px(gray, w, h, x, y);
            if v as u64 <= limit {
                let g = sobel(gray, w, h, x, y);
                let n: i64 = squared(g);
                if 144 <= n && n <= 10000 {
                    r.push(ShadowPixel { x, y, gradient: g });
                }
            }
            k += 1;
        }
        r
    }

    /// Whether the side of a boundary is brighter than the pixel.
    pub fn brighter(&self, side: u8, centre: u8) -> (r: bool)
        ensures
            r == is_brighter(side as int, centre as int),
    {
        10 * side as u32 > 13 * centre as u32
    }

    /// Whether a block has a shadow direction: fifteen boundary pixels or more, which agree
    /// strongly enough. The strength is a key.
    pub fn bears_shadow(&self, boundary: usize, strength: i64) -> (r: bool)
        ensures
            r == (boundary >= 15 && strength > SHADOW_STRENGTH),
    {
        boundary >= 15 && strength > SHADOW_STRENGTH
    }

    /// Counts the odd shadows, given how far each deviates from the dominant direction, as
    /// keys; and finds the largest deviation among them.
    pub fn count_odd(&self, d: &Vec<i64>) -> (r: (usize, i64))
        ensures
            r.0 == odd_count(d@, d@.len()),
            r.1 == odd_largest(d@, d@.len()),
    {
        let mut count: usize = 0;
        let mut largest: i64 = 0;
        let mut i: usize = 0;
        while i < d.len()
            invariant
                i <= d.len(),
                count <= i,
                count == odd_count(d@, i as nat),
                largest == odd_largest(d@, i as nat),
            decreases d.len() - i,
        {
            if d[i] > TOLERANCE {
                count += 1;
                if d[i] > largest {
                    largest = d[i];
                }
            }
            i += 1;
        }
        (count, largest)
    }

    /// Whether a second direction stands beside the first: its weight is above a limit and
    /// the two are far enough apart. All are keys.
    pub fn stands_apart(&self, weight: i64, limit: i64, separation: i64) -> (r: bool)
        ensures
            r == (weight > limit && separation > SEPARATION),
    {
        weight > limit && separation > SEPARATION
    }

    /// The peaks of the smoothed direction histogram, heaviest first.
    pub fn find_peaks(&self, s: &Vec<i64>) -> (r: Vec<DirectionPeak>)
        requires
            2 <= s.len() <= usize::MAX / 2,
        ensures
            r@ == sorted_peaks(s@),
    {
        let n: usize = s.len();
        let mut all: Vec<DirectionPeak> = Vec::new();
        let mut keys: Vec<u128> = Vec::new();
        let mut i: usize = 0;
        while i < n
            invariant
                i <= n,
                n == s.len(),
                2 <= n <= usize::MAX / 2,
                all@ == direction_peaks(s@, i as nat),
                keys@ =~= weight_keys(all@),
            decreases n - i,
        {
            let before: usize = (i + n - 1) % n;
            let after: usize = (i + 1) % n;
            if s[i] > s[before] && s[i] > s[after] && s[i] > LEAST_WEIGHT {
                all.push(DirectionPeak { bin: i, weight: s[i] });
                keys.push((i64::MAX - s[i]) as u128);
            }
            i += 1;
        }
        let order = stable_order(&keys);
        let mut r: Vec<DirectionPeak> = Vec::new();
        let mut k: usize = 0;
        while k < order.len()
            invariant
                k <= order.len(),
                order.len() == all.len(),
                all@ == direction_peaks(s@, s@.len()),
                order@ == order_of(weight_keys(all@)),
                forall|j: int| 0 <= j < order.len() ==> #[trigger] order@[j] < all.len(),
                r@ =~= sorted_peaks(s@).take(k as int),
            decreases order.len() - k,
        {
            r.push(all[order[k]]);
            k += 1;
        }
        assert(r@ =~= sorted_peaks(s@));
        r
    }

    /// Reports shadow directions: `odd` of `blocks` blocks deviate, and there may be two
    /// dominant directions. `largest` is in degrees without decimals.
    pub fn report(
        &self,
        odd: usize,
        blocks: usize,
        largest: &str,
        two: &Option<TwoDirections>,
    ) -> (r: Vec<Finding>)
        requires
            odd <= blocks <= MAX_COUNT,
        ensures
            values(r@) == (if blocks < 4 {
                Seq::<FindingView>::empty()
            } else {
                (if is_scattered(odd as int, blocks as int) {
                    seq![direction_finding(odd as int, blocks as int, largest@)]
                } else {
                    Seq::empty()
                }) + (match *two {
                    Some(t) => seq![two_lights_finding(t)],
                    None => Seq::empty(),
                })
            }),
    {
        broadcast use group_values;

        let mut r: Vec<Finding> = Vec::new();
        if blocks < 4 {
            return r;
        }
        let ghost first = if is_scattered(odd as int, blocks as int) {
            seq![direction_finding(odd as int, blocks as int, largest@)]
        } else {
            Seq::empty()
        };
        if odd >= 3 && is_share_above(odd as u64, blocks as u64, 15, 100) {
            let mut s = decimal(odd as u64);
            s.append(" of ");
            append_decimal(&mut s, blocks as u64);
            s.append(" shadow-bearing blocks (");
            let share = whole_percent(odd as u64, blocks as u64);
            s.append(share.as_str());
            s.append(
                "%) have shadow directions deviating >35° from dominant direction (max deviation ",
            );
            s.append(largest);
            s.append("°) - possible composite with different light source positions");
            let severity = if is_share_above(odd as u64, blocks as u64, 30, 100) {
                Severity::High
            } else {
                Severity::Medium
            };
            let factor = Factor { num: TWO_FIFTHS, den: DIGITS };
            let sure: u64 = graded(U40, odd as u64, blocks as u64, factor, U80);
            r.push(
                Finding::new(
                    "shadow_consistency",
                    "shadow_direction_inconsistency",
                    s,
                    severity,
                    sure,
                ),
            );
        }
        proof {
            assert(values(r@) =~= first);
        }
        match two {
            Some(t) => {
                let mut s = "Two dominant shadow directions detected at ".to_string();
                s.append(t.first.as_str());
                s.append("° and ");
                s.append(t.second.as_str());
                s.append("° (separation ");
                s.append(t.separation.as_str());
                s.append(
                    "°) - evidence of two different light sources, strongly indicating image compositing",
                );
                r.push(
                    Finding::new(
                        "shadow_consistency",
                        "shadow_bimodal_direction",
                        s,
                        Severity::High,
                        t.confidence,
                    ),
                );
                proof {
                    assert(values(r@) =~= first + seq![two_lights_finding(*t)]);
                }
            },
            None => {
                proof {
                    assert(values(r@) =~= first + Seq::<FindingView>::empty());
                }
            },
        }
        r
    }
}

/// Directions further off than the tolerance are counted.
pub proof fn law_odd_directions(d: Seq<i64>, n: nat)
    requires
        n <= d.len(),
    ensures
        odd_count(d, n) == how_many(n, |i: int| d[i] > 0x3FE3_8C35_418A_5BF6),
    decreases n,
{
    let p = |i: int| d[i] > 0x3FE3_8C35_418A_5BF6;
    lemma_which(0, p);
    if n > 0 {
        law_odd_directions(d, (n - 1) as nat);
        lemma_which((n - 1) as nat, p);
    }
}

/// The furthest of the odd directions is one of them, and none is further off.
pub proof fn law_furthest(d: Seq<i64>, n: nat, i: int)
    requires
        0 <= i < n <= d.len(),
    ensures
        d[i] > 0x3FE3_8C35_418A_5BF6 ==> d[i] <= odd_largest(d, n),
        odd_largest(d, n) == 0 || exists|k: int|
            0 <= k < n && #[trigger] d[k] == odd_largest(d, n) && d[k] > 0x3FE3_8C35_418A_5BF6,
    decreases n,
{
    assert(odd_largest(d, 0) == 0);
    let m = (n - 1) as nat;
    if m > 0 {
        law_furthest(d, m, if i < m {
            i
        } else {
            0
        });
        if odd_largest(d, m) != 0 {
            let a = choose|k: int|
                0 <= k < m && #[trigger] d[k] == odd_largest(d, m) && d[k] > 0x3FE3_8C35_418A_5BF6;
            assert(d[a] == odd_largest(d, n) || d[n - 1] == odd_largest(d, n));
        } else {
            assert(odd_largest(d, n) == 0 || d[n - 1] == odd_largest(d, n));
        }
    } else {
        assert(odd_largest(d, n) == 0 || d[n - 1] == odd_largest(d, n));
    }
}

/// The dark limit is the least value that three tenths of the samples reach, rounded down; 128
/// where none is.
pub proof fn law_dark_limit(h: Seq<u64>, target: int, v: nat, u: int)
    requires
        v <= u < 256,
    ensures
        range_sum(h, 0, (u + 1) as nat) >= target ==> v <= reaches_at(h, target, v) <= u && range_sum(
            h,
            0,
            (reaches_at(h, target, v) + 1) as nat,
        ) >= target,
        (forall|t: int| v <= t < 256 ==> #[trigger] range_sum(h, 0, (t + 1) as nat) < target)
            ==> reaches_at(h, target, v) == 128,
    decreases 256 - v,
{
    assert(v + 1 == (v as int + 1) as nat);
    if range_sum(h, 0, v + 1) < target {
        if v < u {
            law_dark_limit(h, target, v + 1, u);
        } else if v < 255 {
            law_dark_limit(h, target, v + 1, 255);
        } else {
            assert(reaches_at(h, target, 256) == 128);
        }
    } else {
        let t = v as int;
        assert(range_sum(h, 0, (t + 1) as nat) >= target);
    }
}

/// The share in the dark limit.
pub proof fn law_dark_share(g: Seq<u8>)
    ensures
        dark_limit(g) == reaches_at(histogram_of(g), (3 * g.len()) as int / 10, 0),
{
}

/// The shadow pixels of a block are its dark ones with a gradient from twelve to a hundred,
/// its border left out.
pub proof fn law_shadow_pixels(gray: Seq<u8>, w: int, x0: int, y0: int, limit: int, n: nat)
    ensures
        shadow_pixels(gray, w, x0, y0, limit, n) == which(n, |i: int| gray[(y0 + i / 62 + 1) * w + (x0 + i % 62 + 1)] <= limit && squared_magnitude(gray, w, x0 + i % 62 + 1, y0 + i / 62 + 1) > 143 && squared_magnitude(gray, w, x0 + i % 62 + 1, y0 + i / 62 + 1) < 10_001).map_values(|i: int| (ShadowPixel { x: (x0 + i % 62 + 1) as usize, y: (y0 + i / 62 + 1) as usize, gradient: gradient_at(gray, w, x0 + i % 62 + 1, y0 + i / 62 + 1) })),
    decreases n,
{
    let p = |i: int| gray[(y0 + i / 62 + 1) * w + (x0 + i % 62 + 1)] <= limit && squared_magnitude(gray, w, x0 + i % 62 + 1, y0 + i / 62 + 1) > 143 && squared_magnitude(gray, w, x0 + i % 62 + 1, y0 + i / 62 + 1) < 10_001;
    let f = |i: int| (ShadowPixel { x: (x0 + i % 62 + 1) as usize, y: (y0 + i / 62 + 1) as usize, gradient: gradient_at(gray, w, x0 + i % 62 + 1, y0 + i / 62 + 1) });
    lemma_which(0, p);
    if n > 0 {
        let lower = (n - 1) as nat;
        law_shadow_pixels(gray, w, x0, y0, limit, lower);
        lemma_which(lower, p);
        assert(which(n, p).map_values(f) =~= if p(lower as int) {
            which(lower, p).map_values(f).push(f(lower as int))
        } else {
            which(lower, p).map_values(f)
        });
    } else {
        assert(which(0, p).map_values(f) =~= Seq::<ShadowPixel>::empty());
    }
}

/// The peaks of the directions are the bins above both neighbours, taken round the circle,
/// and above a tenth.
pub proof fn law_direction_peaks(s: Seq<i64>, n: nat)
    requires
        n <= s.len(),
    ensures
        direction_peaks(s, n) == which(n, |i: int| s[i] > 0x3FB9_9999_9999_999A && s[i] > (if i == 0 { s[s.len() - 1] } else { s[i - 1] }) && s[i] > (if i + 1 == s.len() { s[0] } else { s[i + 1] })).map_values(|i: int| (DirectionPeak { bin: i as usize, weight: s[i] })),
    decreases n,
{
    let p = |i: int| s[i] > 0x3FB9_9999_9999_999A && s[i] > (if i == 0 { s[s.len() - 1] } else { s[i - 1] }) && s[i] > (if i + 1 == s.len() { s[0] } else { s[i + 1] });
    let f = |i: int| (DirectionPeak { bin: i as usize, weight: s[i] });
    lemma_which(0, p);
    if n > 0 {
        let lower = (n - 1) as nat;
        law_direction_peaks(s, lower);
        lemma_which(lower, p);
        let (len, k) = (s.len() as int, n - 1);
        assert((k + len - 1) % len == if k == 0 {
            len - 1
        } else {
            k - 1
        }) by {
            if k == 0 {
                vstd::arithmetic::div_mod::lemma_small_mod((len - 1) as nat, len as nat);
            } else {
                vstd::arithmetic::div_mod::lemma_small_mod((k - 1) as nat, len as nat);
                vstd::arithmetic::div_mod::lemma_mod_add_multiples_vanish(k - 1, len);
                assert(len + (k - 1) == k + len - 1);
            }
        }
        assert((k + 1) % len == if k + 1 == len {
            0
        } else {
            k + 1
        }) by {
            if k + 1 == len {
                vstd::arithmetic::div_mod::lemma_mod_self_0(len);
            } else {
                vstd::arithmetic::div_mod::lemma_small_mod((k + 1) as nat, len as nat);
            }
        }
        assert(which(n, p).map_values(f) =~= if p(lower as int) {
            which(lower, p).map_values(f).push(f(lower as int))
        } else {
            which(lower, p).map_values(f)
        });
    } else {
        assert(which(0, p).map_values(f) =~= Seq::<DirectionPeak>::empty());
    }
}

/// A side is brighter from three tenths above the middle on, that itself left out. Directions are
/// scattered where three or more, and above fifteen in a hundred, are odd; gravely above thirty.
pub proof fn law_shadow_findings(
    side: int,
    centre: int,
    odd: int,
    blocks: int,
    t: Seq<char>,
    two: TwoDirections,
)
    ensures
        is_brighter(side, centre) <==> 10 * (side - centre) > 3 * centre,
        is_scattered(odd, blocks) <==> odd > 2 && share_above(odd, blocks, 15, 100),
        direction_finding(odd, blocks, t).code == "shadow_direction_inconsistency"@,
        direction_finding(odd, blocks, t).severity == Severity::High <==> share_above(
            odd,
            blocks,
            30,
            100,
        ),
        direction_finding(odd, blocks, t).severity == Severity::Medium <==> !share_above(
            odd,
            blocks,
            30,
            100,
        ),
        two_lights_finding(two).code == "shadow_bimodal_direction"@,
        two_lights_finding(two).severity == Severity::High,
        two_lights_finding(two).confidence == two.confidence,
        SHADOW_BLOCK == 64,
        SHADOW_STRENGTH == 0x3FD3_3333_3333_3333,
        SEPARATION == 0x3FE0_C152_382D_7365,
{
}

} // verus!
