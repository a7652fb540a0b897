//! Histogram-gap analysis.
//!
//! Level adjustment, contrast stretching, and recompression punch gaps into the
//! intensity histogram - runs of values that should exist but do not. Natural
//! images have smooth, gap-free histograms. Per-block analysis localizes the
//! manipulated region.

use crate::components::lemma_cell_coords;
use crate::double::nearest;
use crate::double::round;
use crate::finding::group_values;
use crate::finding::plain_finding;
use crate::finding::values;
use crate::finding::Finding;
use crate::finding::FindingView;
use crate::finding::Severity;
use crate::number::is_share_above;
use crate::number::is_share_below;
use crate::number::share_above;
use crate::number::share_below;
use crate::outliers::cover;
use crate::outliers::covering_region;
use crate::select::how_many;
use crate::select::lemma_which;
use crate::select::which;
use crate::share::confidence;
use crate::share::confidence_of;
use crate::share::graded;
use crate::share::graded_of;
use crate::share::percent;
use crate::share::percent_text;
use crate::share::Factor;
use crate::share::MAX_COUNT;
use crate::share::U40;
use crate::share::U45;
use crate::share::U70;
use crate::share::U80;
use crate::text::append_decimal;
use crate::text::decimal_text;
use vstd::arithmetic::div_mod::lemma_fundamental_div_mod_converse;
use vstd::prelude::*;
use vstd::string::*;

verus! {

/// The histogram-gap analyzer.
pub struct HistogramGapAnalyzer;

/// A block of the image and the number of gaps in its histogram.
#[derive(Debug, Clone, Copy, PartialEq, Eq, Structural)]
pub struct BlockGaps {
    pub block: usize,
    pub gaps: usize,
}

/// The `k`-th cell of a rectangle lies in the raster and has the value `v`.
pub open spec fn cell_has(
    gray: Seq<u8>,
    x0: int,
    y0: int,
    w: int,
    stride: int,
    v: int,
    k: int,
) -> bool {
    let x = x0 + k % w;
    let y = y0 + k / w;
    x < stride && y * stride + x < gray.len() && gray[y * stride + x] == v
}

/// How many of the first `n` cells of a rectangle have the value `v`.
pub open spec fn rect_count(
    gray: Seq<u8>,
    x0: int,
    y0: int,
    w: int,
    stride: int,
    v: int,
    n: nat,
) -> nat
    decreases n,
{
    if n == 0 {
        0
    } else {
        rect_count(gray, x0, y0, w, stride, v, (n - 1) as nat) + if cell_has(
            gray,
            x0,
            y0,
            w,
            stride,
            v,
            n - 1,
        ) {
            1nat
        } else {
            0nat
        }
    }
}

/// The histogram of a rectangle.
pub open spec fn rect_histogram(
    gray: Seq<u8>,
    x0: int,
    y0: int,
    w: int,
    h: int,
    stride: int,
) -> Seq<u32> {
    Seq::new(
        256,
        |v: int| rect_count(gray, x0, y0, w, stride, v, (w * h) as nat) as u32,
    )
}

/// The first of the values from `k` on that occurs; zero if none does.
pub open spec fn first_used(hist: Seq<u32>, k: nat) -> int
    decreases 256 - k,
{
    if k >= 256 {
        0
    } else if hist[k as int] > 0 {
        k as int
    } else {
        first_used(hist, k + 1)
    }
}

/// The last of the first `k` values that occurs; 255 if none does.
pub open spec fn last_used(hist: Seq<u32>, k: nat) -> int
    decreases k,
{
    if k == 0 {
        255
    } else if hist[k - 1] > 0 {
        k - 1
    } else {
        last_used(hist, (k - 1) as nat)
    }
}

/// A gap ends at value `i`: it occurs, and the two values before it, which lie past
/// `first`, do not.
pub open spec fn gap_ends(hist: Seq<u32>, first: int, i: int) -> bool {
    i > first + 2 && hist[i] > 0 && hist[i - 1] == 0 && hist[i - 2] == 0
}

/// The gaps that end at one of the values below `n`.
pub open spec fn gaps_below(hist: Seq<u32>, first: int, n: nat) -> nat
    decreases n,
{
    if n == 0 {
        0
    } else {
        gaps_below(hist, first, (n - 1) as nat) + if gap_ends(hist, first, n - 1) {
            1nat
        } else {
            0nat
        }
    }
}

/// The number of gaps of a histogram: runs of two or more missing values between used
/// ones. A histogram whose used values span no more than eleven has none, an empty
/// histogram is one gap.
pub open spec fn gap_count(hist: Seq<u32>) -> int {
    let first = first_used(hist, 0);
    let last = last_used(hist, 256);
    if last <= first + 10 {
        0
    } else {
        gaps_below(hist, first, (last + 1) as nat) + if hist[last] == 0 {
            1int
        } else {
            0int
        }
    }
}

proof fn lemma_first_used(hist: Seq<u32>, k: nat)
    requires
        k <= 256,
    ensures
        0 <= first_used(hist, k) < 256,
        hist[first_used(hist, k)] > 0 ==> first_used(hist, k) >= k || first_used(hist, k) == 0,
        forall|i: int| k <= i < 256 && #[trigger] hist[i] > 0 ==> hist[first_used(hist, k)] > 0,
    decreases 256 - k,
{
    if k < 256 && hist[k as int] == 0 {
        lemma_first_used(hist, k + 1);
    }
}

proof fn lemma_last_used(hist: Seq<u32>, k: nat)
    requires
        k <= 256,
    ensures
        0 <= last_used(hist, k) < 256,
        last_used(hist, k) == 255 || last_used(hist, k) < k,
        hist[last_used(hist, k)] == 0 ==> forall|i: int| 0 <= i < k ==> #[trigger] hist[i] == 0,
    decreases k,
{
    if k > 0 && hist[k - 1] == 0 {
        lemma_last_used(hist, (k - 1) as nat);
    }
}

proof fn lemma_rect_count_bound(
    gray: Seq<u8>,
    x0: int,
    y0: int,
    w: int,
    stride: int,
    v: int,
    n: nat,
)
    ensures
        rect_count(gray, x0, y0, w, stride, v, n) <= n,
    decreases n,
{
    if n > 0 {
        lemma_rect_count_bound(gray, x0, y0, w, stride, v, (n - 1) as nat);
    }
}

/// How many of the first `n` cells of a row from column `x0` on have the value `v`.
spec fn row_count(gray: Seq<u8>, x0: int, y: int, stride: int, v: int, n: nat) -> nat
    decreases n,
{
    if n == 0 {
        0
    } else {
        let x = x0 + n - 1;
        row_count(gray, x0, y, stride, v, (n - 1) as nat) + if x < stride && y * stride + x
            < gray.len() && gray[y * stride + x] == v {
            1nat
        } else {
            0nat
        }
    }
}

proof fn lemma_row_part(
    gray: Seq<u8>,
    x0: int,
    y0: int,
    w: int,
    stride: int,
    v: int,
    row: nat,
    c: nat,
)
    requires
        c <= w,
    ensures
        rect_count(gray, x0, y0, w, stride, v, (w * row + c) as nat) == rect_count(
            gray,
            x0,
            y0,
            w,
            stride,
            v,
            (w * row) as nat,
        ) + row_count(gray, x0, y0 + row, stride, v, c),
    decreases c,
{
    assert(w * row >= 0) by (nonlinear_arith)
        requires
            w >= 0,
            row >= 0,
    ;
    if c > 0 {
        lemma_row_part(gray, x0, y0, w, stride, v, row, (c - 1) as nat);
        assert(w * row == row * w) by (nonlinear_arith);
        lemma_fundamental_div_mod_converse(w * row + (c - 1), w, row as int, c - 1);
    }
}

proof fn lemma_row_join(gray: Seq<u8>, x0: int, y: int, stride: int, v: int, a: nat, b: nat)
    ensures
        row_count(gray, x0, y, stride, v, a + b) == row_count(gray, x0, y, stride, v, a)
            + row_count(gray, x0 + a, y, stride, v, b),
    decreases b,
{
    if b > 0 {
        lemma_row_join(gray, x0, y, stride, v, a, (b - 1) as nat);
    }
}

proof fn lemma_rect_join(
    gray: Seq<u8>,
    x0: int,
    y0: int,
    w1: nat,
    w2: nat,
    h: nat,
    stride: int,
    v: int,
)
    ensures
        rect_count(gray, x0, y0, (w1 + w2) as int, stride, v, (w1 + w2) * h) == rect_count(
            gray,
            x0,
            y0,
            w1 as int,
            stride,
            v,
            w1 * h,
        ) + rect_count(gray, x0 + w1, y0, w2 as int, stride, v, w2 * h),
    decreases h,
{
    if h == 0 {
        assert((w1 + w2) * 0 == 0 && w1 * 0 == 0 && w2 * 0 == 0) by (nonlinear_arith);
    } else {
        let k = (h - 1) as nat;
        lemma_rect_join(gray, x0, y0, w1, w2, k, stride, v);
        lemma_row_part(gray, x0, y0, (w1 + w2) as int, stride, v, k, w1 + w2);
        lemma_row_part(gray, x0, y0, w1 as int, stride, v, k, w1);
        lemma_row_part(gray, x0 + w1, y0, w2 as int, stride, v, k, w2);
        lemma_row_join(gray, x0, y0 + k, stride, v, w1, w2);
        assert((w1 + w2) * h == (w1 + w2) * k + (w1 + w2)) by (nonlinear_arith)
            requires
                h == k + 1,
        ;
        assert(w1 * h == w1 * k + w1) by (nonlinear_arith)
            requires
                h == k + 1,
        ;
        assert(w2 * h == w2 * k + w2) by (nonlinear_arith)
            requires
                h == k + 1,
        ;
    }
}

/// The histograms of two rectangles side by side add up to that of both together.
pub proof fn law_histograms_add(
    gray: Seq<u8>,
    x0: nat,
    y0: nat,
    w1: nat,
    w2: nat,
    h: nat,
    stride: nat,
    v: int,
)
    requires
        x0 + w1 + w2 <= stride,
        (y0 + h) * stride <= gray.len(),
        (w1 + w2) * h <= u32::MAX,
        0 <= v < 256,
    ensures
        rect_histogram(
            gray,
            x0 as int,
            y0 as int,
            (w1 + w2) as int,
            h as int,
            stride as int,
        )[v] == rect_histogram(
            gray,
            x0 as int,
            y0 as int,
            w1 as int,
            h as int,
            stride as int,
        )[v] + rect_histogram(
            gray,
            (x0 + w1) as int,
            y0 as int,
            w2 as int,
            h as int,
            stride as int,
        )[v],
{
    let (x, y, s) = (x0 as int, y0 as int, stride as int);
    lemma_rect_join(gray, x, y, w1, w2, h, s, v);
    lemma_rect_count_bound(gray, x, y, (w1 + w2) as int, s, v, (w1 + w2) * h);
}

/// The sum of the first `n` bins of a histogram.
pub open spec fn bin_sum(hist: Seq<u32>, n: nat) -> nat
    decreases n,
{
    if n == 0 {
        0
    } else {
        bin_sum(hist, (n - 1) as nat) + hist[n - 1] as nat
    }
}

/// The sum of the counts of the first `m` values among the first `n` cells.
spec fn count_sum(
    gray: Seq<u8>,
    x0: int,
    y0: int,
    w: int,
    stride: int,
    n: nat,
    m: nat,
) -> nat
    decreases m,
{
    if m == 0 {
        0
    } else {
        count_sum(gray, x0, y0, w, stride, n, (m - 1) as nat) + rect_count(
            gray,
            x0,
            y0,
            w,
            stride,
            m - 1,
            n,
        )
    }
}

proof fn lemma_count_sum_step(
    gray: Seq<u8>,
    x0: int,
    y0: int,
    w: int,
    stride: int,
    n: nat,
    m: nat,
)
    requires
        n > 0,
        x0 + (n - 1) % w < stride,
        0 <= (y0 + (n - 1) / w) * stride + (x0 + (n - 1) % w) < gray.len(),
    ensures
        count_sum(gray, x0, y0, w, stride, n, m) == count_sum(
            gray,
            x0,
            y0,
            w,
            stride,
            (n - 1) as nat,
            m,
        ) + if gray[(y0 + (n - 1) / w) * stride + (x0 + (n - 1) % w)] < m {
            1nat
        } else {
            0nat
        },
    decreases m,
{
    if m > 0 {
        lemma_count_sum_step(gray, x0, y0, w, stride, n, (m - 1) as nat);
    }
}

proof fn lemma_count_sum(
    gray: Seq<u8>,
    x0: nat,
    y0: nat,
    w: nat,
    h: nat,
    stride: nat,
    n: nat,
)
    requires
        x0 + w <= stride,
        (y0 + h) * stride <= gray.len(),
        n <= w * h,
    ensures
        count_sum(gray, x0 as int, y0 as int, w as int, stride as int, n, 256) == n,
    decreases n,
{
    if n == 0 {
        lemma_count_sum_none(gray, x0 as int, y0 as int, w as int, stride as int, 256);
    } else {
        lemma_count_sum(gray, x0, y0, w, h, stride, (n - 1) as nat);
        lemma_cell_coords(w as int, h as int, n - 1);
        let y = y0 + (n - 1) / w as int;
        let x = x0 + (n - 1) % w as int;
        assert(0 <= y * stride && y * stride + stride <= (y0 + h) * stride) by (nonlinear_arith)
            requires
                0 <= y,
                y + 1 <= y0 + h,
                0 <= stride,
        ;
        lemma_count_sum_step(gray, x0 as int, y0 as int, w as int, stride as int, n, 256);
    }
}

proof fn lemma_count_sum_none(gray: Seq<u8>, x0: int, y0: int, w: int, stride: int, m: nat)
    ensures
        count_sum(gray, x0, y0, w, stride, 0, m) == 0,
    decreases m,
{
    if m > 0 {
        lemma_count_sum_none(gray, x0, y0, w, stride, (m - 1) as nat);
    }
}

proof fn lemma_bins_are_counts(
    gray: Seq<u8>,
    x0: int,
    y0: int,
    w: int,
    h: int,
    stride: int,
    m: nat,
)
    requires
        0 <= w * h <= u32::MAX,
        m <= 256,
    ensures
        bin_sum(rect_histogram(gray, x0, y0, w, h, stride), m) == count_sum(
            gray,
            x0,
            y0,
            w,
            stride,
            (w * h) as nat,
            m,
        ),
    decreases m,
{
    if m > 0 {
        lemma_bins_are_counts(gray, x0, y0, w, h, stride, (m - 1) as nat);
        lemma_rect_count_bound(gray, x0, y0, w, stride, m - 1, (w * h) as nat);
    }
}

/// The bins of the histogram of a rectangle in the raster sum to the number of its pixels.
pub proof fn law_histogram_complete(
    gray: Seq<u8>,
    x0: nat,
    y0: nat,
    w: nat,
    h: nat,
    stride: nat,
)
    requires
        x0 + w <= stride,
        (y0 + h) * stride <= gray.len(),
        w * h <= u32::MAX,
    ensures
        bin_sum(
            rect_histogram(gray, x0 as int, y0 as int, w as int, h as int, stride as int),
            256,
        ) == w * h,
{
    assert(w * h >= 0) by (nonlinear_arith);
    lemma_bins_are_counts(gray, x0 as int, y0 as int, w as int, h as int, stride as int, 256);
    lemma_count_sum(gray, x0, y0, w, h, stride, w * h);
}

/// Two histograms use the same values.
pub open spec fn same_pattern(a: Seq<u32>, b: Seq<u32>) -> bool {
    forall|i: int| 0 <= i < 256 ==> (#[trigger] a[i] > 0) == (b[i] > 0)
}

proof fn lemma_same_first(a: Seq<u32>, b: Seq<u32>, k: nat)
    requires
        same_pattern(a, b),
    ensures
        first_used(a, k) == first_used(b, k),
    decreases 256 - k,
{
    if k < 256 {
        assert((a[k as int] > 0) == (b[k as int] > 0));
        lemma_same_first(a, b, k + 1);
    }
}

proof fn lemma_same_last(a: Seq<u32>, b: Seq<u32>, k: nat)
    requires
        same_pattern(a, b),
        k <= 256,
    ensures
        last_used(a, k) == last_used(b, k),
    decreases k,
{
    if k > 0 {
        assert((a[k - 1] > 0) == (b[k - 1] > 0));
        lemma_same_last(a, b, (k - 1) as nat);
    }
}

proof fn lemma_same_gaps(a: Seq<u32>, b: Seq<u32>, first: int, n: nat)
    requires
        same_pattern(a, b),
        first >= 0,
        n <= 256,
    ensures
        gaps_below(a, first, n) == gaps_below(b, first, n),
    decreases n,
{
    if n > 0 {
        lemma_same_gaps(a, b, first, (n - 1) as nat);
        let i = n - 1;
        if i > first + 2 {
            assert((a[i] > 0) == (b[i] > 0));
            assert((a[i - 1] > 0) == (b[i - 1] > 0));
            assert((a[i - 2] > 0) == (b[i - 2] > 0));
        }
    }
}

/// The number of gaps depends only on which values are missing.
pub proof fn law_gaps_of_pattern(a: Seq<u32>, b: Seq<u32>)
    requires
        same_pattern(a, b),
    ensures
        gap_count(a) == gap_count(b),
{
    lemma_same_first(a, b, 0);
    lemma_same_last(a, b, 256);
    lemma_first_used(a, 0);
    lemma_last_used(a, 256);
    lemma_same_gaps(a, b, first_used(a, 0), (last_used(a, 256) + 1) as nat);
    assert((a[last_used(a, 256)] > 0) == (b[last_used(a, 256)] > 0));
}

/// `first` and `last` are the ends of the used values.
spec fn spans(hist: Seq<u32>, first: int, last: int) -> bool {
    &&& 0 <= first <= last < 256
    &&& hist[first] > 0
    &&& hist[last] > 0
    &&& forall|i: int| 0 <= i < first || last < i < 256 ==> #[trigger] hist[i] == 0
}

proof fn lemma_first_is(hist: Seq<u32>, first: int, last: int, k: nat)
    requires
        spans(hist, first, last),
        k <= first,
    ensures
        first_used(hist, k) == first,
    decreases first - k,
{
    if k < first {
        lemma_first_is(hist, first, last, k + 1);
    }
}

proof fn lemma_last_is(hist: Seq<u32>, first: int, last: int, k: nat)
    requires
        spans(hist, first, last),
        last < k <= 256,
    ensures
        last_used(hist, k) == last,
    decreases k,
{
    if k - 1 > last {
        lemma_last_is(hist, first, last, (k - 1) as nat);
    }
}

proof fn lemma_span(hist: Seq<u32>)
    ensures
        (forall|i: int| 0 <= i < 256 ==> #[trigger] hist[i] == 0) || exists|first: int, last: int|
            spans(hist, first, last),
{
    if exists|i: int| 0 <= i < 256 && #[trigger] hist[i] > 0 {
        lemma_used_ends(hist, 256);
        lemma_used_start(hist, 0);
        assert(spans(hist, first_used(hist, 0), last_used(hist, 256)));
    }
}

proof fn lemma_used_ends(hist: Seq<u32>, k: nat)
    requires
        k <= 256,
        exists|i: int| 0 <= i < k && #[trigger] hist[i] > 0,
    ensures
        0 <= last_used(hist, k) < k,
        hist[last_used(hist, k)] > 0,
        forall|i: int| last_used(hist, k) < i < k ==> #[trigger] hist[i] == 0,
    decreases k,
{
    if hist[k - 1] == 0 {
        let i = choose|i: int| 0 <= i < k && #[trigger] hist[i] > 0;
        assert(i < k - 1);
        lemma_used_ends(hist, (k - 1) as nat);
    }
}

proof fn lemma_used_start(hist: Seq<u32>, k: nat)
    requires
        k <= 256,
        exists|i: int| k <= i < 256 && #[trigger] hist[i] > 0,
    ensures
        k <= first_used(hist, k) < 256,
        hist[first_used(hist, k)] > 0,
        forall|i: int| k <= i < first_used(hist, k) ==> #[trigger] hist[i] == 0,
    decreases 256 - k,
{
    let i = choose|i: int| k <= i < 256 && #[trigger] hist[i] > 0;
    if hist[k as int] == 0 {
        assert(i > k);
        lemma_used_start(hist, k + 1);
    }
}

/// A gap begins behind value `j`.
spec fn gap_begins(hist: Seq<u32>, first: int, last: int, j: int) -> bool {
    first <= j && j + 2 <= last && hist[j] > 0 && hist[j + 1] == 0 && hist[j + 2] == 0
}

/// The gaps that begin behind one of the values below `n`.
spec fn begins_below(hist: Seq<u32>, first: int, last: int, n: nat) -> nat
    decreases n,
{
    if n == 0 {
        0
    } else {
        begins_below(hist, first, last, (n - 1) as nat) + if gap_begins(hist, first, last, n - 1) {
            1nat
        } else {
            0nat
        }
    }
}

proof fn lemma_begins_none(hist: Seq<u32>, first: int, last: int, n: nat)
    requires
        n <= first,
    ensures
        begins_below(hist, first, last, n) == 0,
    decreases n,
{
    if n > 0 {
        lemma_begins_none(hist, first, last, (n - 1) as nat);
    }
}

proof fn lemma_begins_all(hist: Seq<u32>, first: int, last: int, n: nat)
    requires
        0 <= last - 1 <= n,
    ensures
        begins_below(hist, first, last, n) == begins_below(hist, first, last, (last - 1) as nat),
    decreases n,
{
    if n > last - 1 {
        lemma_begins_all(hist, first, last, (n - 1) as nat);
    }
}

proof fn lemma_begun_and_ended(hist: Seq<u32>, first: int, last: int, i: nat)
    requires
        spans(hist, first, last),
        first + 2 <= i <= last + 1,
    ensures
        begins_below(hist, first, last, (i - 2) as nat) == gaps_below(hist, first, i) + if i >= first
            + 3 && hist[i - 1] == 0 && hist[i - 2] == 0 {
            1nat
        } else {
            0nat
        },
    decreases i,
{
    if i == first + 2 {
        lemma_begins_none(hist, first, last, first as nat);
        lemma_no_gap_before(hist, first, i);
    } else {
        lemma_begun_and_ended(hist, first, last, (i - 1) as nat);
    }
}

proof fn lemma_mirrored(hist: Seq<u32>, first: int, last: int, n: nat)
    requires
        hist.len() == 256,
        spans(hist, first, last),
        n <= 256 - first,
    ensures
        gaps_below(hist.reverse(), 255 - last, n) == begins_below(hist, first, last, 256)
            - begins_below(hist, first, last, (256 - n) as nat),
    decreases n,
{
    if n > 0 {
        lemma_mirrored(hist, first, last, (n - 1) as nat);
        let m = hist.reverse();
        let j = 256 - n;
        assert(m[n - 1] == hist[j]);
        if n >= 3 {
            assert(m[n - 2] == hist[j + 1]);
            assert(m[n - 3] == hist[j + 2]);
        }
        assert(gap_ends(m, 255 - last, n - 1) == gap_begins(hist, first, last, j));
    }
}

/// A mirrored histogram has as many gaps.
pub proof fn law_gaps_mirrored(hist: Seq<u32>)
    requires
        hist.len() == 256,
    ensures
        gap_count(hist.reverse()) == gap_count(hist),
{
    let m = hist.reverse();
    lemma_span(hist);
    if forall|i: int| 0 <= i < 256 ==> #[trigger] hist[i] == 0 {
        assert(same_pattern(m, hist));
        law_gaps_of_pattern(m, hist);
    } else {
        let (first, last) = choose|first: int, last: int| spans(hist, first, last);
        assert(spans(m, 255 - last, 255 - first)) by {
            assert(m[255 - last] == hist[last]);
            assert(m[255 - first] == hist[first]);
        }
        lemma_first_is(hist, first, last, 0);
        lemma_last_is(hist, first, last, 256);
        lemma_first_is(m, 255 - last, 255 - first, 0);
        lemma_last_is(m, 255 - last, 255 - first, 256);
        if last > first + 10 {
            lemma_begun_and_ended(hist, first, last, (last + 1) as nat);
            lemma_begins_all(hist, first, last, 256);
            lemma_begins_none(hist, first, last, first as nat);
            lemma_mirrored(hist, first, last, (256 - first) as nat);
        }
    }
}

/// The number of gaps in block `b`'s histogram.
pub open spec fn gaps_in_block(gray: Seq<u8>, w: int, b: int) -> int {
    let bx = w / 64;
    gap_count(rect_histogram(gray, (b % bx) * 64, (b / bx) * 64, 64, 64, w))
}

/// The blocks among the first `n` with three gaps or more.
pub open spec fn gappy_blocks(gray: Seq<u8>, w: int, n: nat) -> Seq<BlockGaps>
    decreases n,
{
    if n == 0 {
        Seq::empty()
    } else {
        let rest = gappy_blocks(gray, w, (n - 1) as nat);
        if gaps_in_block(gray, w, n - 1) >= 3 {
            rest.push(
                BlockGaps {
                    block: (n - 1) as usize,
                    gaps: gaps_in_block(gray, w, n - 1) as usize,
                },
            )
        } else {
            rest
        }
    }
}

/// The most gaps among the first `n` blocks of a list.
pub open spec fn most_gaps(g: Seq<BlockGaps>, n: nat) -> usize
    decreases n,
{
    if n == 0 {
        0
    } else {
        let m = most_gaps(g, (n - 1) as nat);
        if g[n - 1].gaps > m {
            g[n - 1].gaps
        } else {
            m
        }
    }
}

/// The blocks of a list.
pub open spec fn gap_indices(g: Seq<BlockGaps>) -> Seq<usize> {
    Seq::new(g.len(), |i: int| g[i].block)
}

/// 0.02, what a gap adds to the confidence, in multiples of 2^-64.
pub const GAP_WEIGHT: u128 = 0x051E_B851_EB85_1EC0;

/// The confidence in gaps of the whole image: 0.40 and 0.02 for each, at most 0.70.
pub open spec fn global_confidence(gaps: nat) -> u64 {
    confidence_of(
        U40 as nat,
        nearest(GAP_WEIGHT as nat * gaps, 1),
        U70 as nat,
    )
}

/// The confidence in blocks with gaps: 0.45 and half of their share, at most 0.80.
pub open spec fn local_confidence(found: nat, total: nat) -> u64 {
    graded_of(U45, found, total, Factor { num: 1, den: 2 }, U80)
}

/// The finding on gaps in the histogram of the whole image.
pub open spec fn global_gaps_finding(gaps: int) -> FindingView {
    plain_finding(
        "histogram_gaps"@,
        "histogram_global_gaps"@,
        "Global intensity histogram has "@ + decimal_text(gaps as nat)
            + " gaps (runs of missing values) - indicates level adjustment, contrast stretching, or value manipulation applied to the image"@,
        if gaps > 15 {
            Severity::Medium
        } else {
            Severity::Low
        },
        global_confidence(gaps as nat),
    )
}

/// The finding on gaps in the histograms of some blocks.
pub open spec fn local_gaps_finding(
    g: Seq<BlockGaps>,
    blocks_x: int,
    blocks_y: int,
) -> FindingView {
    FindingView {
        region: Some(cover(gap_indices(g), blocks_x, 64)),
        ..plain_finding(
            "histogram_gaps"@,
            "histogram_localized_gaps"@,
            decimal_text(g.len()) + " of "@ + decimal_text((blocks_x * blocks_y) as nat)
                + " blocks ("@ + percent_text(g.len(), (blocks_x * blocks_y) as nat) + "%) show histogram gaps (max "@ + decimal_text(
                most_gaps(g, g.len()) as nat,
            )
                + " gaps/block) - localized level manipulation or spliced content with different value distribution"@,
            Severity::Medium,
            local_confidence(g.len(), (blocks_x * blocks_y) as nat),
        )
    }
}

/// Gaps that are neither rare nor everywhere: in more than one block of twenty and in
/// less than three of five.
pub open spec fn is_local(found: int, total: int) -> bool {
    found > 0 && share_above(found, total, 5, 100) && share_below(found, total, 60, 100)
}

/// The report on histogram gaps.
pub open spec fn gap_findings(
    gaps: int,
    g: Seq<BlockGaps>,
    blocks_x: int,
    blocks_y: int,
) -> Seq<FindingView> {
    (if gaps >= 5 {
        seq![global_gaps_finding(gaps)]
    } else {
        Seq::empty()
    }) + (if is_local(g.len() as int, blocks_x * blocks_y) {
        seq![local_gaps_finding(g, blocks_x, blocks_y)]
    } else {
        Seq::empty()
    })
}

impl HistogramGapAnalyzer {
    /// Whether an image is large enough to be analyzed.
    pub fn large_enough(&self, w: usize, h: usize) -> (r: bool)
        ensures
            r == (w >= 192 && h >= 192),
    {
        w >= 192 && h >= 192
    }

    /// The histogram of a rectangle. Cells outside the raster are left out.
    pub fn compute_histogram(
        &self,
        gray: &[u8],
        x0: usize,
        y0: usize,
        w: usize,
        h: usize,
        stride: usize,
    ) -> (r: [u32; 256])
        requires
            w * h <= u32::MAX,
            x0 + w <= usize::MAX,
            y0 + h <= usize::MAX,
            (y0 + h) * stride <= usize::MAX,
        ensures
            r@ == rect_histogram(gray@, x0 as int, y0 as int, w as int, h as int, stride as int),
    {
        let mut hist: [u32; 256] = [0u32;256];
        let total: usize = w * h;
        let mut k: usize = 0;
        while k < total
            invariant
                k <= total,
                total == w * h,
                w * h <= u32::MAX,
                x0 + w <= usize::MAX,
                y0 + h <= usize::MAX,
                (y0 + h) * stride <= usize::MAX,
                forall|v: int|
                    0 <= v < 256 ==> #[trigger] hist@[v] == rect_count(
                        gray@,
                        x0 as int,
                        y0 as int,
                        w as int,
                        stride as int,
                        v,
                        k as nat,
                    ),
            decreases total - k,
        {
            proof {
                lemma_cell_coords(w as int, h as int, k as int);
            }
            let x: usize = x0 + k % w;
            let y: usize = y0 + k / w;
            if x < stride {
                proof {
                    assert(y * stride + stride <= (y0 + h) * stride) by (nonlinear_arith)
                        requires
                            y + 1 <= y0 + h,
                            0 <= stride,
                    ;
                }
                let i: usize = y * stride + x;
                if i < gray.len() {
                    let v: usize = gray[i] as usize;
                    proof {
                        lemma_rect_count_bound(
                            gray@,
                            x0 as int,
                            y0 as int,
                            w as int,
                            stride as int,
                            v as int,
                            k as nat,
                        );
                    }
                    let c: u32 = hist[v];
                    hist[v] = c + 1;
                }
            }
            k += 1;
        }
        proof {
            assert(hist@ =~= rect_histogram(
                gray@,
                x0 as int,
                y0 as int,
                w as int,
                h as int,
                stride as int,
            ));
        }
        hist
    }

    /// The number of gaps of a histogram.
    pub fn count_gaps(&self, hist: &[u32; 256]) -> (r: usize)
        ensures
            r == gap_count(hist@),
            r <= 256,
    {
        let mut first: usize = 0;
        while first < 256 && hist[first] == 0
            invariant
                first <= 256,
                first_used(hist@, 0) == first_used(hist@, first as nat),
            decreases 256 - first,
        {
            first += 1;
        }
        if first == 256 {
            first = 0;
        }
        let mut end: usize = 256;
        while end > 0 && hist[end - 1] == 0
            invariant
                end <= 256,
                last_used(hist@, 256) == last_used(hist@, end as nat),
            decreases end,
        {
            end -= 1;
        }
        let last: usize = if end == 0 {
            255
        } else {
            end - 1
        };
        proof {
            lemma_first_used(hist@, 0);
            lemma_last_used(hist@, 256);
        }
        if last <= first + 10 {
            return 0;
        }
        let mut gaps: usize = 0;
        let mut run: usize = 0;
        let mut i: usize = first;
        proof {
            lemma_no_gap_before(hist@, first as int, first as nat);
        }
        while i <= last
            invariant
                first <= i <= last + 1,
                last < 256,
                run <= i - first,
                gaps + run <= i,
                gaps == gaps_below(hist@, first as int, i as nat),
                run >= 1 ==> i > first && hist@[i - 1] == 0,
                run >= 2 ==> i > first + 1 && hist@[i - 2] == 0,
                i > first && hist@[i - 1] == 0 ==> run >= 1,
                i > first + 1 && hist@[i - 1] == 0 && hist@[i - 2] == 0 ==> run >= 2,
                first == first_used(hist@, 0),
                last == last_used(hist@, 256),
            decreases last + 1 - i,
        {
            proof {
                lemma_first_used(hist@, 0);
                assert(hist@[i as int] > 0 ==> hist@[first as int] > 0);
            }
            if hist[i] == 0 {
                run += 1;
            } else {
                if run >= 2 {
                    gaps += 1;
                }
                run = 0;
            }
            i += 1;
        }
        proof {
            if run >= 2 {
                assert(hist@[last as int] == 0);
            }
            if hist@[last as int] == 0 {
                lemma_last_used(hist@, 256);
                assert(hist@[last - 1] == 0);
            }
        }
        if run >= 2 {
            gaps += 1;
        }
        gaps
    }

    /// The number of gaps in the histogram of the whole image.
    pub fn global_gaps(&self, gray: &[u8], w: usize, h: usize) -> (r: usize)
        requires
            gray.len() == w * h,
            w * h <= u32::MAX,
        ensures
            r == gap_count(rect_histogram(gray@, 0, 0, w as int, h as int, w as int)),
            r <= 256,
    {
        proof {
            assert(h * w == w * h) by (nonlinear_arith);
        }
        let hist = self.compute_histogram(gray, 0, 0, w, h, w);
        self.count_gaps(&hist)
    }

    /// The blocks with three gaps or more.
    pub fn block_gaps(&self, gray: &[u8], w: usize, h: usize) -> (r: Vec<BlockGaps>)
        requires
            gray.len() == w * h,
        ensures
            r@ == gappy_blocks(gray@, w as int, ((w / 64) * (h / 64)) as nat),
            r.len() <= (w / 64) * (h / 64),
            forall|i: int|
                0 <= i < r.len() ==> (#[trigger] r@[i]).block < (w / 64) * (h / 64) && r@[i].gaps
                    <= 256,
    {
        let bx: usize = w / 64;
        let by: usize = h / 64;
        proof {
            assert(bx * by <= w * h) by (nonlinear_arith)
                requires
                    0 <= bx <= w,
                    0 <= by <= h,
            ;
        }
        let total: usize = bx * by;
        let mut r: Vec<BlockGaps> = Vec::new();
        let mut b: usize = 0;
        while b < total
            invariant
                b <= total,
                bx == w / 64,
                by == h / 64,
                total == bx * by,
                gray.len() == w * h,
                r.len() <= b,
                r@ == gappy_blocks(gray@, w as int, b as nat),
                forall|i: int|
                    0 <= i < r.len() ==> (#[trigger] r@[i]).block < total && r@[i].gaps <= 256,
            decreases total - b,
        {
            proof {
                lemma_cell_coords(bx as int, by as int, b as int);
                let y = b as int / bx as int;
                assert((y * 64 + 64) * w <= w * h) by (nonlinear_arith)
                    requires
                        0 <= y,
                        y * 64 + 64 <= h,
                        0 <= w,
                ;
            }
            let hist = self.compute_histogram(gray, (b % bx) * 64, (b / bx) * 64, 64, 64, w);
            let gaps: usize = self.count_gaps(&hist);
            if gaps >= 3 {
                r.push(BlockGaps { block: b, gaps });
            }
            b += 1;
        }
        r
    }

    /// Reports gaps in the histogram of an image, and in those of its blocks; nothing where
    /// the image is too small.
    pub fn analyze(&self, gray: &[u8], w: usize, h: usize) -> (r: Vec<Finding>)
        requires
            gray.len() == w * h,
            w * h <= u32::MAX,
        ensures
            values(r@) == if w >= 192 && h >= 192 {
                gap_findings(
                    gap_count(rect_histogram(gray@, 0, 0, w as int, h as int, w as int)),
                    gappy_blocks(gray@, w as int, ((w / 64) * (h / 64)) as nat),
                    w as int / 64,
                    h as int / 64,
                )
            } else {
                Seq::empty()
            },
    {
        if !self.large_enough(w, h) {
            let r: Vec<Finding> = Vec::new();
            assert(values(r@) =~= Seq::empty());
            return r;
        }
        proof {
            assert(w <= u32::MAX && h <= u32::MAX) by (nonlinear_arith)
                requires
                    w * h <= u32::MAX,
                    w >= 1,
                    h >= 1,
            ;
            assert((w / 64) * (h / 64) <= w * h) by (nonlinear_arith)
                requires
                    0 <= w / 64 <= w,
                    0 <= h / 64 <= h,
            ;
        }
        let gaps: usize = self.global_gaps(gray, w, h);
        let blocks = self.block_gaps(gray, w, h);
        self.report(gaps, &blocks, w / 64, h / 64)
    }

    /// Reports gaps: how many the histogram of the whole image has, and the blocks with some.
    pub fn report(
        &self,
        gaps: usize,
        g: &Vec<BlockGaps>,
        blocks_x: usize,
        blocks_y: usize,
    ) -> (r: Vec<Finding>)
        requires
            gaps <= 256,
            blocks_x * 64 <= u32::MAX,
            blocks_y * 64 <= u32::MAX,
            blocks_x * blocks_y <= usize::MAX,
            forall|i: int| 0 <= i < g.len() ==> (#[trigger] g@[i]).block < blocks_x * blocks_y,
        ensures
            values(r@) == gap_findings(
                gaps as int,
                g@,
                blocks_x as int,
                blocks_y as int,
            ),
    {
        broadcast use group_values;

        let mut r: Vec<Finding> = Vec::new();
        if gaps >= 5 {
            let mut s = "Global intensity histogram has ".to_string();
            append_decimal(&mut s, gaps as u64);
            s.append(
                " gaps (runs of missing values) - indicates level adjustment, contrast stretching, or value manipulation applied to the image",
            );
            let severity = if gaps > 15 {
                Severity::Medium
            } else {
                Severity::Low
            };
            let amount: u128 = round(GAP_WEIGHT * gaps as u128, 1);
            let sure: u64 = confidence(U40, amount, U70);
            r.push(Finding::new("histogram_gaps", "histogram_global_gaps", s, severity, sure));
        }
        let total: usize = blocks_x * blocks_y;
        if g.len() > 0 && is_share_above(g.len() as u64, total as u64, 5, 100) && is_share_below(
            g.len() as u64,
            total as u64,
            60,
            100,
        ) {
            proof {
                assert(blocks_x * blocks_y <= MAX_COUNT) by (nonlinear_arith)
                    requires
                        blocks_x <= 0x400_0000,
                        blocks_y <= 0x400_0000,
                ;
            }
            let mut most: usize = 0;
            let mut blocks: Vec<usize> = Vec::new();
            let mut i: usize = 0;
            while i < g.len()
                invariant
                    i <= g.len(),
                    most == most_gaps(g@, i as nat),
                    blocks@ =~= gap_indices(g@).take(i as int),
                decreases g.len() - i,
            {
                if g[i].gaps > most {
                    most = g[i].gaps;
                }
                blocks.push(g[i].block);
                i += 1;
            }
            proof {
                assert(blocks@ =~= gap_indices(g@));
                assert forall|i: int| 0 <= i < blocks.len() implies #[trigger] blocks@[i] < blocks_x
                    * blocks_y by {
                    assert(g@[i].block < blocks_x * blocks_y);
                }
            }
            let region = covering_region(&blocks, blocks_x, blocks_y, 64);
            let mut s = crate::text::decimal(g.len() as u64);
            s.append(" of ");
            append_decimal(&mut s, total as u64);
            s.append(" blocks (");
            let text = percent(g.len() as u64, total as u64);
            s.append(text.as_str());
            s.append("%) show histogram gaps (max ");
            append_decimal(&mut s, most as u64);
            s.append(
                " gaps/block) - localized level manipulation or spliced content with different value distribution",
            );
            let half = Factor { num: 1, den: 2 };
            let sure: u64 = graded(U45, g.len() as u64, total as u64, half, U80);
            r.push(
                Finding::new(
                    "histogram_gaps",
                    "histogram_localized_gaps",
                    s,
                    Severity::Medium,
                    sure,
                ).with_region(region),
            );
        }
        proof {
            assert(values(r@) =~= gap_findings(
                gaps as int,
                g@,
                blocks_x as int,
                blocks_y as int,
            ));
        }
        r
    }
}

proof fn lemma_no_gap_before(hist: Seq<u32>, first: int, n: nat)
    requires
        n <= first + 3,
    ensures
        gaps_below(hist, first, n) == 0,
    decreases n,
{
    if n > 0 {
        lemma_no_gap_before(hist, first, (n - 1) as nat);
    }
}

/// A value is counted at each pixel of the rectangle that lies in the image and has it.
pub proof fn law_values_are_counted(gray: Seq<u8>, x0: int, y0: int, w: int, stride: int, v: int, n: nat)
    requires
        w > 0,
    ensures
        rect_count(gray, x0, y0, w, stride, v, n) == how_many(n, |i: int| x0 + i % w < stride && (y0 + i / w) * stride + (x0 + i % w) < gray.len() && v == gray[(y0 + i / w) * stride + (x0 + i % w)]),
    decreases n,
{
    let p = |i: int| x0 + i % w < stride && (y0 + i / w) * stride + (x0 + i % w) < gray.len() && v == gray[(y0 + i / w) * stride + (x0 + i % w)];
    lemma_which(0, p);
    if n > 0 {
        law_values_are_counted(gray, x0, y0, w, stride, v, (n - 1) as nat);
        lemma_which((n - 1) as nat, p);
    }
}

/// The first and the last value in use are in use, and none is below the one or above the
/// other; without any they are the two ends.
pub proof fn law_ends(hist: Seq<u32>, i: int)
    requires
        hist.len() == 256,
        0 <= i < 256,
    ensures
        hist[i] > 0 ==> first_used(hist, 0) <= i <= last_used(hist, 256) && hist[first_used(
            hist,
            0,
        )] > 0 && hist[last_used(hist, 256)] > 0,
        (forall|k: int| 0 <= k < 256 ==> #[trigger] hist[k] == 0) ==> first_used(hist, 0) == 0
            && last_used(hist, 256) == 255,
{
    lemma_first_used_from(hist, 0, i);
    lemma_last_used_to(hist, 256, i);
}

proof fn lemma_first_used_from(hist: Seq<u32>, k: nat, i: int)
    requires
        hist.len() == 256,
        k <= i < 256,
    ensures
        hist[i] > 0 ==> first_used(hist, k) <= i && hist[first_used(hist, k)] > 0,
        (forall|j: int| k <= j < 256 ==> #[trigger] hist[j] == 0) ==> first_used(hist, k) == 0,
    decreases 256 - k,
{
    if hist[k as int] == 0 {
        if k < i {
            lemma_first_used_from(hist, k + 1, i);
        } else if k < 255 {
            lemma_first_used_from(hist, k + 1, 255);
        } else {
            assert(first_used(hist, k + 1) == 0);
        }
    }
}

proof fn lemma_last_used_to(hist: Seq<u32>, k: nat, i: int)
    requires
        hist.len() == 256,
        0 <= i < k <= 256,
    ensures
        hist[i] > 0 ==> i <= last_used(hist, k) && hist[last_used(hist, k)] > 0,
        (forall|j: int| 0 <= j < k ==> #[trigger] hist[j] == 0) ==> last_used(hist, k) == 255,
    decreases k,
{
    if hist[k - 1] == 0 {
        if i < k - 1 {
            lemma_last_used_to(hist, (k - 1) as nat, i);
        } else if k > 1 {
            lemma_last_used_to(hist, (k - 1) as nat, 0);
        } else {
            assert(last_used(hist, 0) == 255);
        }
    }
}

/// Where more than eleven values lie from the first in use to the last, a gap is counted at each
/// value in use with two missing ones in front; and there is none otherwise.
pub proof fn law_gaps(hist: Seq<u32>)
    requires
        hist.len() == 256,
        exists|i: int| 0 <= i < 256 && #[trigger] hist[i] > 0,
    ensures
        ({
            let (first, last) = (first_used(hist, 0), last_used(hist, 256));
            gap_count(hist) == if last - first > 10 {
                how_many(
                    256,
                    |i: int|
                        i > first + 2 && i <= last && hist[i] != 0 && hist[i - 1] == 0 && hist[i - 2]
                            == 0,
                ) as int
            } else {
                0
            }
        }),
{
    let w = choose|i: int| 0 <= i < 256 && #[trigger] hist[i] > 0;
    law_ends(hist, w);
    let (first, last) = (first_used(hist, 0), last_used(hist, 256));
    lemma_last_below(hist, 256);
    lemma_gaps_to(hist, first, last, 256);
    lemma_gaps_after(hist, first, last, (last + 1) as nat, 256);
}

proof fn lemma_last_below(hist: Seq<u32>, k: nat)
    requires
        hist.len() == 256,
        k <= 256,
    ensures
        0 <= last_used(hist, k) < 256,
    decreases k,
{
    if k > 0 && hist[k - 1] == 0 {
        lemma_last_below(hist, (k - 1) as nat);
    }
}

proof fn lemma_gaps_to(hist: Seq<u32>, first: int, last: int, n: nat)
    requires
        hist.len() == 256,
        n <= 256,
        0 <= last < 256,
    ensures
        how_many(
            n,
            |i: int|
                i > first + 2 && i <= last && hist[i] != 0 && hist[i - 1] == 0 && hist[i - 2] == 0,
        ) == gaps_below(
            hist,
            first,
            if n <= last + 1 {
                n
            } else {
                (last + 1) as nat
            },
        ),
    decreases n,
{
    let p = |i: int|
        i > first + 2 && i <= last && hist[i] != 0 && hist[i - 1] == 0 && hist[i - 2] == 0;
    lemma_which(0, p);
    if n > 0 {
        lemma_gaps_to(hist, first, last, (n - 1) as nat);
        lemma_which((n - 1) as nat, p);
    }
}

proof fn lemma_gaps_after(hist: Seq<u32>, first: int, last: int, k: nat, n: nat)
    ensures
        k <= n ==> gaps_below(hist, first, k) <= gaps_below(hist, first, n),
    decreases n,
{
    if k < n {
        lemma_gaps_after(hist, first, last, k, (n - 1) as nat);
    }
}

/// The blocks with three gaps or more are told, each with its number of them; blocks are 64
/// pixels wide and high and lie row by row.
pub proof fn law_gappy_blocks(gray: Seq<u8>, w: int, n: nat)
    requires
        w >= 64,
    ensures
        gappy_blocks(gray, w, n) == which(n, |i: int| gap_count(rect_histogram(gray, 64 * (i % (w / 64)), 64 * (i / (w / 64)), 64, 64, w)) > 2).map_values(|i: int| (BlockGaps { block: i as usize, gaps: gap_count(rect_histogram(gray, 64 * (i % (w / 64)), 64 * (i / (w / 64)), 64, 64, w)) as usize })),
    decreases n,
{
    let p = |i: int| gap_count(rect_histogram(gray, 64 * (i % (w / 64)), 64 * (i / (w / 64)), 64, 64, w)) > 2;
    let f = |i: int| (BlockGaps { block: i as usize, gaps: gap_count(rect_histogram(gray, 64 * (i % (w / 64)), 64 * (i / (w / 64)), 64, 64, w)) as usize });
    lemma_which(0, p);
    if n > 0 {
        let lower = (n - 1) as nat;
        law_gappy_blocks(gray, w, lower);
        lemma_which(lower, p);
        assert(which(n, p).map_values(f) =~= if p(lower as int) {
            which(lower, p).map_values(f).push(f(lower as int))
        } else {
            which(lower, p).map_values(f)
        });
    } else {
        assert(which(0, p).map_values(f) =~= Seq::<BlockGaps>::empty());
    }
}

/// The most gaps of a block are those of one of them, and none has more.
pub proof fn law_most_gaps(g: Seq<BlockGaps>, n: nat, i: int)
    requires
        0 <= i < n <= g.len(),
    ensures
        g[i].gaps <= most_gaps(g, n),
        exists|j: int| 0 <= j < n && (#[trigger] g[j]).gaps == most_gaps(g, n),
    decreases n,
{
    let m = (n - 1) as nat;
    assert(most_gaps(g, 0) == 0);
    if m > 0 {
        law_most_gaps(g, m, if i < m {
            i
        } else {
            0
        });
        let a = choose|j: int| 0 <= j < m && (#[trigger] g[j]).gaps == most_gaps(g, m);
        assert(g[a].gaps == most_gaps(g, n) || g[n - 1].gaps == most_gaps(g, n));
    } else {
        assert(g[n - 1].gaps == most_gaps(g, n));
    }
}

/// Five gaps of the image or more are told, as minor up to fifteen; blocks with gaps are told
/// where they are more than a twentieth of all and less than six tenths.
pub proof fn law_when_gaps_are_reported(gaps: int, g: Seq<BlockGaps>, bx: int, by: int)
    requires
        gaps >= 0,
    ensures
        ({
            let f = gap_findings(gaps, g, bx, by);
            let local = g.len() > 0 && share_above(g.len() as int, bx * by, 5, 100) && share_below(
                g.len() as int,
                bx * by,
                60,
                100,
            );
            &&& f.len() == (if gaps > 4 {
                1int
            } else {
                0
            }) + (if local {
                1int
            } else {
                0
            })
            &&& gaps > 4 ==> f[0].code == "histogram_global_gaps"@ && f[0].severity == if gaps
                >= 16 {
                Severity::Medium
            } else {
                Severity::Low
            }
            &&& local ==> f.last().code == "histogram_localized_gaps"@ && f.last().severity
                == Severity::Medium
        }),
{
}

} // verus!
