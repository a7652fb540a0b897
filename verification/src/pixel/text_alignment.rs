//! Text-baseline alignment (document-specific).
//!
//! In typeset documents, text lines sit on an even baseline grid. Pasted text often
//! lands at subtly wrong vertical positions. Lines are the peaks of the horizontal
//! projection profile (dark pixels per row); spacings that deviate from the median
//! by a robust score stand out.

use crate::finding::plain_finding;
use crate::finding::Finding;
use crate::finding::FindingView;
use crate::grid::abs;
use crate::grid::pixel;
use crate::grid::px;
use crate::outliers::collects;
use crate::outliers::find_outliers;
use crate::outliers::outlier_severity;
use crate::outliers::severity_at;
use crate::outliers::Outliers;
use crate::outliers::THREE;
use crate::robust::median;
use crate::robust::middle;
use crate::robust::Scored;
use crate::select::how_many;
use crate::select::lemma_which;
use crate::text::append_decimal;
use crate::text::decimal;
use crate::text::decimal_text;
use vstd::prelude::*;
use vstd::string::*;

verus! {

/// The text-alignment analyzer.
pub struct TextAlignmentAnalyzer;

/// The dark pixels among the first `n` of a row.
pub open spec fn dark_in_row(gray: Seq<u8>, w: int, y: int, n: nat) -> nat
    decreases n,
{
    if n == 0 {
        0
    } else {
        dark_in_row(gray, w, y, (n - 1) as nat) + if pixel(gray, w, n - 1, y) < 100 {
            1nat
        } else {
            0nat
        }
    }
}

/// A row belongs to a text line: at least three percent of it is dark.
pub open spec fn in_line(gray: Seq<u8>, w: int, y: int) -> bool {
    dark_in_row(gray, w, y, w as nat) >= 3 * w / 100
}

/// What a scan down the rows has met.
pub struct Lines {
    /// The scan is inside a line.
    pub inside: bool,
    /// The first of the darkest rows of that line.
    pub at: int,
    /// The darkest rows of the lines that have ended.
    pub ended: Seq<usize>,
}

/// The scan over the first `n` rows.
pub open spec fn lines_above(gray: Seq<u8>, w: int, n: nat) -> Lines
    decreases n,
{
    if n == 0 {
        Lines { inside: false, at: 0, ended: Seq::empty() }
    } else {
        let l = lines_above(gray, w, (n - 1) as nat);
        let y = n - 1;
        if in_line(gray, w, y) {
            if !l.inside || dark_in_row(gray, w, y, w as nat) > dark_in_row(gray, w, l.at, w as nat) {
                Lines { inside: true, at: y, ended: l.ended }
            } else {
                l
            }
        } else if l.inside {
            Lines { inside: false, at: l.at, ended: l.ended.push(l.at as usize) }
        } else {
            l
        }
    }
}

/// The positions of the text lines of an image. A line that reaches the last row does
/// not count.
pub open spec fn line_positions(gray: Seq<u8>, w: int, h: int) -> Seq<usize> {
    lines_above(gray, w, h as nat).ended
}

/// The distances between neighbouring positions.
pub open spec fn gaps(p: Seq<usize>) -> Seq<i64> {
    Seq::new((p.len() - 1) as nat, |i: int| (p[i + 1] - p[i]) as i64)
}

/// The distances of values from a middle value.
pub open spec fn distances(v: Seq<i64>, m: i64) -> Seq<i64> {
    Seq::new(v.len(), |i: int| abs(v[i] - m) as i64)
}

/// The line spacing of a page.
pub struct Spacing {
    /// The distances between neighbouring lines.
    pub gaps: Vec<i64>,
    /// Their median.
    pub median: i64,
    /// The median of their distances from it.
    pub deviation: i64,
}

/// The page has enough lines, at a sensible distance, that are not evenly spaced.
pub open spec fn is_uneven(p: Seq<usize>) -> bool {
    p.len() >= 5 && middle(gaps(p)) >= 5 && middle(distances(gaps(p), middle(gaps(p)))) >= 1
}

/// The finding on lines off the baseline grid.
pub open spec fn alignment_finding(
    count: int,
    median: int,
    z: Seq<char>,
    peak: i64,
    confidence: u64,
) -> FindingView {
    plain_finding(
        "text_alignment"@,
        "text_baseline_misalignment"@,
        decimal_text(count as nat)
            + " text line spacings deviate from document baseline grid (median spacing "@
            + decimal_text(median as nat) + "px, z-score "@ + z
            + ") - possible pasted text lines from different source"@,
        severity_at(peak),
        confidence,
    )
}

fn count_dark(gray: &[u8], w: usize, h: usize, y: usize) -> (r: usize)
    requires
        gray.len() == w * h,
        y < h,
    ensures
        r == dark_in_row(gray@, w as int, y as int, w as nat),
{
    let mut c: usize = 0;
    let mut x: usize = 0;
    while x < w
        invariant
            x <= w,
            c <= x,
            gray.len() == w * h,
            y < h,
            c == dark_in_row(gray@, w as int, y as int, x as nat),
        decreases w - x,
    {
        if px(gray, w, h, x, y) < 100 {
            c += 1;
        }
        x += 1;
    }
    c
}

/// The lines of a scan come one after the other.
proof fn lemma_lines_ascend(gray: Seq<u8>, w: int, n: nat)
    requires
        n <= usize::MAX,
    ensures
        ({
            let l = lines_above(gray, w, n);
            &&& 0 <= l.at
            &&& l.at < n || n == 0 && l.at == 0
            &&& forall|i: int| 0 <= i < l.ended.len() ==> (#[trigger] l.ended[i]) < n
            &&& forall|i: int, j: int|
                0 <= i < j < l.ended.len() ==> #[trigger] l.ended[i] < #[trigger] l.ended[j]
            &&& l.inside ==> forall|i: int| 0 <= i < l.ended.len() ==> (#[trigger] l.ended[i]) < l.at
        }),
    decreases n,
{
    if n > 0 {
        lemma_lines_ascend(gray, w, (n - 1) as nat);
    }
}

/// The positions of text lines ascend and lie on the page.
pub proof fn law_lines_ascend(gray: Seq<u8>, w: int, h: int, i: int, j: int)
    requires
        0 <= h <= usize::MAX,
        0 <= i < j < line_positions(gray, w, h).len(),
    ensures
        line_positions(gray, w, h)[i] < line_positions(gray, w, h)[j] < h,
{
    lemma_lines_ascend(gray, w, h as nat);
}

impl TextAlignmentAnalyzer {
    /// Whether an image is large enough to be analyzed.
    pub fn large_enough(&self, w: usize, h: usize) -> (r: bool)
        ensures
            r == (w >= 100 && h >= 100),
    {
        w >= 100 && h >= 100
    }

    /// The spacings that score above three, if there are at least two.
    pub fn stand_out(&self, s: &Vec<Scored>) -> (r: Option<Outliers>)
        ensures
            collects(r, s@, THREE, 2),
    {
        find_outliers(s, THREE, 2)
    }

    /// The positions of the text lines of an image.
    pub fn text_lines(&self, gray: &[u8], w: usize, h: usize) -> (r: Vec<usize>)
        requires
            gray.len() == w * h,
            w <= usize::MAX / 3,
        ensures
            r@ == line_positions(gray@, w as int, h as int),
    {
        let least: usize = 3 * w / 100;
        let mut ended: Vec<usize> = Vec::new();
        let mut inside: bool = false;
        let mut at: usize = 0;
        let mut darkest: usize = 0;
        let mut y: usize = 0;
        while y < h
            invariant
                y <= h,
                gray.len() == w * h,
                least == 3 * w / 100,
                ({
                    let l = lines_above(gray@, w as int, y as nat);
                    ended@ == l.ended && inside == l.inside && at == l.at
                }),
                inside ==> darkest == dark_in_row(gray@, w as int, at as int, w as nat),
            decreases h - y,
        {
            let dark: usize = count_dark(gray, w, h, y);
            if dark >= least {
                if !inside || dark > darkest {
                    inside = true;
                    darkest = dark;
                    at = y;
                }
            } else if inside {
                inside = false;
                ended.push(at);
            }
            y += 1;
        }
        ended
    }

    /// The line spacing of a page, if it has enough lines and they are uneven.
    pub fn analyze_line_spacing(&self, gray: &[u8], w: usize, h: usize) -> (r: Option<Spacing>)
        requires
            gray.len() == w * h,
            w <= usize::MAX / 3,
            h <= 0x7FFF_FFFF,
        ensures
            ({
                let p = line_positions(gray@, w as int, h as int);
                match r {
                    Some(s) => is_uneven(p) && s.gaps@ == gaps(p) && s.median == middle(gaps(p))
                        && s.deviation == middle(distances(gaps(p), middle(gaps(p)))),
                    None => !is_uneven(p),
                }
            }),
    {
        let p = self.text_lines(gray, w, h);
        if p.len() < 5 {
            return None;
        }
        let mut between: Vec<i64> = Vec::new();
        let mut i: usize = 0;
        proof {
            lemma_lines_ascend(gray@, w as int, h as nat);
        }
        while i < p.len() - 1
            invariant
                p.len() >= 5,
                i <= p.len() - 1,
                h <= 0x7FFF_FFFF,
                forall|i: int, j: int|
                    0 <= i < j < p.len() ==> #[trigger] p@[i] < #[trigger] p@[j],
                forall|i: int| 0 <= i < p.len() ==> #[trigger] p@[i] < h,
                between@ =~= gaps(p@).take(i as int),
                forall|k: int| 0 <= k < between.len() ==> 0 <= #[trigger] between@[k] <= h,
            decreases p.len() - 1 - i,
        {
            between.push((p[i + 1] - p[i]) as i64);
            i += 1;
        }
        proof {
            assert(between@ =~= gaps(p@));
        }
        let m: i64 = median(&between);
        if m < 5 {
            return None;
        }
        let mut away: Vec<i64> = Vec::new();
        let mut k: usize = 0;
        while k < between.len()
            invariant
                k <= between.len(),
                forall|k: int| 0 <= k < between.len() ==> 0 <= #[trigger] between@[k] <= h,
                h <= 0x7FFF_FFFF,
                m >= 5,
                away@ =~= distances(between@, m).take(k as int),
            decreases between.len() - k,
        {
            let v: i64 = between[k];
            away.push(if v >= m {
                v - m
            } else {
                m - v
            });
            k += 1;
        }
        proof {
            assert(away@ =~= distances(between@, m));
        }
        let deviation: i64 = median(&away);
        if deviation < 1 {
            return None;
        }
        Some(Spacing { gaps: between, median: m, deviation })
    }

    /// Reports lines off the baseline grid: `count` spacings with a highest score of
    /// `peak`, which is `z` with one decimal.
    pub fn report(&self, count: usize, median: u64, z: &str, peak: i64, confidence: u64) -> (r:
        Finding)
        ensures
            r@ == alignment_finding(count as int, median as int, z@, peak, confidence),
    {
        let mut t = decimal(count as u64);
        t.append(" text line spacings deviate from document baseline grid (median spacing ");
        append_decimal(&mut t, median);
        t.append("px, z-score ");
        t.append(z);
        t.append(") - possible pasted text lines from different source");
        Finding::new(
            "text_alignment",
            "text_baseline_misalignment",
            t,
            outlier_severity(peak),
            confidence,
        )
    }
}

/// The dark pixels of a row are counted: those below a hundred.
pub proof fn law_dark_pixels(gray: Seq<u8>, w: int, y: int, n: nat)
    ensures
        dark_in_row(gray, w, y, n) == how_many(n, |i: int| gray[y * w + i] < 100),
    decreases n,
{
    let p = |i: int| gray[y * w + i] < 100;
    lemma_which(0, p);
    if n > 0 {
        law_dark_pixels(gray, w, y, (n - 1) as nat);
        lemma_which((n - 1) as nat, p);
    }
}

/// A row belongs to a line of text where three in a hundred of its pixels are dark, rounded
/// down.
pub proof fn law_row_in_line(gray: Seq<u8>, w: int, y: int)
    requires
        0 <= w,
    ensures
        in_line(gray, w, y) <==> 100 * (dark_in_row(gray, w, y, w as nat) + 1) > 3 * w,
{
}

/// Whether the rows from `a` to below `b` all belong to a line.
pub open spec fn stretch(gray: Seq<u8>, w: int, a: int, b: int) -> bool {
    forall|y: int| a <= y < b ==> #[trigger] in_line(gray, w, y)
}

/// A line ends at the first row that does not belong to it, and as many are told as end. Inside
/// one the row told of it is its darkest so far, the first of equals.
pub proof fn law_lines(gray: Seq<u8>, w: int, n: nat)
    requires
        n <= usize::MAX,
    ensures
        ({
            let l = lines_above(gray, w, n);
            &&& l.ended.len() == how_many(
                n,
                |y: int| y > 0 && in_line(gray, w, y - 1) && !in_line(gray, w, y),
            )
            &&& l.inside <==> n > 0 && in_line(gray, w, n - 1)
            &&& l.inside ==> 0 <= l.at < n && stretch(gray, w, l.at, n as int)
            &&& forall|y: int|
                l.inside && 0 <= y < n && #[trigger] stretch(gray, w, y, n as int) ==> dark_in_row(
                    gray,
                    w,
                    y,
                    w as nat,
                ) <= dark_in_row(gray, w, l.at, w as nat) && (y < l.at ==> dark_in_row(
                    gray,
                    w,
                    y,
                    w as nat,
                ) < dark_in_row(gray, w, l.at, w as nat))
        }),
        n > 1 && in_line(gray, w, n - 2) && !in_line(gray, w, n - 1) ==> lines_above(
            gray,
            w,
            n,
        ).ended.last() == lines_above(gray, w, (n - 1) as nat).at,
    decreases n,
{
    let p = |y: int| y > 0 && in_line(gray, w, y - 1) && !in_line(gray, w, y);
    lemma_which(0, p);
    if n > 0 {
        let m = (n - 1) as nat;
        law_lines(gray, w, m);
        lemma_which(m, p);
        let l = lines_above(gray, w, n);
        let k = lines_above(gray, w, m);
        if in_line(gray, w, n - 1) {
            assert forall|y: int| 0 <= y < n && #[trigger] stretch(gray, w, y, n as int) implies
                dark_in_row(gray, w, y, w as nat) <= dark_in_row(gray, w, l.at, w as nat) && (y
                < l.at ==> dark_in_row(gray, w, y, w as nat) < dark_in_row(gray, w, l.at, w as nat))
                by {
                if y < m {
                    assert(stretch(gray, w, y, m as int));
                    assert(in_line(gray, w, m - 1));
                }
            }
            if k.inside {
                assert(stretch(gray, w, k.at, m as int));
            }
        }
    }
}

/// The distances between neighbouring lines, and from a middle.
pub proof fn law_spacings(p: Seq<usize>, v: Seq<i64>, m: i64, i: int)
    requires
        0 <= i < p.len() - 1,
        p[i] < p[i + 1] <= i64::MAX,
        0 <= i < v.len(),
        -0x4000_0000_0000_0000 <= v[i] <= 0x4000_0000_0000_0000,
        -0x3000_0000_0000_0000 <= m <= 0x3000_0000_0000_0000,
    ensures
        gaps(p).len() + 1 == p.len(),
        p[i] + gaps(p)[i] == p[i + 1],
        distances(v, m).len() == v.len(),
        distances(v, m)[i] >= v[i] - m,
        distances(v, m)[i] >= m - v[i],
        distances(v, m)[i] == v[i] - m || distances(v, m)[i] == m - v[i],
{
}

/// Spacings are judged from five lines on, where the middle one is five or more and the middle
/// distance from it is not zero.
pub proof fn law_uneven(p: Seq<usize>)
    ensures
        is_uneven(p) <==> p.len() > 4 && middle(gaps(p)) > 4 && middle(
            distances(gaps(p), middle(gaps(p))),
        ) > 0,
{
}

} // verus!
