//! Peaks of a Hough accumulator, and gaps in the support of a line.
//!
//! The accumulator holds votes for lines: a row per angle, a column per distance.
//! Angles wrap around, distances do not.

use crate::components::lemma_cell_coords;
use crate::grid::cell;
use crate::grid::imin;
use crate::order::before;
use crate::order::law_order_exists;
use crate::order::order_of;
use crate::order::stable_order;
use crate::select::lemma_which;
use crate::select::which;
use vstd::prelude::*;

verus! {

/// A peak of the accumulator.
#[derive(Debug, Clone, Copy, PartialEq, Eq, Structural)]
pub struct Peak {
    /// The index of its angle.
    pub theta: usize,
    /// The index of its distance.
    pub rho: usize,
    /// Its votes.
    pub votes: u32,
}

/// The votes at an angle, taken around, and a distance.
pub open spec fn votes_at(acc: Seq<u32>, angles: int, distances: int, t: int, r: int) -> int {
    acc[(t % angles) * distances + r] as int
}

/// No cell at most five angles and five distances away has more votes.
pub open spec fn is_peak(acc: Seq<u32>, angles: int, distances: int, t: int, r: int) -> bool {
    forall|dt: int, dr: int|
        #![trigger votes_at(acc, angles, distances, t + dt, r + dr)]
        -5 <= dt <= 5 && -5 <= dr <= 5 && 0 <= r + dr < distances ==> votes_at(
            acc,
            angles,
            distances,
            t + dt,
            r + dr,
        ) <= votes_at(acc, angles, distances, t, r)
}

/// The peaks with enough votes among the first `n` cells.
pub open spec fn peak_list(
    acc: Seq<u32>,
    angles: int,
    distances: int,
    least: int,
    n: nat,
) -> Seq<Peak>
    decreases n,
{
    if n == 0 {
        Seq::empty()
    } else {
        let rest = peak_list(acc, angles, distances, least, (n - 1) as nat);
        let t = (n - 1) / distances;
        let r = (n - 1) % distances;
        if acc[n - 1] >= least && is_peak(acc, angles, distances, t, r) {
            rest.push(Peak { theta: t as usize, rho: r as usize, votes: acc[n - 1] })
        } else {
            rest
        }
    }
}

/// Ordering keys that put more votes first.
pub open spec fn vote_keys(p: Seq<Peak>) -> Seq<u128> {
    Seq::new(p.len(), |i: int| (u32::MAX - p[i].votes) as u128)
}

/// The peaks by falling votes, at most `most` of them.
pub open spec fn top_peaks(
    acc: Seq<u32>,
    angles: int,
    distances: int,
    least: int,
    most: int,
) -> Seq<Peak> {
    let p = peak_list(acc, angles, distances, least, (angles * distances) as nat);
    let sorted = Seq::new(p.len(), |i: int| p[order_of(vote_keys(p))[i] as int]);
    sorted.take(imin(sorted.len() as int, most))
}

fn row_is_lower(
    acc: &Vec<u32>,
    angles: usize,
    distances: usize,
    t: usize,
    r: usize,
    votes: u32,
) -> (ok: bool)
    requires
        acc.len() == angles * distances,
        t < angles,
        r < distances,
    ensures
        ok == forall|dr: int|
            #![trigger acc@[t * distances + (r + dr)]]
            -5 <= dr <= 5 && 0 <= r + dr < distances ==> acc@[t * distances + (r + dr)] <= votes,
{
    let from: usize = r.saturating_sub(5);
    let to: usize = if distances - r > 5 {
        r + 6
    } else {
        distances
    };
    let mut q: usize = from;
    proof {
        assert(distances * angles == angles * distances) by (nonlinear_arith);
    }
    while q < to
        invariant
            acc.len() == angles * distances,
            distances * angles == angles * distances,
            t < angles,
            r < distances,
            from == (if r >= 5 {
                r - 5
            } else {
                0
            }),
            to == imin(r + 6, distances as int),
            from <= q <= to,
            forall|c: int| from <= c < q ==> #[trigger] acc@[t * distances + c] <= votes,
        decreases to - q,
    {
        let i: usize = cell(distances, angles, q, t);
        if acc[i] > votes {
            proof {
                let dr = q - r;
                assert(acc@[t * distances + (r + dr)] > votes);
            }
            return false;
        }
        q += 1;
    }
    proof {
        assert forall|dr: int|
            #![trigger acc@[t * distances + (r + dr)]]
            -5 <= dr <= 5 && 0 <= r + dr < distances implies acc@[t * distances + (r + dr)]
            <= votes by {
            let c = r + dr;
            assert(acc@[t * distances + c] <= votes);
        }
    }
    true
}

/// The angle a few steps on, taken around.
fn turned(t: usize, k: usize, angles: usize) -> (r: usize)
    requires
        t < angles,
        k <= 10,
        angles <= 0x7FFF_FFFF,
    ensures
        r == (t + k - 5) % (angles as int),
        r < angles,
{
    let s: i64 = t as i64 + k as i64 - 5;
    let n: i64 = angles as i64;
    if s < 0 {
        // At most five steps back; few angles take several turns.
        let back: i64 = (-s) % n;
        proof {
            lemma_negative_mod(s as int, n as int);
        }
        if back == 0 {
            0
        } else {
            (n - back) as usize
        }
    } else {
        (s % n) as usize
    }
}

proof fn lemma_negative_mod(s: int, n: int)
    requires
        s < 0,
        n > 0,
    ensures
        s % n == (if (-s) % n == 0 {
            0
        } else {
            n - (-s) % n
        }),
{
    let q = (-s) / n;
    let b = (-s) % n;
    vstd::arithmetic::div_mod::lemma_fundamental_div_mod(-s, n);
    assert(-s == n * q + b);
    if b == 0 {
        assert(s == (-q) * n + 0) by (nonlinear_arith)
            requires
                -s == n * q + b,
                b == 0,
        ;
        vstd::arithmetic::div_mod::lemma_fundamental_div_mod_converse(s, n, -q, 0);
    } else {
        assert(s == (-q - 1) * n + (n - b)) by (nonlinear_arith)
            requires
                -s == n * q + b,
        ;
        assert(0 < b < n) by (nonlinear_arith)
            requires
                b == (-s) % n,
                b != 0,
                n > 0,
        ;
        vstd::arithmetic::div_mod::lemma_fundamental_div_mod_converse(s, n, -q - 1, n - b);
    }
}

fn check_peak(acc: &Vec<u32>, angles: usize, distances: usize, t: usize, r: usize) -> (ok: bool)
    requires
        acc.len() == angles * distances,
        t < angles,
        r < distances,
        angles <= 0x7FFF_FFFF,
    ensures
        ok == is_peak(acc@, angles as int, distances as int, t as int, r as int),
{
    proof {
        assert(distances * angles == angles * distances) by (nonlinear_arith);
    }
    let i: usize = cell(distances, angles, r, t);
    let votes: u32 = acc[i];
    let ghost a = angles as int;
    let ghost d = distances as int;
    proof {
        assert(t as int % a == t) by (nonlinear_arith)
            requires
                0 <= t < a,
        ;
    }
    let mut k: usize = 0;
    while k < 11
        invariant
            k <= 11,
            a == angles,
            d == distances,
            acc.len() == angles * distances,
            t < angles,
            r < distances,
            angles <= 0x7FFF_FFFF,
            votes == votes_at(acc@, a, d, t as int, r as int),
            forall|dt: int, dr: int|
                #![trigger votes_at(acc@, a, d, t + dt, r + dr)]
                -5 <= dt < k - 5 && -5 <= dr <= 5 && 0 <= r + dr < d ==> votes_at(
                    acc@,
                    a,
                    d,
                    t + dt,
                    r + dr,
                ) <= votes,
        decreases 11 - k,
    {
        let row: usize = turned(t, k, angles);
        if !row_is_lower(acc, angles, distances, row, r, votes) {
            proof {
                let dr = choose|dr: int|
                    #![trigger acc@[row * distances + (r + dr)]]
                    -5 <= dr <= 5 && 0 <= r + dr < distances && acc@[row * distances + (r + dr)]
                        > votes;
                let dt = k - 5;
                assert(votes_at(acc@, a, d, t + dt, r + dr) > votes);
            }
            return false;
        }
        proof {
            assert forall|dt: int, dr: int|
                #![trigger votes_at(acc@, a, d, t + dt, r + dr)]
                -5 <= dt < k + 1 - 5 && -5 <= dr <= 5 && 0 <= r + dr < d implies votes_at(
                acc@,
                a,
                d,
                t + dt,
                r + dr,
            ) <= votes by {
                if dt == k - 5 {
                    assert(acc@[row * distances + (r + dr)] <= votes);
                }
            }
        }
        k += 1;
    }
    true
}

/// The peaks of an accumulator with at least `least` votes, most votes first, at most
/// `most` of them.
pub fn extract_peaks(
    acc: &Vec<u32>,
    angles: usize,
    distances: usize,
    least: u32,
    most: usize,
) -> (r: Vec<Peak>)
    requires
        acc.len() == angles * distances,
        angles <= 0x7FFF_FFFF,
    ensures
        r@ == top_peaks(acc@, angles as int, distances as int, least as int, most as int),
        r.len() <= most,
{
    let mut all: Vec<Peak> = Vec::new();
    let mut keys: Vec<u128> = Vec::new();
    let mut i: usize = 0;
    while i < acc.len()
        invariant
            i <= acc.len(),
            acc.len() == angles * distances,
            angles <= 0x7FFF_FFFF,
            all@ == peak_list(acc@, angles as int, distances as int, least as int, i as nat),
            keys@ =~= vote_keys(all@),
        decreases acc.len() - i,
    {
        proof {
            assert(distances * angles == angles * distances) by (nonlinear_arith);
            lemma_cell_coords(distances as int, angles as int, i as int);
        }
        let votes: u32 = acc[i];
        if votes >= least {
            let t: usize = i / distances;
            let r: usize = i % distances;
            if check_peak(acc, angles, distances, t, r) {
                all.push(Peak { theta: t, rho: r, votes });
                keys.push((u32::MAX - votes) as u128);
            }
        }
        i += 1;
    }
    let order = stable_order(&keys);
    let mut r: Vec<Peak> = Vec::new();
    let ghost sorted = Seq::new(all@.len(), |i: int| all@[order_of(vote_keys(all@))[i] as int]);
    let mut k: usize = 0;
    while k < order.len() && k < most
        invariant
            k <= order.len(),
            k <= most,
            order.len() == all.len(),
            order@ == order_of(vote_keys(all@)),
            forall|j: int| 0 <= j < order.len() ==> #[trigger] order@[j] < all.len(),
            sorted == Seq::new(all@.len(), |i: int| all@[order_of(vote_keys(all@))[i] as int]),
            r@ =~= sorted.take(k as int),
        decreases order.len() - k,
    {
        r.push(all[order[k]]);
        k += 1;
    }
    r
}

/// A stretch of a line that is supported by edges throughout, or not at all.
#[derive(Debug, Clone, Copy, PartialEq, Eq, Structural)]
pub struct Run {
    pub edge: bool,
    pub start: usize,
    pub length: usize,
}

/// A point on a line, and whether an edge supports it.
#[derive(Debug, Clone, Copy, PartialEq, Eq, Structural)]
pub struct Support {
    pub edge: bool,
    pub x: usize,
    pub y: usize,
}

/// The stretches of the first `n` points of a line.
pub open spec fn runs_of(s: Seq<Support>, n: nat) -> Seq<Run>
    decreases n,
{
    if n == 0 {
        Seq::empty()
    } else {
        let rest = runs_of(s, (n - 1) as nat);
        if rest.len() > 0 && rest.last().edge == s[n - 1].edge {
            rest.drop_last().push(
                Run { length: (rest.last().length + 1) as usize, ..rest.last() },
            )
        } else {
            rest.push(Run { edge: s[n - 1].edge, start: (n - 1) as usize, length: 1 })
        }
    }
}

/// The stretches of a line cover it without gap or overlap.
proof fn lemma_runs(s: Seq<Support>, n: nat)
    requires
        n <= s.len(),
        s.len() <= usize::MAX,
    ensures
        ({
            let r = runs_of(s, n);
            &&& r.len() <= n
            &&& n > 0 ==> r.len() > 0 && r.last().start + r.last().length == n
            &&& forall|i: int|
                0 <= i < r.len() ==> (#[trigger] r[i]).length >= 1 && r[i].start + r[i].length <= n
        }),
    decreases n,
{
    if n > 0 {
        lemma_runs(s, (n - 1) as nat);
        let rest = runs_of(s, (n - 1) as nat);
        let r = runs_of(s, n);
        assert forall|i: int| 0 <= i < r.len() implies (#[trigger] r[i]).length >= 1 && r[i].start
            + r[i].length <= n by {
            if i < rest.len() - 1 {
                assert(r[i] == rest[i]);
            } else if i < rest.len() {
                assert(rest[i].length >= 1);
            }
        }
    }
}

/// A break of a line: where it starts along the line, how long it is, and its box.
#[derive(Debug, Clone, Copy, PartialEq, Eq, Structural)]
pub struct LineGap {
    pub start: usize,
    pub length: usize,
    pub min_x: usize,
    pub min_y: usize,
    pub max_x: usize,
    pub max_y: usize,
}

/// Stretch `i` is a break: an unsupported one of acceptable length between two supported
/// ones that are long enough.
pub open spec fn is_break(r: Seq<Run>, i: int, segment: int, shortest: int, longest: int) -> bool {
    &&& 1 <= i < r.len() - 1
    &&& !r[i].edge
    &&& shortest <= r[i].length <= longest
    &&& r[i - 1].edge
    &&& r[i + 1].edge
    &&& r[i - 1].length >= segment
    &&& r[i + 1].length >= segment
}

/// The break of `n` points from `start` on, with its box.
pub open spec fn gap_of(s: Seq<Support>, start: int, n: nat) -> LineGap
    decreases n,
{
    if n == 0 {
        LineGap {
            start: start as usize,
            length: 0,
            min_x: usize::MAX,
            min_y: usize::MAX,
            max_x: 0,
            max_y: 0,
        }
    } else {
        let g = gap_of(s, start, (n - 1) as nat);
        let p = s[start + n - 1];
        LineGap {
            start: g.start,
            length: n as usize,
            min_x: if p.x < g.min_x {
                p.x
            } else {
                g.min_x
            },
            min_y: if p.y < g.min_y {
                p.y
            } else {
                g.min_y
            },
            max_x: if p.x > g.max_x {
                p.x
            } else {
                g.max_x
            },
            max_y: if p.y > g.max_y {
                p.y
            } else {
                g.max_y
            },
        }
    }
}

/// The breaks among the first `n` stretches.
pub open spec fn breaks(
    s: Seq<Support>,
    r: Seq<Run>,
    segment: int,
    shortest: int,
    longest: int,
    n: nat,
) -> Seq<LineGap>
    decreases n,
{
    if n == 0 {
        Seq::empty()
    } else {
        let rest = breaks(s, r, segment, shortest, longest, (n - 1) as nat);
        if is_break(r, n - 1, segment, shortest, longest) {
            rest.push(gap_of(s, r[n - 1].start as int, r[n - 1].length as nat))
        } else {
            rest
        }
    }
}

/// The breaks of a line.
pub open spec fn breaks_of(s: Seq<Support>, segment: int, shortest: int, longest: int) -> Seq<
    LineGap,
> {
    let r = runs_of(s, s.len());
    breaks(s, r, segment, shortest, longest, r.len())
}

fn find_runs(s: &Vec<Support>) -> (r: Vec<Run>)
    ensures
        r@ == runs_of(s@, s@.len()),
{
    let mut r: Vec<Run> = Vec::new();
    let mut i: usize = 0;
    while i < s.len()
        invariant
            i <= s.len(),
            r@ == runs_of(s@, i as nat),
        decreases s.len() - i,
    {
        proof {
            lemma_runs(s@, i as nat);
        }
        let edge: bool = s[i].edge;
        let n: usize = r.len();
        if n > 0 && r[n - 1].edge == edge {
            let last: Run = r[n - 1];
            let ghost before = r@;
            r.set(n - 1, Run { edge: last.edge, start: last.start, length: last.length + 1 });
            proof {
                assert(r@ =~= before.drop_last().push(
                    Run { length: (before.last().length + 1) as usize, ..before.last() },
                ));
            }
        } else {
            r.push(Run { edge, start: i, length: 1 });
        }
        i += 1;
    }
    r
}

fn measure_gap(s: &Vec<Support>, start: usize, length: usize) -> (r: LineGap)
    requires
        start + length <= s.len(),
    ensures
        r == gap_of(s@, start as int, length as nat),
        length > 0 ==> r.min_x <= r.max_x && r.min_y <= r.max_y,
        forall|k: int|
            start <= k < start + length ==> r.min_x <= (#[trigger] s@[k]).x <= r.max_x && r.min_y
                <= s@[k].y <= r.max_y,
        length > 0 ==> (exists|k: int|
            start <= k < start + length && (#[trigger] s@[k]).x == r.max_x) && (exists|k: int|
            start <= k < start + length && (#[trigger] s@[k]).y == r.max_y),
{
    let mut g = LineGap {
        start,
        length: 0,
        min_x: usize::MAX,
        min_y: usize::MAX,
        max_x: 0,
        max_y: 0,
    };
    let mut k: usize = 0;
    while k < length
        invariant
            k <= length,
            start + length <= s.len(),
            g == gap_of(s@, start as int, k as nat),
            g.start == start,
            k > 0 ==> g.min_x <= g.max_x && g.min_y <= g.max_y,
            k == 0 ==> g.max_x == 0 && g.max_y == 0,
            forall|j: int|
                start <= j < start + k ==> g.min_x <= (#[trigger] s@[j]).x <= g.max_x && g.min_y
                    <= s@[j].y <= g.max_y,
            k > 0 ==> (exists|j: int| start <= j < start + k && (#[trigger] s@[j]).x == g.max_x)
                && (exists|j: int| start <= j < start + k && (#[trigger] s@[j]).y == g.max_y),
        decreases length - k,
    {
        let p: Support = s[start + k];
        let ghost prev = g;
        g = LineGap {
            start,
            length: k + 1,
            min_x: if p.x < g.min_x {
                p.x
            } else {
                g.min_x
            },
            min_y: if p.y < g.min_y {
                p.y
            } else {
                g.min_y
            },
            max_x: if p.x > g.max_x {
                p.x
            } else {
                g.max_x
            },
            max_y: if p.y > g.max_y {
                p.y
            } else {
                g.max_y
            },
        };
        proof {
            assert(s@[start + k] == p);
            if k > 0 {
                let jx = choose|j: int| start <= j < start + k && (#[trigger] s@[j]).x == prev.max_x;
                let jy = choose|j: int| start <= j < start + k && (#[trigger] s@[j]).y == prev.max_y;
                assert(s@[if p.x > prev.max_x {
                    start + k
                } else {
                    jx
                }].x == g.max_x);
                assert(s@[if p.y > prev.max_y {
                    start + k
                } else {
                    jy
                }].y == g.max_y);
            } else {
                assert(s@[start as int].x == g.max_x);
                assert(s@[start as int].y == g.max_y);
            }
        }
        k += 1;
    }
    g
}

/// Finds the breaks of a line: unsupported stretches of `shortest` to `longest` points
/// between supported ones of at least `segment` points.
pub fn find_gaps(s: &Vec<Support>, segment: usize, shortest: usize, longest: usize) -> (r: Vec<
    LineGap,
>)
    requires
        shortest > 0,
    ensures
        r@ == breaks_of(s@, segment as int, shortest as int, longest as int),
        forall|i: int|
            0 <= i < r.len() ==> (#[trigger] r@[i]).min_x <= r@[i].max_x && r@[i].min_y
                <= r@[i].max_y && (exists|k: int| 0 <= k < s.len() && (#[trigger] s@[k]).x
                == r@[i].max_x) && (exists|k: int| 0 <= k < s.len() && (#[trigger] s@[k]).y
                == r@[i].max_y),
{
    let runs = find_runs(s);
    proof {
        assert(s@.len() == s.len());
        lemma_runs(s@, s.len() as nat);
    }
    let mut r: Vec<LineGap> = Vec::new();
    let mut i: usize = 0;
    while i < runs.len()
        invariant
            i <= runs.len(),
            shortest > 0,
            runs@ == runs_of(s@, s@.len()),
            forall|i: int|
                0 <= i < runs.len() ==> (#[trigger] runs@[i]).length >= 1 && runs@[i].start
                    + runs@[i].length <= s.len(),
            r@ == breaks(
                s@,
                runs@,
                segment as int,
                shortest as int,
                longest as int,
                i as nat,
            ),
            forall|i: int|
                0 <= i < r.len() ==> (#[trigger] r@[i]).min_x <= r@[i].max_x && r@[i].min_y
                    <= r@[i].max_y && (exists|k: int| 0 <= k < s.len() && (#[trigger] s@[k]).x
                    == r@[i].max_x) && (exists|k: int| 0 <= k < s.len() && (#[trigger] s@[k]).y
                    == r@[i].max_y),
        decreases runs.len() - i,
    {
        let run: Run = runs[i];
        proof {
            assert(run == runs@[i as int]);
        }
        if i >= 1 && runs.len() - i > 1 && !run.edge && shortest <= run.length && run.length
            <= longest && runs[i - 1].edge && runs[i + 1].edge && runs[i - 1].length >= segment
            && runs[i + 1].length >= segment {
            let g = measure_gap(s, run.start, run.length);
            proof {
                let kx = choose|k: int|
                    run.start <= k < run.start + run.length && (#[trigger] s@[k]).x == g.max_x;
                let ky = choose|k: int|
                    run.start <= k < run.start + run.length && (#[trigger] s@[k]).y == g.max_y;
                assert(s@[kx].x == g.max_x && s@[ky].y == g.max_y);
            }
            r.push(g);
        }
        i += 1;
    }
    r
}

/// A bin's votes lie at its angle, taken round the circle, and its distance.
pub proof fn law_votes(acc: Seq<u32>, angles: int, distances: int, t: int, r: int)
    requires
        0 <= t < angles,
    ensures
        votes_at(acc, angles, distances, t, r) == acc[distances * t + r],
        votes_at(acc, angles, distances, t + angles, r) == acc[distances * t + r],
        votes_at(acc, angles, distances, t - angles, r) == acc[distances * t + r],
{
    vstd::arithmetic::div_mod::lemma_small_mod(t as nat, angles as nat);
    vstd::arithmetic::div_mod::lemma_mod_add_multiples_vanish(t, angles);
    vstd::arithmetic::div_mod::lemma_mod_sub_multiples_vanish(t, angles);
    assert(t % angles == t);
    assert((angles + t) % angles == t % angles && (-angles + t) % angles == t % angles);
    assert(t + angles == angles + t && t - angles == -angles + t);
    assert(t * distances == distances * t) by (nonlinear_arith);
}

/// A peak has no fewer votes than any bin within five angles and five distances, and a bin
/// with fewer than one of those is no peak.
pub proof fn law_peak(
    acc: Seq<u32>,
    angles: int,
    distances: int,
    t: int,
    r: int,
    t1: int,
    r1: int,
)
    requires
        0 <= r1 < distances,
        t - 5 <= t1 <= t + 5,
        r - 5 <= r1 <= r + 5,
    ensures
        is_peak(acc, angles, distances, t, r) ==> votes_at(acc, angles, distances, t1, r1) <= votes_at(
            acc,
            angles,
            distances,
            t,
            r,
        ),
{
    let (dt, dr) = (t1 - t, r1 - r);
    assert(t + dt == t1 && r + dr == r1);
    assert(votes_at(acc, angles, distances, t + dt, r + dr) == votes_at(
        acc,
        angles,
        distances,
        t1,
        r1,
    ));
}

/// A bin is a peak where none further off than five counts against it.
pub proof fn law_far_bins_do_not_matter(
    a: Seq<u32>,
    b: Seq<u32>,
    angles: int,
    distances: int,
    t: int,
    r: int,
)
    requires
        forall|t1: int, r1: int|
            t - 5 <= t1 <= t + 5 && r - 5 <= r1 <= r + 5 && 0 <= r1 < distances ==> votes_at(
                a,
                angles,
                distances,
                t1,
                r1,
            ) == #[trigger] votes_at(b, angles, distances, t1, r1),
        0 <= r < distances,
        is_peak(a, angles, distances, t, r),
    ensures
        is_peak(b, angles, distances, t, r),
{
    assert(votes_at(b, angles, distances, t, r) == votes_at(a, angles, distances, t, r));
    assert forall|dt: int, dr: int|
        #![trigger votes_at(b, angles, distances, t + dt, r + dr)]
        -5 <= dt <= 5 && -5 <= dr <= 5 && 0 <= r + dr < distances implies votes_at(
        b,
        angles,
        distances,
        t + dt,
        r + dr,
    ) <= votes_at(b, angles, distances, t, r) by {
        assert(votes_at(a, angles, distances, t + dt, r + dr) <= votes_at(
            a,
            angles,
            distances,
            t,
            r,
        ));
    }
}

/// The peaks are the bins with enough votes that no near bin exceeds, in the order of the
/// bins.
pub proof fn law_peaks(acc: Seq<u32>, angles: int, distances: int, least: int, n: nat)
    requires
        n <= acc.len(),
    ensures
        peak_list(acc, angles, distances, least, n) == which(n, |i: int| acc[i] >= least && is_peak(acc, angles, distances, i / distances, i % distances)).map_values(|i: int| Peak { theta: (i / distances) as usize, rho: (i % distances) as usize, votes: acc[i] }),
    decreases n,
{
    let p = |i: int| acc[i] >= least && is_peak(acc, angles, distances, i / distances, i % distances);
    let f = |i: int| Peak { theta: (i / distances) as usize, rho: (i % distances) as usize, votes: acc[i] };
    lemma_which(0, p);
    if n > 0 {
        let lower = (n - 1) as nat;
        law_peaks(acc, angles, distances, least, lower);
        lemma_which(lower, p);
        assert(which(n, p).map_values(f) =~= if p(lower as int) {
            which(lower, p).map_values(f).push(f(lower as int))
        } else {
            which(lower, p).map_values(f)
        });
    } else {
        assert(which(0, p).map_values(f) =~= Seq::<Peak>::empty());
    }
}

/// The peaks kept are those with the most votes, most first: none left out has more than one
/// that is kept.
pub proof fn law_top_peaks(
    acc: Seq<u32>,
    angles: int,
    distances: int,
    least: int,
    most: int,
    i: int,
    j: int,
)
    requires
        0 <= angles * distances <= usize::MAX,
        0 <= most,
        0 <= i < j < top_peaks(acc, angles, distances, least, most).len(),
    ensures
        ({
            let p = peak_list(acc, angles, distances, least, (angles * distances) as nat);
            let top = top_peaks(acc, angles, distances, least, most);
            &&& top[i].votes >= top[j].votes
            &&& top.len() == if p.len() < most {
                p.len() as int
            } else {
                most
            }
            &&& p.contains(top[i])
        }),
{
    let n = (angles * distances) as nat;
    let p = peak_list(acc, angles, distances, least, n);
    lemma_no_more_peaks(acc, angles, distances, least, n);
    let keys = vote_keys(p);
    law_order_exists(keys);
    let o = order_of(keys);
    assert(before(keys, o[i] as int, o[j] as int));
    assert(keys[o[i] as int] <= keys[o[j] as int]);
    assert(p.contains(p[o[i] as int]));
}

proof fn lemma_no_more_peaks(acc: Seq<u32>, angles: int, distances: int, least: int, n: nat)
    ensures
        peak_list(acc, angles, distances, least, n).len() <= n,
    decreases n,
{
    if n > 0 {
        lemma_no_more_peaks(acc, angles, distances, least, (n - 1) as nat);
    }
}

/// The runs of a line follow each other without a gap from its first sample to its last, each
/// of one kind, and neighbours of different kinds.
pub proof fn law_runs(s: Seq<Support>, n: nat)
    requires
        n <= s.len() <= usize::MAX,
    ensures
        ({
            let r = runs_of(s, n);
            &&& r.len() == 0 <==> n == 0
            &&& n > 0 ==> r[0].start == 0 && r.last().start + r.last().length == n
            &&& forall|k: int| 0 <= k < r.len() ==> (#[trigger] r[k]).length >= 1 && r[k].start
                + r[k].length <= n
            &&& forall|j: int, k: int|
                0 <= j && k == j + 1 && k < r.len() ==> (#[trigger] r[j]).start + r[j].length == (
                #[trigger] r[k]).start && r[j].edge != r[k].edge
            &&& forall|k: int, i: int|
                0 <= k < r.len() && (#[trigger] r[k]).start <= i < r[k].start + r[k].length ==> (
                #[trigger] s[i]).edge == r[k].edge
        }),
    decreases n,
{
    if n > 0 {
        let m = (n - 1) as nat;
        law_runs(s, m);
        let q = runs_of(s, m);
        let r = runs_of(s, n);
        if q.len() > 0 && q.last().edge == s[n - 1].edge {
            assert(r.len() == q.len());
            assert(forall|k: int| 0 <= k < r.len() - 1 ==> #[trigger] r[k] == q[k]);
            assert(r.last().start == q.last().start && r.last().edge == q.last().edge);
            assert(q[q.len() - 1] == q.last());
        } else {
            assert(forall|k: int| 0 <= k < r.len() - 1 ==> #[trigger] r[k] == q[k]);
            assert(q.len() > 0 ==> q[q.len() - 1] == q.last());
        }
    }
}

/// The box of a gap holds all its samples, and each of its sides is touched by one.
pub proof fn law_gap_box(s: Seq<Support>, start: int, n: nat, i: int)
    requires
        0 <= start,
        start + n <= s.len() <= usize::MAX,
        start <= i < start + n,
    ensures
        ({
            let g = gap_of(s, start, n);
            &&& g.start == start && g.length == n
            &&& g.min_x <= s[i].x <= g.max_x
            &&& g.min_y <= s[i].y <= g.max_y
            &&& exists|j: int| start <= j < start + n && (#[trigger] s[j]).x == g.min_x
            &&& exists|j: int| start <= j < start + n && (#[trigger] s[j]).y == g.min_y
            &&& exists|j: int| start <= j < start + n && (#[trigger] s[j]).x == g.max_x
            &&& exists|j: int| start <= j < start + n && (#[trigger] s[j]).y == g.max_y
        }),
    decreases n,
{
    let m = (n - 1) as nat;
    let g = gap_of(s, start, n);
    let q = s[start + n - 1];
    assert(gap_of(s, start, 0).min_x == usize::MAX);
    if m > 0 {
        law_gap_box(s, start, m, if i < start + m {
            i
        } else {
            start
        });
        let f = gap_of(s, start, m);
        let a = choose|j: int| start <= j < start + m && (#[trigger] s[j]).x == f.min_x;
        let b = choose|j: int| start <= j < start + m && (#[trigger] s[j]).y == f.min_y;
        let c = choose|j: int| start <= j < start + m && (#[trigger] s[j]).x == f.max_x;
        let d = choose|j: int| start <= j < start + m && (#[trigger] s[j]).y == f.max_y;
        assert(s[a].x == g.min_x || q.x == g.min_x);
        assert(s[b].y == g.min_y || q.y == g.min_y);
        assert(s[c].x == g.max_x || q.x == g.max_x);
        assert(s[d].y == g.max_y || q.y == g.max_y);
    } else {
        assert(q.x == g.min_x && q.y == g.min_y && q.x == g.max_x && q.y == g.max_y);
    }
}

/// A line breaks at the runs without an edge, neither too short nor too long, between two
/// runs with one that are long enough.
pub proof fn law_breaks(s: Seq<Support>, r: Seq<Run>, segment: int, shortest: int, longest: int, n: nat)
    requires
        n <= r.len(),
    ensures
        breaks(s, r, segment, shortest, longest, n) == which(n, |i: int| i > 0 && i + 1 < r.len() && !r[i].edge && r[i - 1].edge && r[i + 1].edge && r[i].length >= shortest && r[i].length <= longest && r[i - 1].length >= segment && r[i + 1].length >= segment).map_values(|i: int| gap_of(s, r[i].start as int, r[i].length as nat)),
    decreases n,
{
    let p = |i: int| i > 0 && i + 1 < r.len() && !r[i].edge && r[i - 1].edge && r[i + 1].edge && r[i].length >= shortest && r[i].length <= longest && r[i - 1].length >= segment && r[i + 1].length >= segment;
    let f = |i: int| gap_of(s, r[i].start as int, r[i].length as nat);
    lemma_which(0, p);
    if n > 0 {
        let lower = (n - 1) as nat;
        law_breaks(s, r, segment, shortest, longest, lower);
        lemma_which(lower, p);
        assert(which(n, p).map_values(f) =~= if p(lower as int) {
            which(lower, p).map_values(f).push(f(lower as int))
        } else {
            which(lower, p).map_values(f)
        });
    } else {
        assert(which(0, p).map_values(f) =~= Seq::<LineGap>::empty());
    }
}

} // verus!
