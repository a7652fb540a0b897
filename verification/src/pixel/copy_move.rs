//! Copy-move (clone) detection: matched pairs of blocks that share a displacement.
//!
//! Blocks are matched by rotation-invariant features, which are computed in floating
//! point by the caller. The filter picks samples among the matches by chance; the
//! picks are an argument here, and what is proved holds for all of them.

use crate::finding::Finding;
use crate::finding::FindingView;
use crate::finding::Region;
use crate::finding::RegionView;
use crate::finding::Severity;
use crate::finding::boxed_finding;
use crate::finding::group_values;
use crate::finding::values;
use crate::grid::abs;
use crate::grid::imin;
use crate::order::before;
use crate::order::law_order_exists;
use crate::order::order_of;
use crate::order::stable_order;
use crate::raster::Frame;
use crate::raster::area;
use crate::raster::bound_gray;
use crate::raster::bounded_gray;
use crate::raster::resizable;
use crate::select::lemma_which;
use crate::select::which;
use crate::share::U30;
use crate::share::U65;
use crate::share::U95;
use crate::share::capped;
use crate::share::confidence;
use crate::share::confidence_of;
use crate::share::law_confidence_below_one;
use crate::share::share;
use crate::share::share_of;
use crate::text::append_decimal;
use crate::text::decimal_text;
use vstd::prelude::*;
use vstd::string::*;

verus! {

/// Cap on the pixel count of the image that is analyzed.
pub const MATCH_PIXELS: u64 = 400_000;

/// The copy-move detector.
pub struct CopyMoveDetector {
    pub block_radius: usize,
    pub stride: usize,
    /// Below this distance of their features two blocks match, as a key.
    pub similarity_threshold: i64,
    pub min_cluster_size: usize,
    pub ransac_iterations: usize,
    /// Below this distance in pixels two displacements agree.
    pub ransac_inlier_threshold: u32,
}

/// The similarity threshold of the default detector, as a key: 0.15.
pub const SIMILARITY: i64 = 0x3FC3_3333_3333_3333;

impl Default for CopyMoveDetector {
    fn default() -> (r: CopyMoveDetector)
        ensures
            r.block_radius == 12,
            r.stride == 4,
            r.min_cluster_size == 8,
            r.ransac_iterations == 200,
            r.similarity_threshold == SIMILARITY,
            r.ransac_inlier_threshold == 8,
    {
        CopyMoveDetector {
            block_radius: 12,
            stride: 4,
            similarity_threshold: SIMILARITY,
            min_cluster_size: 8,
            ransac_iterations: 200,
            ransac_inlier_threshold: 8,
        }
    }
}

/// A matched pair of blocks, by their centres.
#[derive(Debug, Clone, Copy, PartialEq, Eq, Structural)]
pub struct Match {
    pub x1: u32,
    pub y1: u32,
    pub x2: u32,
    pub y2: u32,
}

/// A displacement.
#[derive(Debug, Clone, Copy, PartialEq, Eq, Structural)]
pub struct Shift {
    pub dx: i64,
    pub dy: i64,
}

/// The displacement of a match.
pub open spec fn shift_of(m: Match) -> Shift {
    Shift { dx: (m.x2 - m.x1) as i64, dy: (m.y2 - m.y1) as i64 }
}

/// Two displacements agree: their squared distance is below a limit.
pub open spec fn agrees(a: Shift, b: Shift, limit: int) -> bool {
    (a.dx - b.dx) * (a.dx - b.dx) + (a.dy - b.dy) * (a.dy - b.dy) < limit
}

/// The first `n` matches that agree with a sample.
pub open spec fn inliers(m: Seq<Match>, sample: Match, limit: int, n: nat) -> Seq<Match>
    decreases n,
{
    if n == 0 {
        Seq::empty()
    } else if agrees(shift_of(m[n - 1]), shift_of(sample), limit) {
        inliers(m, sample, limit, (n - 1) as nat).push(m[n - 1])
    } else {
        inliers(m, sample, limit, (n - 1) as nat)
    }
}

/// The largest set of agreeing matches after `k` picks, the first of equals.
pub open spec fn best_inliers(
    m: Seq<Match>,
    picks: Seq<usize>,
    limit: int,
    k: nat,
) -> Seq<Match>
    decreases k,
{
    if k == 0 {
        Seq::empty()
    } else {
        let best = best_inliers(m, picks, limit, (k - 1) as nat);
        let found = inliers(m, m[picks[k - 1] as int % m.len() as int], limit, m.len());
        if found.len() > best.len() {
            found
        } else {
            best
        }
    }
}

/// What the filter keeps: all of fewer than four matches, else the largest set that
/// agrees with a pick.
pub open spec fn consistent(m: Seq<Match>, picks: Seq<usize>, limit: int) -> Seq<Match> {
    if m.len() < 4 {
        m
    } else {
        best_inliers(m, picks, limit, picks.len())
    }
}

/// A coordinate of a displacement rounded to a multiple of sixteen, halves away from
/// zero.
pub open spec fn snapped(d: int) -> int {
    if d >= 0 {
        (d + 8) / 16 * 16
    } else {
        -((-d + 8) / 16 * 16)
    }
}

/// The cell of a displacement.
pub open spec fn snap(s: Shift) -> Shift {
    Shift { dx: snapped(s.dx as int) as i64, dy: snapped(s.dy as int) as i64 }
}

/// Matches with one displacement.
pub struct Group {
    pub shift: Shift,
    pub members: Vec<Match>,
}

/// The value of a [`Group`].
pub struct GroupView {
    pub shift: Shift,
    pub members: Seq<Match>,
}

impl View for Group {
    type V = GroupView;

    open spec fn view(&self) -> GroupView {
        GroupView { shift: self.shift, members: self.members@ }
    }
}

/// A group has members, and its displacement is one that rounding can give.
pub open spec fn is_group(g: Group) -> bool {
    &&& g.members.len() > 0
    &&& -0x1_0000_0010 <= g.shift.dx <= 0x1_0000_0010
    &&& -0x1_0000_0010 <= g.shift.dy <= 0x1_0000_0010
}

/// The values of a list of groups.
pub open spec fn groups(g: Seq<Group>) -> Seq<GroupView> {
    Seq::new(g.len(), |i: int| g[i]@)
}

/// Groups with one more match: added to the group of its cell, or to a new one.
pub open spec fn added(g: Seq<GroupView>, m: Match, k: nat) -> Seq<GroupView>
    decreases g.len() - k,
{
    if k >= g.len() {
        g.push(GroupView { shift: snap(shift_of(m)), members: seq![m] })
    } else if g[k as int].shift == snap(shift_of(m)) {
        g.update(
            k as int,
            GroupView { shift: g[k as int].shift, members: g[k as int].members.push(m) },
        )
    } else {
        added(g, m, k + 1)
    }
}

/// The first `n` matches grouped by the cells of their displacements.
pub open spec fn grouped(m: Seq<Match>, n: nat) -> Seq<GroupView>
    decreases n,
{
    if n == 0 {
        Seq::empty()
    } else {
        added(grouped(m, (n - 1) as nat), m[n - 1], 0)
    }
}

/// Ordering keys that put larger groups first.
pub open spec fn group_keys(g: Seq<GroupView>) -> Seq<u128> {
    Seq::new(g.len(), |i: int| (usize::MAX - g[i].members.len()) as u128)
}

/// The groups, largest first.
pub open spec fn sorted_groups(g: Seq<GroupView>) -> Seq<GroupView> {
    Seq::new(g.len(), |i: int| g[order_of(group_keys(g))[i] as int])
}

/// Two displacements are at most two cells apart in either direction.
pub open spec fn near_shift(a: Shift, b: Shift) -> bool {
    abs(a.dx - b.dx) <= 32 && abs(a.dy - b.dy) <= 32
}

/// What is kept of the first `n` groups: those that are not near one kept before.
pub open spec fn undominated(g: Seq<GroupView>, n: nat) -> Seq<GroupView>
    decreases n,
{
    if n == 0 {
        Seq::empty()
    } else {
        let kept = undominated(g, (n - 1) as nat);
        if exists|k: int|
            0 <= k < kept.len() && near_shift((#[trigger] kept[k]).shift, g[n - 1].shift) {
            kept
        } else {
            kept.push(g[n - 1])
        }
    }
}

/// The clusters of displacements: at most three, largest first, none near another.
pub open spec fn displacement_clusters(m: Seq<Match>) -> Seq<GroupView> {
    let g = sorted_groups(grouped(m, m.len()));
    let kept = undominated(g, g.len());
    kept.take(imin(kept.len() as int, 3))
}

/// No two clusters have nearby displacements.
pub proof fn law_clusters_apart(g: Seq<GroupView>, n: nat, i: int, j: int)
    requires
        n <= g.len(),
        0 <= i < j < undominated(g, n).len(),
    ensures
        !near_shift(undominated(g, n)[i].shift, undominated(g, n)[j].shift),
    decreases n,
{
    let kept = undominated(g, (n - 1) as nat);
    if j < kept.len() {
        law_clusters_apart(g, (n - 1) as nat, i, j);
    } else {
        assert(!near_shift(kept[i].shift, g[n - 1].shift));
    }
}

/// A whole number in decimal notation, with a minus sign if it is negative.
pub open spec fn integer_text(n: int) -> Seq<char> {
    if n < 0 {
        "-"@ + decimal_text((-n) as nat)
    } else {
        decimal_text(n as nat)
    }
}

/// The smallest first column of the first `n` matches.
pub open spec fn least_x(m: Seq<Match>, n: nat) -> u32
    decreases n,
{
    if n <= 1 {
        m[0].x1
    } else if m[n - 1].x1 < least_x(m, (n - 1) as nat) {
        m[n - 1].x1
    } else {
        least_x(m, (n - 1) as nat)
    }
}

/// The largest first column of the first `n` matches.
pub open spec fn most_x(m: Seq<Match>, n: nat) -> u32
    decreases n,
{
    if n <= 1 {
        m[0].x1
    } else if m[n - 1].x1 > most_x(m, (n - 1) as nat) {
        m[n - 1].x1
    } else {
        most_x(m, (n - 1) as nat)
    }
}

/// The smallest first row of the first `n` matches.
pub open spec fn least_y(m: Seq<Match>, n: nat) -> u32
    decreases n,
{
    if n <= 1 {
        m[0].y1
    } else if m[n - 1].y1 < least_y(m, (n - 1) as nat) {
        m[n - 1].y1
    } else {
        least_y(m, (n - 1) as nat)
    }
}

/// The largest first row of the first `n` matches.
pub open spec fn most_y(m: Seq<Match>, n: nat) -> u32
    decreases n,
{
    if n <= 1 {
        m[0].y1
    } else if m[n - 1].y1 > most_y(m, (n - 1) as nat) {
        m[n - 1].y1
    } else {
        most_y(m, (n - 1) as nat)
    }
}

/// The confidence in a clone of `n` pairs: 0.65 and an eightieth for each, of which 0.30
/// count, at most 0.95.
pub open spec fn clone_confidence(n: nat) -> u64 {
    confidence_of(
        U65 as nat,
        capped(share_of(imin(n as int, 80) as nat, 80), U30 as nat),
        U95 as nat,
    )
}

fn confidence_in(n: usize) -> (r: u64)
    ensures
        r == clone_confidence(n as nat),
{
    let counted: u64 = if n < 80 {
        n as u64
    } else {
        80
    };
    let s: u128 = share(counted, 80);
    confidence(
        U65,
        if s < U30 {
            s
        } else {
            U30
        },
        U95,
    )
}

/// The finding on a cluster of matches.
pub open spec fn clone_finding(g: GroupView) -> FindingView {
    let m = g.members;
    boxed_finding(
        "copy_move"@,
        "copy_move_detected"@,
        "Copy-move forgery detected: "@ + decimal_text(m.len())
            + " spatially consistent matching pairs with displacement ("@ + integer_text(
            g.shift.dx as int,
        ) + ", "@ + integer_text(g.shift.dy as int)
            + ") - region has been cloned (rotation-invariant Zernike moment matching with RANSAC verification)"@,
        Severity::Critical,
        clone_confidence(m.len()),
        least_x(m, m.len()),
        least_y(m, m.len()),
        (most_x(m, m.len()) - least_x(m, m.len()) + 1) as u32,
        (most_y(m, m.len()) - least_y(m, m.len()) + 1) as u32,
    )
}

/// The findings on the first `n` clusters: those that are large enough.
pub open spec fn clone_findings(g: Seq<GroupView>, least: int, n: nat) -> Seq<FindingView>
    decreases n,
{
    if n == 0 {
        Seq::empty()
    } else if g[n - 1].members.len() >= least {
        clone_findings(g, least, (n - 1) as nat).push(
            clone_finding(g[n - 1]),
        )
    } else {
        clone_findings(g, least, (n - 1) as nat)
    }
}

fn displacement(m: Match) -> (r: Shift)
    ensures
        r == shift_of(m),
        -0xFFFF_FFFF <= r.dx <= 0xFFFF_FFFF,
        -0xFFFF_FFFF <= r.dy <= 0xFFFF_FFFF,
{
    Shift { dx: m.x2 as i64 - m.x1 as i64, dy: m.y2 as i64 - m.y1 as i64 }
}

fn close(a: Shift, b: Shift, limit: u64) -> (r: bool)
    requires
        -0xFFFF_FFFF <= a.dx <= 0xFFFF_FFFF,
        -0xFFFF_FFFF <= a.dy <= 0xFFFF_FFFF,
        -0xFFFF_FFFF <= b.dx <= 0xFFFF_FFFF,
        -0xFFFF_FFFF <= b.dy <= 0xFFFF_FFFF,
    ensures
        r == agrees(a, b, limit as int),
{
    let u: i128 = a.dx as i128 - b.dx as i128;
    let v: i128 = a.dy as i128 - b.dy as i128;
    proof {
        assert(0 <= u * u <= 0x2_0000_0000 * 0x2_0000_0000) by (nonlinear_arith)
            requires
                -0x2_0000_0000 <= u <= 0x2_0000_0000,
        ;
        assert(0 <= v * v <= 0x2_0000_0000 * 0x2_0000_0000) by (nonlinear_arith)
            requires
                -0x2_0000_0000 <= v <= 0x2_0000_0000,
        ;
    }
    u * u + v * v < limit as i128
}

fn find_inliers(m: &Vec<Match>, sample: Match, limit: u64) -> (r: Vec<Match>)
    ensures
        r@ == inliers(m@, sample, limit as int, m@.len()),
{
    let target = displacement(sample);
    let mut r: Vec<Match> = Vec::new();
    let mut i: usize = 0;
    while i < m.len()
        invariant
            i <= m.len(),
            target == shift_of(sample),
            -0xFFFF_FFFF <= target.dx <= 0xFFFF_FFFF,
            -0xFFFF_FFFF <= target.dy <= 0xFFFF_FFFF,
            r@ == inliers(m@, sample, limit as int, i as nat),
        decreases m.len() - i,
    {
        let d = displacement(m[i]);
        if close(d, target, limit) {
            r.push(m[i]);
        }
        i += 1;
    }
    r
}

fn snap_value(d: i64) -> (r: i64)
    requires
        -0xFFFF_FFFF <= d <= 0xFFFF_FFFF,
    ensures
        r == snapped(d as int),
        -0x1_0000_0010 <= r <= 0x1_0000_0010,
{
    if d >= 0 {
        (d + 8) / 16 * 16
    } else {
        -((-d + 8) / 16 * 16)
    }
}

fn add_match(g: &mut Vec<Group>, m: Match)
    requires
        forall|i: int| 0 <= i < old(g).len() ==> is_group(#[trigger] old(g)@[i]),
    ensures
        groups(final(g)@) == added(groups(old(g)@), m, 0),
        forall|i: int| 0 <= i < final(g).len() ==> is_group(#[trigger] final(g)@[i]),
{
    let d = displacement(m);
    let s = Shift { dx: snap_value(d.dx), dy: snap_value(d.dy) };
    let ghost before = groups(g@);
    let mut k: usize = 0;
    while k < g.len()
        invariant
            k <= g.len(),
            g@ == old(g)@,
            before == groups(g@),
            s == snap(shift_of(m)),
            -0x1_0000_0010 <= s.dx <= 0x1_0000_0010,
            -0x1_0000_0010 <= s.dy <= 0x1_0000_0010,
            forall|i: int| 0 <= i < g.len() ==> is_group(#[trigger] g@[i]),
            added(before, m, 0) == added(before, m, k as nat),
        decreases g.len() - k,
    {
        proof {
            assert(before[k as int] == g@[k as int]@);
        }
        if g[k].shift == s {
            let mut members: Vec<Match> = Vec::new();
            let mut i: usize = 0;
            while i < g[k].members.len()
                invariant
                    k < g.len(),
                    i <= g@[k as int].members.len(),
                    members@ =~= g@[k as int].members@.take(i as int),
                decreases g@[k as int].members.len() - i,
            {
                members.push(g[k].members[i]);
                i += 1;
            }
            proof {
                assert(members@ =~= g@[k as int].members@);
            }
            members.push(m);
            let ghost old_g = g@;
            g.set(k, Group { shift: s, members });
            proof {
                assert(groups(g@) =~= before.update(
                    k as int,
                    GroupView {
                        shift: before[k as int].shift,
                        members: before[k as int].members.push(m),
                    },
                ));
            }
            return;
        }
        k += 1;
    }
    let mut members: Vec<Match> = Vec::new();
    members.push(m);
    proof {
        assert(members@ =~= seq![m]);
    }
    let group = Group { shift: s, members };
    g.push(group);
    proof {
        assert(groups(g@) =~= before.push(group@));
    }
}

fn copy_group(g: &Group) -> (r: Group)
    ensures
        r@ == g@,
{
    let mut members: Vec<Match> = Vec::new();
    let mut i: usize = 0;
    while i < g.members.len()
        invariant
            i <= g.members.len(),
            members@ =~= g.members@.take(i as int),
        decreases g.members.len() - i,
    {
        members.push(g.members[i]);
        i += 1;
    }
    proof {
        assert(members@ =~= g.members@);
    }
    Group { shift: g.shift, members }
}

fn near_value(a: i64, b: i64) -> (r: bool)
    requires
        -0x1_0000_0010 <= a <= 0x1_0000_0010,
        -0x1_0000_0010 <= b <= 0x1_0000_0010,
    ensures
        r == (abs(a - b) <= 32),
{
    -32 <= a - b && a - b <= 32
}

fn integer(n: i64) -> (r: String)
    requires
        n > i64::MIN,
    ensures
        r@ == integer_text(n as int),
{
    if n < 0 {
        let mut s = "-".to_string();
        append_decimal(&mut s, (-n) as u64);
        s
    } else {
        crate::text::decimal(n as u64)
    }
}

impl CopyMoveDetector {
    /// The luminance plane that is analyzed: resampled to `nw` by `nh` where the image is
    /// over the cap.
    pub fn working_image(&self, gray: &[u8], w: u32, h: u32, nw: u32, nh: u32) -> (r: Frame)
        requires
            gray@.len() == w * h,
            w * h > MATCH_PIXELS ==> resizable(w, h, nw, nh),
        ensures
            r.monochrome,
            r.wf(),
            (r.width, r.height, r.samples@) == bounded_gray(
                gray@,
                w,
                h,
                MATCH_PIXELS as int,
                nw,
                nh,
            ),
    {
        bound_gray(gray, w, h, MATCH_PIXELS, nw, nh)
    }

    /// Whether an image is large enough to be analyzed.
    pub fn large_enough(&self, w: usize, h: usize) -> (r: bool)
        requires
            self.block_radius <= usize::MAX / 6,
        ensures
            r == (w >= self.block_radius * 6 && h >= self.block_radius * 6),
    {
        w >= self.block_radius * 6 && h >= self.block_radius * 6
    }

    /// Whether so many blocks are enough to look for clones.
    pub fn enough_centers(&self, n: usize) -> (r: bool)
        ensures
            r == (n >= 10),
    {
        n >= 10
    }

    /// Whether two blocks are far enough apart to be matched: three block radii.
    pub fn far_apart(&self, ax: u32, ay: u32, bx: u32, by: u32) -> (r: bool)
        requires
            self.block_radius <= 0x1000_0000,
        ensures
            r == ((ax - bx) * (ax - bx) + (ay - by) * (ay - by) >= (self.block_radius * 3) * (
            self.block_radius * 3)),
    {
        let u: i128 = ax as i128 - bx as i128;
        let v: i128 = ay as i128 - by as i128;
        let d: i128 = self.block_radius as i128 * 3;
        proof {
            assert(0 <= u * u <= 0x1_0000_0000 * 0x1_0000_0000) by (nonlinear_arith)
                requires
                    -0x1_0000_0000 <= u <= 0x1_0000_0000,
            ;
            assert(0 <= v * v <= 0x1_0000_0000 * 0x1_0000_0000) by (nonlinear_arith)
                requires
                    -0x1_0000_0000 <= v <= 0x1_0000_0000,
            ;
            assert(0 <= d * d <= 0x1_0000_0000 * 0x1_0000_0000) by (nonlinear_arith)
                requires
                    0 <= d <= 0x1_0000_0000,
            ;
        }
        u * u + v * v >= d * d
    }

    /// Keeps the matches that share a displacement. `picks` are the random choices of
    /// samples; each is taken modulo the number of matches.
    pub fn ransac_filter(&self, m: &Vec<Match>, picks: &Vec<usize>) -> (r: Vec<Match>)
        ensures
            r@ == consistent(
                m@,
                picks@,
                self.ransac_inlier_threshold * self.ransac_inlier_threshold,
            ),
    {
        let limit: u64 = area(
            self.ransac_inlier_threshold,
            self.ransac_inlier_threshold,
        );
        let mut best: Vec<Match> = Vec::new();
        if m.len() < 4 {
            let mut i: usize = 0;
            while i < m.len()
                invariant
                    i <= m.len(),
                    best@ =~= m@.take(i as int),
                decreases m.len() - i,
            {
                best.push(m[i]);
                i += 1;
            }
            proof {
                assert(m@.take(m@.len() as int) =~= m@);
            }
            return best;
        }
        let mut k: usize = 0;
        while k < picks.len()
            invariant
                k <= picks.len(),
                m.len() >= 4,
                best@ == best_inliers(
                    m@,
                    picks@,
                    limit as int,
                    k as nat,
                ),
            decreases picks.len() - k,
        {
            let at: usize = picks[k] % m.len();
            let found = find_inliers(m, m[at], limit);
            if found.len() > best.len() {
                best = found;
            }
            k += 1;
        }
        best
    }

    /// Groups matches by displacement: at most three groups, largest first, none near
    /// another.
    pub fn cluster_by_displacement(&self, m: &Vec<Match>) -> (r: Vec<Group>)
        ensures
            groups(r@) == displacement_clusters(m@),
            r.len() <= 3,
            forall|i: int| 0 <= i < r.len() ==> is_group(#[trigger] r@[i]),
    {
        let mut g: Vec<Group> = Vec::new();
        let mut i: usize = 0;
        proof {
            assert(groups(g@) =~= Seq::empty());
        }
        while i < m.len()
            invariant
                i <= m.len(),
                groups(g@) == grouped(m@, i as nat),
                forall|i: int| 0 <= i < g.len() ==> is_group(#[trigger] g@[i]),
            decreases m.len() - i,
        {
            add_match(&mut g, m[i]);
            i += 1;
        }
        let ghost all = groups(g@);
        let mut keys: Vec<u128> = Vec::new();
        let mut k: usize = 0;
        while k < g.len()
            invariant
                k <= g.len(),
                all == groups(g@),
                keys@ =~= group_keys(all).take(k as int),
            decreases g.len() - k,
        {
            proof {
                assert(all[k as int] == g@[k as int]@);
            }
            keys.push((usize::MAX - g[k].members.len()) as u128);
            k += 1;
        }
        proof {
            assert(keys@ =~= group_keys(all));
        }
        let order = stable_order(&keys);
        let mut kept: Vec<Group> = Vec::new();
        let mut p: usize = 0;
        proof {
            assert(groups(kept@) =~= Seq::empty());
        }
        while p < order.len()
            invariant
                p <= order.len(),
                order.len() == g.len(),
                all == groups(g@),
                order@ == order_of(group_keys(all)),
                forall|j: int| 0 <= j < order.len() ==> #[trigger] order@[j] < g.len(),
                groups(kept@) == undominated(sorted_groups(all), p as nat),
                forall|i: int| 0 <= i < g.len() ==> is_group(#[trigger] g@[i]),
                forall|i: int| 0 <= i < kept.len() ==> is_group(#[trigger] kept@[i]),
            decreases order.len() - p,
        {
            let at: usize = order[p];
            let ghost here = sorted_groups(all)[p as int];
            proof {
                assert(all[at as int] == g@[at as int]@);
                assert(here == g@[at as int]@);
            }
            let mut dominated: bool = false;
            let mut q: usize = 0;
            while q < kept.len()
                invariant
                    q <= kept.len(),
                    at < g.len(),
                    here == g@[at as int]@,
                    forall|i: int| 0 <= i < g.len() ==> is_group(#[trigger] g@[i]),
                    forall|i: int| 0 <= i < kept.len() ==> is_group(#[trigger] kept@[i]),
                    dominated == exists|j: int|
                        0 <= j < q && near_shift(
                            (#[trigger] groups(kept@)[j]).shift,
                            here.shift,
                        ),
                decreases kept.len() - q,
            {
                proof {
                    assert(groups(kept@)[q as int] == kept@[q as int]@);
                }
                if near_value(kept[q].shift.dx, g[at].shift.dx) && near_value(
                    kept[q].shift.dy,
                    g[at].shift.dy,
                ) {
                    dominated = true;
                }
                q += 1;
            }
            if !dominated {
                let c = copy_group(&g[at]);
                let ghost before = kept@;
                kept.push(c);
                proof {
                    assert(groups(kept@) =~= groups(before).push(here));
                }
            }
            p += 1;
        }
        let ghost whole = groups(kept@);
        let ghost before_cut = kept@;
        if kept.len() > 3 {
            kept.truncate(3);
        }
        proof {
            assert(groups(kept@) =~= whole.take(imin(whole.len() as int, 3)));
            assert forall|i: int| 0 <= i < kept.len() implies is_group(#[trigger] kept@[i]) by {
                assert(kept@[i] == before_cut[i]);
            }
        }
        kept
    }

    fn report_group(&self, g: &Group) -> (r: Finding)
        requires
            g.members.len() > 0,
            -0x1_0000_0010 <= g.shift.dx <= 0x1_0000_0010,
            -0x1_0000_0010 <= g.shift.dy <= 0x1_0000_0010,
            forall|k: int|
                0 <= k < g.members.len() ==> (#[trigger] g.members@[k]).x1 < u32::MAX
                    && g.members@[k].y1 < u32::MAX,
        ensures
            r@ == clone_finding(g@),
    {
        let m = &g.members;
        let mut x0: u32 = m[0].x1;
        let mut x1: u32 = m[0].x1;
        let mut y0: u32 = m[0].y1;
        let mut y1: u32 = m[0].y1;
        let mut i: usize = 1;
        while i < m.len()
            invariant
                1 <= i <= m.len(),
                forall|k: int|
                    0 <= k < m.len() ==> (#[trigger] m@[k]).x1 < u32::MAX && m@[k].y1 < u32::MAX,
                x0 == least_x(m@, i as nat),
                x1 == most_x(m@, i as nat),
                y0 == least_y(m@, i as nat),
                y1 == most_y(m@, i as nat),
                x0 <= x1 < u32::MAX,
                y0 <= y1 < u32::MAX,
            decreases m.len() - i,
        {
            let e: Match = m[i];
            if e.x1 < x0 {
                x0 = e.x1;
            }
            if e.x1 > x1 {
                x1 = e.x1;
            }
            if e.y1 < y0 {
                y0 = e.y1;
            }
            if e.y1 > y1 {
                y1 = e.y1;
            }
            i += 1;
        }
        let mut t = "Copy-move forgery detected: ".to_string();
        append_decimal(&mut t, m.len() as u64);
        t.append(" spatially consistent matching pairs with displacement (");
        let dx = integer(g.shift.dx);
        t.append(dx.as_str());
        t.append(", ");
        let dy = integer(g.shift.dy);
        t.append(dy.as_str());
        t.append(
            ") - region has been cloned (rotation-invariant Zernike moment matching with RANSAC verification)",
        );
        let sure: u64 = confidence_in(g.members.len());
        Finding::new("copy_move", "copy_move_detected", t, Severity::Critical, sure).with_region(
            Region::BoundingBox { x: x0, y: y0, width: x1 - x0 + 1, height: y1 - y0 + 1 },
        )
    }

    /// Reports the clusters that are large enough.
    pub fn report(&self, g: &Vec<Group>) -> (r: Vec<Finding>)
        requires
            forall|i: int| 0 <= i < g.len() ==> is_group(#[trigger] g@[i]),
            forall|i: int, k: int|
                0 <= i < g.len() && 0 <= k < g@[i].members.len() ==> (
                #[trigger] g@[i].members@[k]).x1 < u32::MAX && g@[i].members@[k].y1 < u32::MAX,
        ensures
            values(r@) == clone_findings(
                groups(g@),
                self.min_cluster_size as int,
                g@.len(),
            ),
    {
        broadcast use group_values;

        let mut r: Vec<Finding> = Vec::new();
        let mut i: usize = 0;
        while i < g.len()
            invariant
                i <= g.len(),
                forall|i: int| 0 <= i < g.len() ==> is_group(#[trigger] g@[i]),
                forall|i: int, k: int|
                    0 <= i < g.len() && 0 <= k < g@[i].members.len() ==> (
                    #[trigger] g@[i].members@[k]).x1 < u32::MAX && g@[i].members@[k].y1 < u32::MAX,
                values(r@) == clone_findings(
                    groups(g@),
                    self.min_cluster_size as int,
                    i as nat,
                ),
            decreases g.len() - i,
        {
            broadcast use group_values;

            proof {
                assert(groups(g@)[i as int] == g@[i as int]@);
            }
            if g[i].members.len() >= self.min_cluster_size {
                let f = self.report_group(&g[i]);
                r.push(f);
            }
            i += 1;
        }
        r
    }
}

proof fn lemma_box(m: Seq<Match>, n: nat, k: int)
    requires
        0 <= k < n <= m.len(),
    ensures
        least_x(m, n) <= m[k].x1 <= most_x(m, n),
        least_y(m, n) <= m[k].y1 <= most_y(m, n),
    decreases n,
{
    if n > 1 {
        if k < n - 1 {
            lemma_box(m, (n - 1) as nat, k);
        } else {
            lemma_box(m, (n - 1) as nat, 0);
        }
    }
}

proof fn lemma_box_touched(m: Seq<Match>, n: nat)
    requires
        0 < n <= m.len(),
    ensures
        exists|k: int| 0 <= k < n && (#[trigger] m[k]).x1 == least_x(m, n),
        exists|k: int| 0 <= k < n && (#[trigger] m[k]).x1 == most_x(m, n),
        exists|k: int| 0 <= k < n && (#[trigger] m[k]).y1 == least_y(m, n),
        exists|k: int| 0 <= k < n && (#[trigger] m[k]).y1 == most_y(m, n),
    decreases n,
{
    if n > 1 {
        let l = (n - 1) as nat;
        lemma_box_touched(m, l);
        let a = choose|k: int| 0 <= k < l && (#[trigger] m[k]).x1 == least_x(m, l);
        let b = choose|k: int| 0 <= k < l && (#[trigger] m[k]).x1 == most_x(m, l);
        let c = choose|k: int| 0 <= k < l && (#[trigger] m[k]).y1 == least_y(m, l);
        let d = choose|k: int| 0 <= k < l && (#[trigger] m[k]).y1 == most_y(m, l);
        assert(m[n - 1].x1 == least_x(m, n) || m[a].x1 == least_x(m, n));
        assert(m[n - 1].x1 == most_x(m, n) || m[b].x1 == most_x(m, n));
        assert(m[n - 1].y1 == least_y(m, n) || m[c].y1 == least_y(m, n));
        assert(m[n - 1].y1 == most_y(m, n) || m[d].y1 == most_y(m, n));
    } else {
        assert(m[0].x1 == least_x(m, n) && m[0].x1 == most_x(m, n));
        assert(m[0].y1 == least_y(m, n) && m[0].y1 == most_y(m, n));
    }
}

/// The first block of every match lies in the reported box: its column between the left and
/// the right side, its row between the top and the bottom.
pub proof fn law_box_holds_every_match(g: GroupView, k: int)
    requires
        0 <= k < g.members.len(),
        forall|j: int|
            0 <= j < g.members.len() ==> (#[trigger] g.members[j]).x1 < u32::MAX && g.members[j].y1
                < u32::MAX,
    ensures
        clone_finding(g).region matches Some(RegionView::BoundingBox { x, y, width, height })
            && x <= g.members[k].x1 < x + width && y <= g.members[k].y1 < y + height,
{
    let m = g.members;
    lemma_box(m, m.len(), k);
    lemma_box_touched(m, m.len());
    let a = choose|j: int| 0 <= j < m.len() && (#[trigger] m[j]).x1 == most_x(m, m.len());
    let b = choose|j: int| 0 <= j < m.len() && (#[trigger] m[j]).y1 == most_y(m, m.len());
    assert(m[a].x1 < u32::MAX && m[b].y1 < u32::MAX);
}

/// The reported box is the smallest: a match touches each of its four sides.
pub proof fn law_box_is_touched(g: GroupView)
    requires
        g.members.len() > 0,
        forall|j: int|
            0 <= j < g.members.len() ==> (#[trigger] g.members[j]).x1 < u32::MAX && g.members[j].y1
                < u32::MAX,
    ensures
        clone_finding(g).region matches Some(RegionView::BoundingBox { x, y, width, height }) && (
        exists|k: int| 0 <= k < g.members.len() && (#[trigger] g.members[k]).x1 == x) && (exists|
            k: int,
        |
            0 <= k < g.members.len() && (#[trigger] g.members[k]).x1 == x + width - 1) && (exists|
            k: int,
        | 0 <= k < g.members.len() && (#[trigger] g.members[k]).y1 == y) && (exists|k: int|
            0 <= k < g.members.len() && (#[trigger] g.members[k]).y1 == y + height - 1),
{
    let m = g.members;
    lemma_box(m, m.len(), 0);
    lemma_box_touched(m, m.len());
    let a = choose|j: int| 0 <= j < m.len() && (#[trigger] m[j]).x1 == most_x(m, m.len());
    let b = choose|j: int| 0 <= j < m.len() && (#[trigger] m[j]).y1 == most_y(m, m.len());
    let c = choose|j: int| 0 <= j < m.len() && (#[trigger] m[j]).x1 == least_x(m, m.len());
    let d = choose|j: int| 0 <= j < m.len() && (#[trigger] m[j]).y1 == least_y(m, m.len());
    assert(m[a].x1 < u32::MAX && m[b].y1 < u32::MAX && m[c].x1 < u32::MAX && m[d].y1 < u32::MAX);
}

/// There is one critical finding for each cluster with enough members, in the order of the
/// clusters, and none for the others.
pub proof fn law_large_clusters_are_reported(g: Seq<GroupView>, least: int, n: nat)
    requires
        n <= g.len(),
    ensures
        clone_findings(g, least, n) == which(n, |i: int| !(g[i].members.len() < least)).map_values(
            |i: int| clone_finding(g[i]),
        ),
        forall|i: int|
            0 <= i < n ==> (#[trigger] clone_finding(g[i])).severity == Severity::Critical
                && clone_finding(g[i]).code == "copy_move_detected"@ && clone_finding(g[i]).analyzer
                == "copy_move"@,
    decreases n,
{
    let p = |i: int| !(g[i].members.len() < least);
    let f = |i: int| clone_finding(g[i]);
    lemma_which(0, p);
    if n > 0 {
        let m = (n - 1) as nat;
        law_large_clusters_are_reported(g, least, m);
        lemma_which(m, p);
        assert(which(n, p).map_values(f) =~= if p(m as int) {
            which(m, p).map_values(f).push(f(m as int))
        } else {
            which(m, p).map_values(f)
        });
    } else {
        assert(which(0, p).map_values(f) =~= Seq::<FindingView>::empty());
    }
}

/// The matches that agree with a sample are those whose displacement lies within the limit
/// of its own, as a squared distance.
pub proof fn law_inliers(m: Seq<Match>, sample: Match, limit: int, n: nat)
    requires
        n <= m.len(),
    ensures
        inliers(m, sample, limit, n) == which(n, |i: int| ((m[i].x2 - m[i].x1) - (sample.x2 - sample.x1)) * ((m[i].x2 - m[i].x1) - (sample.x2 - sample.x1)) + ((m[i].y2 - m[i].y1) - (sample.y2 - sample.y1)) * ((m[i].y2 - m[i].y1) - (sample.y2 - sample.y1)) < limit).map_values(|i: int| m[i]),
    decreases n,
{
    let p = |i: int| ((m[i].x2 - m[i].x1) - (sample.x2 - sample.x1)) * ((m[i].x2 - m[i].x1) - (sample.x2 - sample.x1)) + ((m[i].y2 - m[i].y1) - (sample.y2 - sample.y1)) * ((m[i].y2 - m[i].y1) - (sample.y2 - sample.y1)) < limit;
    let f = |i: int| m[i];
    lemma_which(0, p);
    if n > 0 {
        let lower = (n - 1) as nat;
        law_inliers(m, sample, limit, lower);
        lemma_which(lower, p);
        assert(which(n, p).map_values(f) =~= if p(lower as int) {
            which(lower, p).map_values(f).push(f(lower as int))
        } else {
            which(lower, p).map_values(f)
        });
    } else {
        assert(which(0, p).map_values(f) =~= Seq::<Match>::empty());
    }
}

/// Whether two displacements agree does not depend on which is taken first.
pub proof fn law_agreement_symmetric(a: Shift, b: Shift, limit: int)
    ensures
        agrees(a, b, limit) == agrees(b, a, limit),
        limit > 0 ==> agrees(a, a, limit),
{
    let (u, v) = (a.dx - b.dx, a.dy - b.dy);
    assert((-u) * (-u) == u * u && (-v) * (-v) == v * v) by (nonlinear_arith);
    assert((a.dx - a.dx) * (a.dx - a.dx) == 0 && (a.dy - a.dy) * (a.dy - a.dy) == 0);
}

/// Fewer than four matches are all kept. Of more the largest set is kept that agrees with a
/// pick: no pick has more matches that agree with it.
pub proof fn law_largest_consensus(m: Seq<Match>, picks: Seq<usize>, limit: int, k: nat, i: int)
    requires
        m.len() > 0,
        0 <= i < k <= picks.len(),
    ensures
        m.len() < 4 ==> consistent(m, picks, limit) == m,
        inliers(m, m[picks[i] as int % m.len() as int], limit, m.len()).len() <= best_inliers(
            m,
            picks,
            limit,
            k,
        ).len(),
        best_inliers(m, picks, limit, k).len() > 0 ==> exists|j: int|
            0 <= j < k && best_inliers(m, picks, limit, k) == #[trigger] inliers(
                m,
                m[picks[j] as int % m.len() as int],
                limit,
                m.len(),
            ),
        m.len() >= 4 ==> consistent(m, picks, limit) == best_inliers(m, picks, limit, picks.len()),
    decreases k,
{
    let l = (k - 1) as nat;
    let last = inliers(m, m[picks[k - 1] as int % m.len() as int], limit, m.len());
    if l > 0 {
        law_largest_consensus(m, picks, limit, l, if i < l {
            i
        } else {
            0
        });
    }
    assert(last == inliers(m, m[picks[k - 1] as int % m.len() as int], limit, m.len()));
    if best_inliers(m, picks, limit, l).len() > 0 && l > 0 {
        let j = choose|j: int|
            0 <= j < l && best_inliers(m, picks, limit, l) == #[trigger] inliers(
                m,
                m[picks[j] as int % m.len() as int],
                limit,
                m.len(),
            );
        assert(best_inliers(m, picks, limit, k) == last || best_inliers(m, picks, limit, k)
            == inliers(m, m[picks[j] as int % m.len() as int], limit, m.len()));
    } else {
        assert(best_inliers(m, picks, limit, 0) == Seq::<Match>::empty());
    }
}

/// A displacement is rounded to the nearest multiple of sixteen: it is off by eight at most,
/// and opposite displacements are rounded alike.
pub proof fn law_snapped(d: int)
    ensures
        snapped(d) % 16 == 0,
        -8 <= d - snapped(d) <= 8,
        snapped(-d) == -snapped(d),
        d > 0 ==> snapped(d) >= d - 7 && snapped(d) <= d + 8,
{
}

/// The cell of a match is that of how far its second block lies from its first, across and
/// down.
pub proof fn law_cell_of_match(m: Match)
    ensures
        ({
            let c = snap(shift_of(m));
            let (u, v) = (m.x2 - m.x1, m.y2 - m.y1);
            &&& c.dx % 16 == 0 && c.dy % 16 == 0
            &&& -8 <= u - c.dx <= 8 && -8 <= v - c.dy <= 8
        }),
{
    law_snapped(m.x2 - m.x1);
    law_snapped(m.y2 - m.y1);
}

/// Groups are well kept: each member has the displacement of its group, no two groups have
/// the same, and none is empty.
pub open spec fn well_grouped(g: Seq<GroupView>) -> bool {
    &&& forall|i: int| 0 <= i < g.len() ==> (#[trigger] g[i]).members.len() > 0
    &&& forall|i: int, k: int|
        0 <= i < g.len() && 0 <= k < g[i].members.len() ==> snap(
            shift_of(#[trigger] g[i].members[k]),
        ) == g[i].shift
    &&& forall|i: int, j: int|
        0 <= i < j < g.len() ==> (#[trigger] g[i]).shift != (#[trigger] g[j]).shift
}

/// The number of members of the first `n` groups.
pub open spec fn member_count(g: Seq<GroupView>, n: nat) -> nat
    decreases n,
{
    if n == 0 {
        0
    } else {
        member_count(g, (n - 1) as nat) + g[n - 1].members.len()
    }
}

proof fn lemma_member_count_same(a: Seq<GroupView>, b: Seq<GroupView>, n: nat)
    requires
        n <= a.len(),
        n <= b.len(),
        forall|i: int| 0 <= i < n ==> a[i] == b[i],
    ensures
        member_count(a, n) == member_count(b, n),
    decreases n,
{
    if n > 0 {
        lemma_member_count_same(a, b, (n - 1) as nat);
    }
}

proof fn lemma_member_count_grown(a: Seq<GroupView>, b: Seq<GroupView>, k: int, n: nat)
    requires
        0 <= k < n <= a.len(),
        b.len() == a.len(),
        forall|i: int| 0 <= i < n && i != k ==> a[i] == b[i],
        b[k].members.len() == a[k].members.len() + 1,
    ensures
        member_count(b, n) == member_count(a, n) + 1,
    decreases n,
{
    if k < n - 1 {
        lemma_member_count_grown(a, b, k, (n - 1) as nat);
    } else {
        lemma_member_count_same(a, b, (n - 1) as nat);
    }
}

proof fn lemma_added(g: Seq<GroupView>, m: Match, k: nat)
    requires
        well_grouped(g),
        k <= g.len(),
        forall|i: int| 0 <= i < k ==> (#[trigger] g[i]).shift != snap(shift_of(m)),
    ensures
        well_grouped(added(g, m, k)),
        member_count(added(g, m, k), added(g, m, k).len()) == member_count(g, g.len()) + 1,
        exists|i: int|
            0 <= i < added(g, m, k).len() && (#[trigger] added(g, m, k)[i]).members.contains(m),
        forall|i: int, x: Match|
            0 <= i < g.len() && (#[trigger] g[i].members.contains(x)) ==> added(
                g,
                m,
                k,
            )[i].members.contains(x),
        added(g, m, k).len() >= g.len(),
    decreases g.len() - k,
{
    let r = added(g, m, k);
    if k >= g.len() {
        lemma_member_count_same(g, r, g.len());
        assert(r[g.len() as int].members[0] == m);
        assert(r[g.len() as int].members.contains(m));
        assert forall|i: int, l: int| 0 <= i < r.len() && 0 <= l < r[i].members.len() implies snap(
            shift_of(#[trigger] r[i].members[l]),
        ) == r[i].shift by {
            if i < g.len() {
                assert(r[i] == g[i]);
                assert(g[i].members[l] == r[i].members[l]);
            }
        }
    } else if g[k as int].shift == snap(shift_of(m)) {
        lemma_member_count_grown(g, r, k as int, g.len());
        let before = g[k as int].members;
        assert(r[k as int].members[before.len() as int] == m);
        assert(r[k as int].members.contains(m));
        assert forall|i: int, x: Match| 0 <= i < g.len() && (#[trigger] g[i].members.contains(
            x,
        )) implies r[i].members.contains(x) by {
            if i == k {
                let l = before.index_of(x);
                assert(r[i].members[l] == x);
            }
        }
        assert forall|i: int, l: int| 0 <= i < r.len() && 0 <= l < r[i].members.len() implies snap(
            shift_of(#[trigger] r[i].members[l]),
        ) == r[i].shift by {
            if i != k {
                assert(g[i].members[l] == r[i].members[l]);
            } else if l < before.len() {
                assert(g[i].members[l] == r[i].members[l]);
            }
        }
    } else {
        lemma_added(g, m, k + 1);
    }
}

/// Matches are grouped by the cells of their displacements: every match is in a group, each
/// group holds matches of one cell, no two groups have the same, and no match is counted
/// twice.
pub proof fn law_grouping(m: Seq<Match>, n: nat, i: int)
    requires
        0 <= i < n <= m.len(),
    ensures
        well_grouped(grouped(m, n)),
        member_count(grouped(m, n), grouped(m, n).len()) == n,
        exists|j: int|
            0 <= j < grouped(m, n).len() && (#[trigger] grouped(m, n)[j]).members.contains(m[i])
                && grouped(m, n)[j].shift == snap(shift_of(m[i])),
    decreases n,
{
    let l = (n - 1) as nat;
    let before = grouped(m, l);
    let after = grouped(m, n);
    if l > 0 {
        law_grouping(m, l, if i < l {
            i
        } else {
            0
        });
    }
    lemma_added(before, m[n - 1], 0);
    if i < l {
        let j = choose|j: int|
            0 <= j < before.len() && (#[trigger] before[j]).members.contains(m[i])
                && before[j].shift == snap(shift_of(m[i]));
        assert(after[j].members.contains(m[i]));
        let p = after[j].members.index_of(m[i]);
        assert(after[j].members[p] == m[i]);
    } else {
        let j = choose|j: int| 0 <= j < after.len() && (#[trigger] after[j]).members.contains(m[i]);
        let p = after[j].members.index_of(m[i]);
        assert(after[j].members[p] == m[i]);
    }
}

/// At most three clusters come out, larger ones first, and none within two cells of another
/// in both directions. A group is left out only for one before it that is near.
pub proof fn law_clusters_by_size(g: Seq<GroupView>, i: int, j: int)
    requires
        g.len() <= usize::MAX,
        forall|k: int| 0 <= k < g.len() ==> (#[trigger] g[k]).members.len() <= usize::MAX,
        0 <= i <= j < g.len(),
    ensures
        sorted_groups(g).len() == g.len(),
        sorted_groups(g)[i].members.len() >= sorted_groups(g)[j].members.len(),
        g.contains(sorted_groups(g)[i]),
        sorted_groups(g).contains(g[i]),
{
    let keys = group_keys(g);
    law_order_exists(keys);
    let o = order_of(keys);
    assert(g[o[i] as int].members.len() <= usize::MAX && g[o[j] as int].members.len() <= usize::MAX);
    if i < j {
        assert(before(keys, o[i] as int, o[j] as int));
    }
    assert(o.contains(i as usize));
    let k = o.index_of(i as usize);
    assert(sorted_groups(g)[k] == g[i]);
    assert(sorted_groups(g)[i] == g[o[i] as int]);
}

/// Every group is kept, or one that is kept lies no more than 32 pixels off in both
/// directions.
pub proof fn law_left_out_is_near(g: Seq<GroupView>, n: nat, i: int)
    requires
        0 <= i < n <= g.len(),
    ensures
        exists|k: int|
            0 <= k < undominated(g, n).len() && ((#[trigger] undominated(g, n)[k]) == g[i] || (-32
                <= undominated(g, n)[k].shift.dx - g[i].shift.dx <= 32 && -32 <= undominated(
                g,
                n,
            )[k].shift.dy - g[i].shift.dy <= 32)),
        undominated(g, n).len() > 0 && undominated(g, n)[0] == g[0],
    decreases n,
{
    let l = (n - 1) as nat;
    let kept = undominated(g, l);
    let all = undominated(g, n);
    if l > 0 {
        law_left_out_is_near(g, l, if i < l {
            i
        } else {
            0
        });
    }
    if i < l {
        let k = choose|k: int|
            0 <= k < kept.len() && ((#[trigger] kept[k]) == g[i] || (-32 <= kept[k].shift.dx
                - g[i].shift.dx <= 32 && -32 <= kept[k].shift.dy - g[i].shift.dy <= 32));
        assert(all[k] == kept[k]);
    } else if exists|k: int|
        0 <= k < kept.len() && near_shift((#[trigger] kept[k]).shift, g[n - 1].shift) {
        let k = choose|k: int|
            0 <= k < kept.len() && near_shift((#[trigger] kept[k]).shift, g[n - 1].shift);
        assert(all[k] == kept[k]);
    } else {
        assert(all[kept.len() as int] == g[i]);
    }
}

/// Of the groups that are kept the first three are taken.
pub proof fn law_three_clusters(m: Seq<Match>)
    ensures
        ({
            let g = sorted_groups(grouped(m, m.len()));
            let kept = undominated(g, g.len());
            let c = displacement_clusters(m);
            &&& c.len() == if kept.len() < 3 {
                kept.len()
            } else {
                3
            }
            &&& forall|i: int| 0 <= i < c.len() ==> #[trigger] c[i] == kept[i]
        }),
{
}

/// The confidence of a clone grows with its pairs no further than 0.95, and the finding names
/// the number of pairs and the displacement, across first.
pub proof fn law_clone_text(g: GroupView)
    ensures
        ({
            let d = clone_finding(g).description;
            d == "Copy-move forgery detected: "@ + decimal_text(g.members.len())
                + " spatially consistent matching pairs with displacement ("@ + (if g.shift.dx >= 0 {
                decimal_text(g.shift.dx as nat)
            } else {
                "-"@ + decimal_text((-g.shift.dx) as nat)
            }) + ", "@ + (if g.shift.dy >= 0 {
                decimal_text(g.shift.dy as nat)
            } else {
                "-"@ + decimal_text((-g.shift.dy) as nat)
            })
                + ") - region has been cloned (rotation-invariant Zernike moment matching with RANSAC verification)"@
        }),
        clone_finding(g).confidence < 0x3FF0_0000_0000_0000,
{
    law_confidence_below_one(
        U65 as nat,
        capped(share_of(imin(g.members.len() as int, 80) as nat, 80), U30 as nat),
        U95 as nat,
    );
}

/// A whole number shows a minus below zero only.
pub proof fn law_integer_text(n: nat)
    ensures
        integer_text(n as int) == decimal_text(n),
        n > 0 ==> integer_text(-(n as int)) == "-"@ + decimal_text(n),
{
}

/// From eighty matches on the confidence grows no more.
pub proof fn law_confidence_of_many(n: nat)
    requires
        n >= 80,
    ensures
        clone_confidence(n) == clone_confidence(80),
{
}

} // verus!
