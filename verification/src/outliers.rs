//! Outliers among the blocks of an image.
//!
//! An analyzer gives every block a score: how far, in robust deviations, some
//! property of the block lies from the median. Blocks that score above a threshold
//! are outliers, and enough of them make a finding.

use crate::components::lemma_cell;
use crate::components::lemma_cell_coords;
use crate::finding::Region;
use crate::finding::RegionView;
use crate::finding::Severity;
use crate::grid::abs;
use crate::grid::bbox;
use crate::grid::blocks_max_x;
use crate::grid::blocks_max_y;
use crate::grid::blocks_min_x;
use crate::grid::blocks_min_y;
use crate::grid::cell;
use crate::grid::imin;
use crate::grid::law_extent_holds_blocks;
use crate::grid::law_extent_is_tight;
use crate::grid::less;
use crate::robust::Scored;
use crate::robust::above;
use crate::robust::last_top;
use crate::robust::outliers;
use crate::robust::peak;
use crate::robust::strongest;
use crate::robust::top_score;
use crate::select::lemma_which;
use crate::select::which;
use vstd::prelude::*;

verus! {

/// Above this score an outlier is grave, as a key: 5.0.
pub const GRAVE: i64 = 0x4014_0000_0000_0000;

/// The key of 3.0.
pub const THREE: i64 = 0x4008_0000_0000_0000;

/// The key of 3.5.
pub const THREE_AND_A_HALF: i64 = 0x400C_0000_0000_0000;

/// The least spread of values that outliers are looked for among, as a key: 1e-6.
pub const LEAST_SPREAD: i64 = 0x3EB0_C6F7_A0B5_ED8D;

/// The severity of outliers with a given highest score.
pub open spec fn severity_at(peak: i64) -> Severity {
    if peak > GRAVE {
        Severity::High
    } else {
        Severity::Medium
    }
}

/// The severity of outliers with a given highest score.
pub fn outlier_severity(peak: i64) -> (r: Severity)
    ensures
        r == severity_at(peak),
{
    if peak > GRAVE {
        Severity::High
    } else {
        Severity::Medium
    }
}

/// Enough values, and a spread that is not negligible.
pub open spec fn has_signal(count: int, spread: i64, least_count: int, least_spread: i64) -> bool {
    count >= least_count && spread >= least_spread
}

/// Tells whether there are enough values, and whether they spread enough.
pub fn carries_signal(count: usize, spread: i64, least_count: usize, least_spread: i64) -> (r: bool)
    ensures
        r == has_signal(count as int, spread, least_count as int, least_spread),
{
    count >= least_count && spread >= least_spread
}

/// The outliers of an image.
pub struct Outliers {
    /// The blocks that score above the threshold.
    pub items: Vec<Scored>,
    /// The highest score.
    pub peak: i64,
    /// The block with the highest score, the last of equals.
    pub strongest: usize,
}

/// `o` holds the items of `s` that score above a threshold.
pub open spec fn holds_outliers(o: Outliers, s: Seq<Scored>, threshold: i64) -> bool {
    let found = outliers(s, threshold, s.len());
    &&& o.items@ == found
    &&& o.peak == top_score(found, found.len())
    &&& o.strongest == found[last_top(found, found.len())].index
}

/// `r` holds the items of `s` that score above a threshold where there are at least `least`
/// of them, and nothing where there are fewer.
pub open spec fn collects(r: Option<Outliers>, s: Seq<Scored>, threshold: i64, least: int) -> bool {
    match r {
        Some(o) => outliers(s, threshold, s.len()).len() >= least && holds_outliers(
            o,
            s,
            threshold,
        ) && (exists|k: int| 0 <= k < s.len() && #[trigger] s[k].index == o.strongest) && (forall|
            i: int,
        |
            0 <= i < o.items.len() ==> s.contains(#[trigger] o.items@[i])),
        None => outliers(s, threshold, s.len()).len() < least,
    }
}

/// Collects the items that score above a threshold, if there are at least `least`.
pub fn find_outliers(s: &Vec<Scored>, threshold: i64, least: usize) -> (r: Option<Outliers>)
    requires
        least > 0,
    ensures
        collects(r, s@, threshold, least as int),
{
    let items = above(s, threshold);
    if items.len() < least {
        return None;
    }
    let top: i64 = peak(&items);
    let best = strongest(&items);
    proof {
        let j = choose|j: int| 0 <= j < items.len() && items@[j] == best;
        assert(s@.contains(items@[j]));
        let k = choose|k: int| 0 <= k < s.len() && s@[k] == best;
        assert(s@[k].index == best.index);
    }
    Some(Outliers { items, peak: top, strongest: best.index })
}

/// The region of a block.
pub open spec fn block_box(b: int, blocks_x: int, bs: int) -> RegionView {
    RegionView::BoundingBox {
        x: ((b % blocks_x) * bs) as u32,
        y: ((b / blocks_x) * bs) as u32,
        width: bs as u32,
        height: bs as u32,
    }
}

/// The region of a block.
pub fn block_region(b: usize, blocks_x: usize, blocks_y: usize, bs: usize) -> (r: Region)
    requires
        b < blocks_x * blocks_y,
        blocks_x * bs <= u32::MAX,
        blocks_y * bs <= u32::MAX,
    ensures
        r@ == block_box(b as int, blocks_x as int, bs as int),
{
    proof {
        lemma_cell_coords(blocks_x as int, blocks_y as int, b as int);
        let x = b as int % blocks_x as int;
        let y = b as int / blocks_x as int;
        assert(0 <= x * bs <= blocks_x * bs) by (nonlinear_arith)
            requires
                0 <= x < blocks_x,
                0 <= bs,
        ;
        assert(0 <= y * bs <= blocks_y * bs) by (nonlinear_arith)
            requires
                0 <= y < blocks_y,
                0 <= bs,
        ;
        assert(bs <= blocks_x * bs) by (nonlinear_arith)
            requires
                1 <= blocks_x,
                0 <= bs,
        ;
    }
    Region::BoundingBox {
        x: ((b % blocks_x) * bs) as u32,
        y: ((b / blocks_x) * bs) as u32,
        width: bs as u32,
        height: bs as u32,
    }
}

/// The region that covers the blocks of a list.
pub open spec fn cover(items: Seq<usize>, blocks_x: int, bs: int) -> RegionView {
    let min_x = blocks_min_x(items, blocks_x, bs, items.len(), usize::MAX as int);
    let min_y = blocks_min_y(items, blocks_x, bs, items.len(), usize::MAX as int);
    RegionView::BoundingBox {
        x: min_x as u32,
        y: min_y as u32,
        width: (blocks_max_x(items, blocks_x, bs, items.len()) - min_x) as u32,
        height: (blocks_max_y(items, blocks_x, bs, items.len()) - min_y) as u32,
    }
}

/// The region that covers the blocks of a list.
pub fn covering_region(blocks: &Vec<usize>, blocks_x: usize, blocks_y: usize, bs: usize) -> (r: Region)
    requires
        blocks.len() > 0,
        forall|i: int| 0 <= i < blocks.len() ==> #[trigger] blocks@[i] < blocks_x * blocks_y,
        blocks_x * bs <= u32::MAX,
        blocks_y * bs <= u32::MAX,
    ensures
        r@ == cover(blocks@, blocks_x as int, bs as int),
{
    let e = bbox(blocks, blocks_x, blocks_y, bs);
    Region::BoundingBox {
        x: e.min_x as u32,
        y: e.min_y as u32,
        width: (e.max_x - e.min_x) as u32,
        height: (e.max_y - e.min_y) as u32,
    }
}

/// Two blocks are near each other: distinct, and at most `r` blocks apart in either
/// direction.
pub open spec fn is_near(blocks_x: int, b: int, r: int, c: int) -> bool {
    c != b && abs(c % blocks_x - b % blocks_x) <= r && abs(c / blocks_x - b / blocks_x) <= r
}

/// The blocks among the first `n` that are near a block.
pub open spec fn near(blocks_x: int, b: int, r: int, n: nat) -> Seq<usize>
    decreases n,
{
    if n == 0 {
        Seq::empty()
    } else if is_near(blocks_x, b, r, n - 1) {
        near(blocks_x, b, r, (n - 1) as nat).push((n - 1) as usize)
    } else {
        near(blocks_x, b, r, (n - 1) as nat)
    }
}

proof fn lemma_skip(bx: int, b: int, r: int, from: nat, to: nat)
    requires
        from <= to,
        forall|c: int| from <= c < to ==> !#[trigger] is_near(bx, b, r, c),
    ensures
        near(bx, b, r, from) == near(bx, b, r, to),
    decreases to - from,
{
    if from < to {
        lemma_skip(bx, b, r, from, (to - 1) as nat);
        assert(!is_near(bx, b, r, to - 1));
    }
}

proof fn lemma_skip_in_row(bx: int, by: int, b: int, r: int, y: int, from: int, to: int)
    requires
        0 <= from <= to <= bx,
        0 <= y < by,
        from == to || to <= b % bx - r || from > b % bx + r,
    ensures
        near(bx, b, r, (y * bx + from) as nat) == near(bx, b, r, (y * bx + to) as nat),
{
    assert(0 <= y * bx) by (nonlinear_arith)
        requires
            0 <= y,
            0 <= bx,
    ;
    assert forall|c: int| y * bx + from <= c < y * bx + to implies !#[trigger] is_near(
        bx,
        b,
        r,
        c,
    ) by {
        lemma_cell(bx, by, c - y * bx, y);
    }
    lemma_skip(bx, b, r, (y * bx + from) as nat, (y * bx + to) as nat);
}

proof fn lemma_skip_rows(bx: int, by: int, b: int, r: int, from: int, to: int)
    requires
        0 <= from <= to <= by,
        0 < bx,
        from == to || to <= b / bx - r || from > b / bx + r,
    ensures
        near(bx, b, r, (from * bx) as nat) == near(bx, b, r, (to * bx) as nat),
{
    assert(0 <= from * bx <= to * bx <= bx * by) by (nonlinear_arith)
        requires
            0 <= from <= to <= by,
            0 < bx,
    ;
    assert forall|c: int| from * bx <= c < to * bx implies !#[trigger] is_near(bx, b, r, c) by {
        lemma_cell_coords(bx, by, c);
        let y = c / bx;
        assert(from <= y < to) by (nonlinear_arith)
            requires
                from * bx <= c < to * bx,
                c == y * bx + c % bx,
                0 <= c % bx < bx,
                0 < bx,
        ;
    }
    lemma_skip(bx, b, r, (from * bx) as nat, (to * bx) as nat);
}

/// The blocks near a block, row by row.
pub fn near_blocks(blocks_x: usize, blocks_y: usize, b: usize, radius: usize) -> (r: Vec<usize>)
    requires
        b < blocks_x * blocks_y,
        blocks_x * blocks_y <= usize::MAX,
        radius < usize::MAX,
    ensures
        r@ == near(blocks_x as int, b as int, radius as int, (blocks_x * blocks_y) as nat),
        forall|i: int| 0 <= i < r.len() ==> #[trigger] r@[i] < blocks_x * blocks_y,
{
    proof {
        lemma_cell_coords(blocks_x as int, blocks_y as int, b as int);
    }
    let x: usize = b % blocks_x;
    let y: usize = b / blocks_x;
    let x0: usize = x.saturating_sub(radius);
    let y0: usize = y.saturating_sub(radius);
    let x1: usize = if blocks_x - x > radius {
        x + radius + 1
    } else {
        blocks_x
    };
    let y1: usize = if blocks_y - y > radius {
        y + radius + 1
    } else {
        blocks_y
    };
    let ghost bx = blocks_x as int;
    let ghost rr = radius as int;
    let mut r: Vec<usize> = Vec::new();
    let mut cy: usize = y0;
    proof {
        lemma_skip_rows(bx, blocks_y as int, b as int, rr, 0, y0 as int);
    }
    while cy < y1
        invariant
            b < blocks_x * blocks_y,
            blocks_x * blocks_y <= usize::MAX,
            bx == blocks_x,
            rr == radius,
            x == b % blocks_x,
            y == b / blocks_x,
            x < blocks_x,
            y < blocks_y,
            x0 == less(x as int, rr),
            x1 == imin(x + rr + 1, bx),
            y1 == imin(y + rr + 1, blocks_y as int),
            y0 == less(y as int, rr),
            y0 <= cy <= y1,
            r@ == near(bx, b as int, rr, (cy * bx) as nat),
            forall|i: int| 0 <= i < r.len() ==> #[trigger] r@[i] < blocks_x * blocks_y,
        decreases y1 - cy,
    {
        let mut cx: usize = x0;
        proof {
            lemma_skip_in_row(bx, blocks_y as int, b as int, rr, cy as int, 0, x0 as int);
        }
        while cx < x1
            invariant
                b < blocks_x * blocks_y,
                blocks_x * blocks_y <= usize::MAX,
                bx == blocks_x,
                rr == radius,
                x == b % blocks_x,
                y == b / blocks_x,
                x < blocks_x,
                y < blocks_y,
                x0 == less(x as int, rr),
                x1 == imin(x + rr + 1, bx),
                y1 == imin(y + rr + 1, blocks_y as int),
                y0 == less(y as int, rr),
                y0 <= cy < y1,
                x0 <= cx <= x1,
                r@ == near(bx, b as int, rr, (cy * bx + cx) as nat),
                forall|i: int| 0 <= i < r.len() ==> #[trigger] r@[i] < blocks_x * blocks_y,
            decreases x1 - cx,
        {
            let i: usize = cell(blocks_x, blocks_y, cx, cy);
            if i != b {
                r.push(i);
            }
            cx += 1;
        }
        proof {
            assert((cy + 1) * bx == cy * bx + bx) by (nonlinear_arith);
            lemma_skip_in_row(bx, blocks_y as int, b as int, rr, cy as int, x1 as int, bx);
        }
        cy += 1;
    }
    proof {
        lemma_skip_rows(bx, blocks_y as int, b as int, rr, y1 as int, blocks_y as int);
        assert(blocks_y * bx == blocks_x * blocks_y) by (nonlinear_arith)
            requires
                bx == blocks_x,
        ;
    }
    r
}

/// Every pair of blocks is near each other or not, whichever of the two is asked.
pub proof fn law_near_symmetric(blocks_x: int, b: int, r: int, c: int)
    ensures
        is_near(blocks_x, b, r, c) == is_near(blocks_x, c, r, b),
{
}

/// Which values lie above a floor.
pub open spec fn marks(values: Seq<i64>, floor: i64) -> Seq<bool> {
    Seq::new(values.len(), |i: int| values[i] > floor)
}

/// Marks the blocks whose value, given as a key, lies above a floor.
pub fn mark_active(values: &Vec<i64>, floor: i64) -> (r: Vec<bool>)
    ensures
        r@ == marks(values@, floor),
{
    let mut r: Vec<bool> = Vec::new();
    let mut i: usize = 0;
    while i < values.len()
        invariant
            i <= values.len(),
            r@ =~= marks(values@, floor).take(i as int),
        decreases values.len() - i,
    {
        r.push(values[i] > floor);
        i += 1;
    }
    assert(r@ =~= marks(values@, floor));
    r
}

/// A block and the neighbours that it is compared with.
pub struct Compared {
    pub block: usize,
    pub near: Vec<usize>,
}

impl View for Compared {
    type V = (usize, Seq<usize>);

    open spec fn view(&self) -> (usize, Seq<usize>) {
        (self.block, self.near@)
    }
}

/// Those among the first `n` blocks of a list that are active.
pub open spec fn active_of(blocks: Seq<usize>, active: Seq<bool>, n: nat) -> Seq<usize>
    decreases n,
{
    if n == 0 {
        Seq::empty()
    } else if active[blocks[n - 1] as int] {
        active_of(blocks, active, (n - 1) as nat).push(blocks[n - 1])
    } else {
        active_of(blocks, active, (n - 1) as nat)
    }
}

/// The active blocks near a block.
pub open spec fn active_near(active: Seq<bool>, blocks_x: int, b: int, radius: int) -> Seq<usize> {
    let all = near(blocks_x, b, radius, active.len());
    active_of(all, active, all.len())
}

/// The active blocks among the first `n` that have enough active neighbours to be compared
/// with, and those neighbours.
pub open spec fn comparisons(
    active: Seq<bool>,
    blocks_x: int,
    radius: int,
    least: int,
    n: nat,
) -> Seq<(usize, Seq<usize>)>
    decreases n,
{
    if n == 0 {
        Seq::empty()
    } else {
        let before = comparisons(active, blocks_x, radius, least, (n - 1) as nat);
        let around = active_near(active, blocks_x, n - 1, radius);
        if active[n - 1] && around.len() >= least {
            before.push(((n - 1) as usize, around))
        } else {
            before
        }
    }
}

/// The views of comparisons.
pub open spec fn pairings(c: Seq<Compared>) -> Seq<(usize, Seq<usize>)> {
    Seq::new(c.len(), |i: int| c[i]@)
}

fn keep_active(blocks: &Vec<usize>, active: &Vec<bool>) -> (r: Vec<usize>)
    requires
        forall|i: int| 0 <= i < blocks.len() ==> #[trigger] blocks@[i] < active.len(),
    ensures
        r@ == active_of(blocks@, active@, blocks@.len()),
{
    let mut r: Vec<usize> = Vec::new();
    let mut i: usize = 0;
    while i < blocks.len()
        invariant
            i <= blocks.len(),
            forall|k: int| 0 <= k < blocks.len() ==> #[trigger] blocks@[k] < active.len(),
            r@ == active_of(blocks@, active@, i as nat),
        decreases blocks.len() - i,
    {
        if active[blocks[i]] {
            r.push(blocks[i]);
        }
        i += 1;
    }
    r
}

/// The active blocks that can be compared with their neighbours.
pub fn compare_blocks(
    active: &Vec<bool>,
    blocks_x: usize,
    blocks_y: usize,
    radius: usize,
    least: usize,
) -> (r: Vec<Compared>)
    requires
        active.len() == blocks_x * blocks_y,
        radius < usize::MAX,
    ensures
        pairings(r@) == comparisons(
            active@,
            blocks_x as int,
            radius as int,
            least as int,
            active@.len(),
        ),
{
    let mut r: Vec<Compared> = Vec::new();
    let mut b: usize = 0;
    assert(pairings(r@) =~= comparisons(active@, blocks_x as int, radius as int, least as int, 0));
    while b < active.len()
        invariant
            b <= active.len(),
            active.len() == blocks_x * blocks_y,
            radius < usize::MAX,
            pairings(r@) == comparisons(
                active@,
                blocks_x as int,
                radius as int,
                least as int,
                b as nat,
            ),
        decreases active.len() - b,
    {
        if active[b] {
            let all = near_blocks(blocks_x, blocks_y, b, radius);
            let around = keep_active(&all, active);
            if around.len() >= least {
                let ghost before = r@;
                r.push(Compared { block: b, near: around });
                assert(pairings(r@) =~= pairings(before).push((b, around@)));
            }
        }
        b += 1;
    }
    r
}

proof fn lemma_near_holds(blocks_x: int, b: int, r: int, n: nat, c: int)
    ensures
        near(blocks_x, b, r, n).contains(c as usize) <== 0 <= c < n && c <= usize::MAX && is_near(
            blocks_x,
            b,
            r,
            c,
        ),
        forall|i: int|
            0 <= i < near(blocks_x, b, r, n).len() && n <= usize::MAX ==> 0 <= (#[trigger] near(
                blocks_x,
                b,
                r,
                n,
            )[i]) < n && is_near(blocks_x, b, r, near(blocks_x, b, r, n)[i] as int),
    decreases n,
{
    if n > 0 {
        lemma_near_holds(blocks_x, b, r, (n - 1) as nat, c);
        let before = near(blocks_x, b, r, (n - 1) as nat);
        let all = near(blocks_x, b, r, n);
        if is_near(blocks_x, b, r, n - 1) {
            assert(all == before.push((n - 1) as usize));
            assert(all[before.len() as int] == (n - 1) as usize);
            if 0 <= c < n - 1 && c <= usize::MAX && is_near(blocks_x, b, r, c) {
                let i = choose|i: int| 0 <= i < before.len() && before[i] == c as usize;
                assert(all[i] == c as usize);
            }
        }
    }
}

proof fn lemma_active_of(blocks: Seq<usize>, active: Seq<bool>, n: nat, c: usize)
    requires
        n <= blocks.len(),
    ensures
        active_of(blocks, active, n).contains(c) <==> active[c as int] && blocks.take(
            n as int,
        ).contains(c),
    decreases n,
{
    let part = blocks.take(n as int);
    if n > 0 {
        lemma_active_of(blocks, active, (n - 1) as nat, c);
        let shorter = blocks.take(n - 1);
        let before = active_of(blocks, active, (n - 1) as nat);
        assert(part =~= shorter.push(blocks[n - 1]));
        assert(part.contains(c) <==> shorter.contains(c) || c == blocks[n - 1]) by {
            if shorter.contains(c) {
                let i = choose|i: int| 0 <= i < shorter.len() && shorter[i] == c;
                assert(part[i] == c);
            }
            if c == blocks[n - 1] {
                assert(part[n - 1] == c);
            }
        }
        if active[blocks[n - 1] as int] {
            let after = before.push(blocks[n - 1]);
            assert(after.contains(c) <==> before.contains(c) || c == blocks[n - 1]) by {
                if before.contains(c) {
                    let i = choose|i: int| 0 <= i < before.len() && before[i] == c;
                    assert(after[i] == c);
                }
                if c == blocks[n - 1] {
                    assert(after[before.len() as int] == c);
                }
            }
        }
    }
}

/// Of two active blocks each is compared with the other, or neither is.
pub proof fn law_comparison_mutual(active: Seq<bool>, blocks_x: int, radius: int, b: usize, c: usize)
    requires
        b < active.len() <= usize::MAX,
        c < active.len(),
        active[b as int],
        active[c as int],
    ensures
        active_near(active, blocks_x, b as int, radius).contains(c) == active_near(
            active,
            blocks_x,
            c as int,
            radius,
        ).contains(b),
{
    let n = active.len();
    let around_b = near(blocks_x, b as int, radius, n);
    let around_c = near(blocks_x, c as int, radius, n);
    lemma_active_of(around_b, active, around_b.len(), c);
    lemma_active_of(around_c, active, around_c.len(), b);
    assert(around_b.take(around_b.len() as int) =~= around_b);
    assert(around_c.take(around_c.len() as int) =~= around_c);
    lemma_near_holds(blocks_x, b as int, radius, n, c as int);
    lemma_near_holds(blocks_x, c as int, radius, n, b as int);
    law_near_symmetric(blocks_x, b as int, radius, c as int);
}

/// Outliers above a score of five are of high severity, the others of medium severity.
pub proof fn law_grave_above_five(peak: i64)
    ensures
        severity_at(peak) == if peak >= 0x4014_0000_0000_0001 {
            Severity::High
        } else {
            Severity::Medium
        },
{
}

/// The thresholds of scores are the numbers three and three and a half.
pub proof fn law_score_thresholds()
    ensures
        THREE == 0x4008_0000_0000_0000,
        THREE_AND_A_HALF == 0x400C_0000_0000_0000,
        LEAST_SPREAD == 0x3EB0_C6F7_A0B5_ED8D,
{
}

/// The blocks near a block are the others that lie no more columns and no more rows away
/// than the radius.
pub proof fn law_near_blocks(blocks_x: int, b: int, r: int, n: nat)
    ensures
        near(blocks_x, b, r, n) == which(n, |i: int| i != b && -r <= i % blocks_x - b % blocks_x <= r && -r <= i / blocks_x - b / blocks_x <= r).map_values(|i: int| i as usize),
    decreases n,
{
    let p = |i: int| i != b && -r <= i % blocks_x - b % blocks_x <= r && -r <= i / blocks_x - b / blocks_x <= r;
    let f = |i: int| i as usize;
    lemma_which(0, p);
    if n > 0 {
        let m = (n - 1) as nat;
        law_near_blocks(blocks_x, b, r, m);
        lemma_which(m, p);
        assert(which(n, p).map_values(f) =~= if p(m as int) {
            which(m, p).map_values(f).push(f(m as int))
        } else {
            which(m, p).map_values(f)
        });
    } else {
        assert(which(0, p).map_values(f) =~= Seq::<usize>::empty());
    }
}

/// The blocks that are compared are the active ones with enough active neighbours.
pub proof fn law_compared_blocks(active: Seq<bool>, blocks_x: int, radius: int, least: int, n: nat)
    requires
        n <= active.len(),
    ensures
        comparisons(active, blocks_x, radius, least, n) == which(n, |i: int| active[i] && !(active_near(active, blocks_x, i, radius).len() < least)).map_values(|i: int| (i as usize, active_near(active, blocks_x, i, radius))),
    decreases n,
{
    let p = |i: int| active[i] && !(active_near(active, blocks_x, i, radius).len() < least);
    let f = |i: int| (i as usize, active_near(active, blocks_x, i, radius));
    lemma_which(0, p);
    if n > 0 {
        let m = (n - 1) as nat;
        law_compared_blocks(active, blocks_x, radius, least, m);
        lemma_which(m, p);
        assert(which(n, p).map_values(f) =~= if p(m as int) {
            which(m, p).map_values(f).push(f(m as int))
        } else {
            which(m, p).map_values(f)
        });
    } else {
        assert(which(0, p).map_values(f) =~= Seq::<(usize, Seq<usize>)>::empty());
    }
}

/// Of neighbours the active ones are kept.
pub proof fn law_active_kept(blocks: Seq<usize>, active: Seq<bool>, n: nat)
    requires
        n <= blocks.len(),
    ensures
        active_of(blocks, active, n) == which(n, |i: int| active[blocks[i] as int]).map_values(|i: int| blocks[i]),
    decreases n,
{
    let p = |i: int| active[blocks[i] as int];
    let f = |i: int| blocks[i];
    lemma_which(0, p);
    if n > 0 {
        let m = (n - 1) as nat;
        law_active_kept(blocks, active, m);
        lemma_which(m, p);
        assert(which(n, p).map_values(f) =~= if p(m as int) {
            which(m, p).map_values(f).push(f(m as int))
        } else {
            which(m, p).map_values(f)
        });
    } else {
        assert(which(0, p).map_values(f) =~= Seq::<usize>::empty());
    }
}

/// The region of a block is its square: of its column and its row, and of its side.
pub proof fn law_block_square(c: int, r: int, blocks_x: int, bs: int)
    requires
        0 <= c < blocks_x,
        0 <= r,
        0 <= bs,
        (c + 1) * bs <= u32::MAX,
        (r + 1) * bs <= u32::MAX,
    ensures
        block_box(r * blocks_x + c, blocks_x, bs) matches RegionView::BoundingBox {
            x,
            y,
            width,
            height,
        } && x == c * bs && y == r * bs && x + width == (c + 1) * bs && y + height == (r + 1) * bs,
{
    vstd::arithmetic::div_mod::lemma_fundamental_div_mod_converse(
        r * blocks_x + c,
        blocks_x,
        r,
        c,
    );
    assert((c + 1) * bs == c * bs + bs && (r + 1) * bs == r * bs + bs && c * bs >= 0 && r * bs >= 0)
        by (nonlinear_arith)
        requires
            0 <= c,
            0 <= r,
            0 <= bs,
    ;
}

/// The region that covers blocks holds every one of them.
pub proof fn law_cover_holds_blocks(items: Seq<usize>, blocks_x: int, bs: int, k: int)
    requires
        0 <= k < items.len(),
        blocks_x > 0,
        bs >= 0,
        forall|i: int|
            0 <= i < items.len() ==> 0 <= (#[trigger] items[i] as int % blocks_x + 1) * bs
                <= u32::MAX && (items[i] as int / blocks_x + 1) * bs <= u32::MAX,
    ensures
        cover(items, blocks_x, bs) matches RegionView::BoundingBox { x, y, width, height } && x <= (
        items[k] as int % blocks_x) * bs && (items[k] as int % blocks_x + 1) * bs <= x + width && y
            <= (items[k] as int / blocks_x) * bs && (items[k] as int / blocks_x + 1) * bs <= y
            + height,
{
    let n = items.len();
    let top = usize::MAX as int;
    assert forall|i: int| 0 <= i < n implies (#[trigger] items[i] as int % blocks_x) * bs <= top && (
    items[i] as int / blocks_x) * bs <= top && (items[i] as int % blocks_x) * bs >= 0 && (
    items[i] as int / blocks_x) * bs >= 0 by {
        let b = items[i] as int;
        assert((b % blocks_x + 1) * bs == (b % blocks_x) * bs + bs && (b / blocks_x + 1) * bs == (b
            / blocks_x) * bs + bs && (b % blocks_x) * bs >= 0 && (b / blocks_x) * bs >= 0)
            by (nonlinear_arith)
            requires
                blocks_x > 0,
                bs >= 0,
                b >= 0,
        ;
    }
    law_extent_holds_blocks(items, blocks_x, bs, n, top, k);
    law_extent_is_tight(items, blocks_x, bs, n, top);
    let p = choose|k: int|
        0 <= k < n && (#[trigger] items[k] as int % blocks_x) * bs == blocks_min_x(
            items,
            blocks_x,
            bs,
            n,
            top,
        );
    let q = choose|k: int|
        0 <= k < n && (#[trigger] items[k] as int % blocks_x + 1) * bs == blocks_max_x(
            items,
            blocks_x,
            bs,
            n,
        );
    let r = choose|k: int|
        0 <= k < n && (#[trigger] items[k] as int / blocks_x) * bs == blocks_min_y(
            items,
            blocks_x,
            bs,
            n,
            top,
        );
    let s = choose|k: int|
        0 <= k < n && (#[trigger] items[k] as int / blocks_x + 1) * bs == blocks_max_y(
            items,
            blocks_x,
            bs,
            n,
        );
    assert((items[p] as int % blocks_x) * bs >= 0 && (items[r] as int / blocks_x) * bs >= 0);
    assert((items[p] as int % blocks_x) * bs <= u32::MAX && (items[r] as int / blocks_x) * bs
        <= u32::MAX) by {
        let (c, d) = (items[p] as int % blocks_x, items[r] as int / blocks_x);
        assert((c + 1) * bs <= u32::MAX && (d + 1) * bs <= u32::MAX);
        assert(c * bs <= (c + 1) * bs && d * bs <= (d + 1) * bs) by (nonlinear_arith)
            requires
                bs >= 0,
        ;
    }
    assert((items[q] as int % blocks_x + 1) * bs <= u32::MAX && (items[s] as int / blocks_x + 1) * bs
        <= u32::MAX);
}

/// There is a signal from so many values on where they spread enough; a value is marked above the
/// floor.
pub proof fn law_signals(count: int, spread: i64, n: int, s: i64, v: Seq<i64>, floor: i64, i: int)
    requires
        0 <= i < v.len(),
    ensures
        !has_signal(count, spread, n, s) <==> count < n || spread < s,
        marks(v, floor).len() == v.len(),
        marks(v, floor)[i] <==> floor < v[i],
{
}

} // verus!
