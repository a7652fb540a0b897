//! Lighting-direction consistency.
//!
//! The gradient of the plane fitted to a block's intensities is the projected light
//! direction. Regions from differently lit scenes point differently. Direction and
//! deviation are computed in floating point by the caller.

use crate::finding::Finding;
use crate::finding::FindingView;
use crate::finding::Severity;
use crate::finding::plain_finding;
use crate::grid::active_count;
use crate::grid::count_active;
use crate::number::is_share_above;
use crate::number::share_above;
use crate::outliers::Compared;
use crate::outliers::GRAVE;
use crate::outliers::LEAST_SPREAD;
use crate::outliers::Outliers;
use crate::outliers::THREE;
use crate::outliers::block_box;
use crate::outliers::block_region;
use crate::outliers::carries_signal;
use crate::outliers::collects;
use crate::outliers::compare_blocks;
use crate::outliers::comparisons;
use crate::outliers::find_outliers;
use crate::outliers::has_signal;
use crate::outliers::mark_active;
use crate::outliers::marks;
use crate::outliers::pairings;
use crate::robust::Scored;
use crate::share::Factor;
use crate::share::MAX_COUNT;
use crate::share::U40;
use crate::share::U80;
use crate::share::graded;
use crate::share::graded_of;
use crate::share::percent;
use crate::share::percent_text;
use crate::text::append_decimal;
use crate::text::decimal;
use crate::text::decimal_text;
use vstd::prelude::*;
use vstd::string::*;

verus! {

/// The lighting-consistency analyzer.
pub struct LightingConsistencyAnalyzer;

/// The size of a block in pixels.
pub const LIGHTING_BLOCK: usize = 64;

/// Above this gradient a block has a light direction, as a key: 0.001.
pub const MIN_GRADIENT: i64 = 0x3F50_624D_D2F1_A9FC;

/// The finding on blocks with a deviating light direction.
pub open spec fn lighting_finding(
    count: int,
    compared: int,
    z: Seq<char>,
    peak: i64,
    strongest: int,
    blocks_x: int,
) -> FindingView {
    FindingView {
        region: Some(block_box(strongest, blocks_x, 64)),
        ..plain_finding(
            "lighting_consistency"@,
            "lighting_direction_inconsistency"@,
            decimal_text(count as nat) + " of "@ + decimal_text(compared as nat) + " blocks ("@
                + percent_text(count as nat, compared as nat)
                + "%) show lighting direction inconsistent with surroundings (z-score "@ + z
                + ") - possible composite with different illumination geometry"@,
            if peak > GRAVE || share_above(count, compared, 15, 100) {
                Severity::High
            } else {
                Severity::Medium
            },
            graded_of(U40, count as nat, compared as nat, Factor { num: 3, den: 2 }, U80),
        )
    }
}

impl LightingConsistencyAnalyzer {
    /// Whether an image is large enough to be analyzed.
    pub fn large_enough(&self, w: usize, h: usize) -> (r: bool)
        ensures
            r == (w >= 256 && h >= 256),
    {
        w >= 256 && h >= 256
    }

    /// Whether so many blocks, whose values have a spread with this key, are scored.
    pub fn carries_signal(&self, blocks: usize, spread: i64) -> (r: bool)
        ensures
            r == has_signal(blocks as int, spread, 9, LEAST_SPREAD),
    {
        carries_signal(blocks, spread, 9, LEAST_SPREAD)
    }

    /// The blocks that score above three, if there are at least three.
    pub fn stand_out(&self, s: &Vec<Scored>) -> (r: Option<Outliers>)
        ensures
            collects(r, s@, THREE, 3),
    {
        find_outliers(s, THREE, 3)
    }

    /// The active blocks that have at least three active neighbours within two blocks, and
    /// those neighbours.
    pub fn comparable(&self, active: &Vec<bool>, blocks_x: usize, blocks_y: usize) -> (r: Vec<
        Compared,
    >)
        requires
            active.len() == blocks_x * blocks_y,
        ensures
            pairings(r@) == comparisons(active@, blocks_x as int, 2, 3, active@.len()),
    {
        compare_blocks(active, blocks_x, blocks_y, 2, 3)
    }

    /// Whether enough blocks are active for them to be compared.
    pub fn enough_active(&self, active: &Vec<bool>) -> (r: bool)
        ensures
            r == (count_active(active@, active@.len()) >= 9),
    {
        active_count(active) >= 9
    }

    /// Marks the blocks whose intensities slope, given the keys of their slopes.
    pub fn active_blocks(&self, slopes: &Vec<i64>) -> (r: Vec<bool>)
        ensures
            r@ == marks(slopes@, MIN_GRADIENT),
    {
        mark_active(slopes, MIN_GRADIENT)
    }

    /// Reports blocks with a deviating light direction: `count` of `compared` blocks with a
    /// highest score of `peak`, reached by block `strongest`. `z` is the highest score
    /// with one decimal.
    pub fn report(
        &self,
        count: usize,
        compared: usize,
        z: &str,
        peak: i64,
        strongest: usize,
        blocks_x: usize,
        blocks_y: usize,
    ) -> (r: Finding)
        requires
            count <= compared,
            0 < compared <= MAX_COUNT,
            strongest < blocks_x * blocks_y,
            blocks_x * 64 <= u32::MAX,
            blocks_y * 64 <= u32::MAX,
        ensures
            r@ == lighting_finding(
                count as int,
                compared as int,
                z@,
                peak,
                strongest as int,
                blocks_x as int,
            ),
    {
        let mut s = decimal(count as u64);
        s.append(" of ");
        append_decimal(&mut s, compared as u64);
        s.append(" blocks (");
        let share = percent(count as u64, compared as u64);
        s.append(share.as_str());
        s.append("%) show lighting direction inconsistent with surroundings (z-score ");
        s.append(z);
        s.append(") - possible composite with different illumination geometry");
        let severity = if peak > GRAVE || is_share_above(count as u64, compared as u64, 15, 100) {
            Severity::High
        } else {
            Severity::Medium
        };
        let factor = Factor { num: 3, den: 2 };
        let sure: u64 = graded(U40, count as u64, compared as u64, factor, U80);
        Finding::new(
            "lighting_consistency",
            "lighting_direction_inconsistency",
            s,
            severity,
            sure,
        ).with_region(block_region(strongest, blocks_x, blocks_y, 64))
    }
}

/// An inconsistency is grave above a peak of five or above fifteen in a hundred of the blocks.
pub proof fn law_lighting_finding(
    count: int,
    compared: int,
    z: Seq<char>,
    peak: i64,
    strongest: int,
    blocks_x: int,
)
    ensures
        ({
            let f = lighting_finding(count, compared, z, peak, strongest, blocks_x);
            &&& f.code == "lighting_direction_inconsistency"@
            &&& f.severity == Severity::High <==> peak > GRAVE || share_above(count, compared, 15, 100)
            &&& f.severity == Severity::Medium <==> peak <= GRAVE && !share_above(
                count,
                compared,
                15,
                100,
            )
            &&& f.region == Some(block_box(strongest, blocks_x, 64))
        }),
        LIGHTING_BLOCK == 64,
        MIN_GRADIENT == 0x3F50_624D_D2F1_A9FC,
{
}

} // verus!
