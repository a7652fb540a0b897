//! Color-channel correlation.
//!
//! Natural images correlate strongly across red, green and blue. Splices and synthetic
//! content break the correlation locally. The correlation of a block is computed in
//! floating point by the caller and compared with the blocks around it.

use crate::finding::Finding;
use crate::finding::FindingView;
use crate::finding::plain_finding;
use crate::outliers::Compared;
use crate::outliers::LEAST_SPREAD;
use crate::outliers::Outliers;
use crate::outliers::THREE;
use crate::outliers::block_box;
use crate::outliers::block_region;
use crate::outliers::carries_signal;
use crate::outliers::collects;
use crate::outliers::compare_blocks;
use crate::outliers::comparisons;
use crate::outliers::find_outliers;
use crate::outliers::has_signal;
use crate::outliers::outlier_severity;
use crate::outliers::pairings;
use crate::outliers::severity_at;
use crate::robust::Scored;
use crate::text::decimal;
use crate::text::decimal_text;
use vstd::prelude::*;
use vstd::string::*;

verus! {

/// The channel-correlation analyzer.
pub struct ChannelCorrelationAnalyzer;

/// The size of a block in pixels.
pub const CORRELATION_BLOCK: usize = 32;

/// The finding on blocks with reduced correlation.
pub open spec fn correlation_finding(
    count: int,
    z: Seq<char>,
    peak: i64,
    strongest: int,
    blocks_x: int,
    confidence: u64,
) -> FindingView {
    FindingView {
        region: Some(block_box(strongest, blocks_x, 32)),
        ..plain_finding(
            "channel_correlation"@,
            "channel_correlation_anomaly"@,
            decimal_text(count as nat)
                + " blocks show reduced R/G/B channel correlation compared to surroundings (z-score "@
                + z
                + ") - possible splice from image with different color processing or white balance"@,
            severity_at(peak),
            confidence,
        )
    }
}

impl ChannelCorrelationAnalyzer {
    /// Whether an image is large enough to be analyzed.
    pub fn large_enough(&self, w: usize, h: usize) -> (r: bool)
        ensures
            r == (w >= 128 && h >= 128),
    {
        w >= 128 && h >= 128
    }

    /// Whether so many blocks, whose values have a spread with this key, are scored.
    pub fn carries_signal(&self, blocks: usize, spread: i64) -> (r: bool)
        ensures
            r == has_signal(blocks as int, spread, 9, LEAST_SPREAD),
    {
        carries_signal(blocks, spread, 9, LEAST_SPREAD)
    }

    /// The blocks that score above three, if there are at least three.
    pub fn stand_out(&self, s: &Vec<Scored>) -> (r: Option<Outliers>)
        ensures
            collects(r, s@, THREE, 3),
    {
        find_outliers(s, THREE, 3)
    }

    /// The blocks that have at least three neighbours within two blocks, and those
    /// neighbours.
    pub fn comparable(&self, blocks_x: usize, blocks_y: usize) -> (r: Vec<Compared>)
        requires
            blocks_x * blocks_y <= usize::MAX,
        ensures
            pairings(r@) == comparisons(
                Seq::new((blocks_x * blocks_y) as nat, |i: int| true),
                blocks_x as int,
                2,
                3,
                (blocks_x * blocks_y) as nat,
            ),
    {
        let all: Vec<bool> = vec![true; blocks_x * blocks_y];
        assert(all@ =~= Seq::new((blocks_x * blocks_y) as nat, |i: int| true));
        compare_blocks(&all, blocks_x, blocks_y, 2, 3)
    }

    /// Reports blocks with reduced correlation: `count` blocks with a highest score of
    /// `peak`, which is `z` with one decimal, reached by block `strongest`.
    pub fn report(
        &self,
        count: usize,
        z: &str,
        peak: i64,
        strongest: usize,
        blocks_x: usize,
        blocks_y: usize,
        confidence: u64,
    ) -> (r: Finding)
        requires
            strongest < blocks_x * blocks_y,
            blocks_x * 32 <= u32::MAX,
            blocks_y * 32 <= u32::MAX,
        ensures
            r@ == correlation_finding(
                count as int,
                z@,
                peak,
                strongest as int,
                blocks_x as int,
                confidence,
            ),
    {
        let mut s = decimal(count as u64);
        s.append(
            " blocks show reduced R/G/B channel correlation compared to surroundings (z-score ",
        );
        s.append(z);
        s.append(
            ") - possible splice from image with different color processing or white balance",
        );
        Finding::new(
            "channel_correlation",
            "channel_correlation_anomaly",
            s,
            outlier_severity(peak),
            confidence,
        ).with_region(block_region(strongest, blocks_x, blocks_y, 32))
    }
}

/// An anomaly is told with its strongest block, of 32 pixels a side, and as gravely as its peak.
pub proof fn law_correlation_finding(
    count: int,
    z: Seq<char>,
    peak: i64,
    strongest: int,
    blocks_x: int,
    confidence: u64,
)
    ensures
        ({
            let f = correlation_finding(count, z, peak, strongest, blocks_x, confidence);
            &&& f.code == "channel_correlation_anomaly"@
            &&& f.severity == severity_at(peak)
            &&& f.confidence == confidence
            &&& f.region == Some(block_box(strongest, blocks_x, 32))
        }),
        CORRELATION_BLOCK == 32,
{
}

} // verus!
