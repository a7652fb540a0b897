//! Findings: what an analyzer reports, how serious it is, and where it is.
//!
//! A confidence is a number in `0.0..=1.0`. It is carried as its IEEE-754
//! double-precision bit pattern in a `u64`. For non-negative numbers the bit
//! patterns order as the numbers do, so comparing the integers compares the
//! confidences.

use vstd::prelude::*;
use vstd::string::*;

verus! {

/// Severity of a finding, ordered from least to most serious.
#[derive(Debug, Clone, Copy, PartialEq, Eq, PartialOrd, Ord, Structural)]
pub enum Severity {
    Info,
    Low,
    Medium,
    High,
    Critical,
}

impl Severity {
    /// The position of a severity in the order.
    pub open spec fn level(self) -> int {
        match self {
            Severity::Info => 0,
            Severity::Low => 1,
            Severity::Medium => 2,
            Severity::High => 3,
            Severity::Critical => 4,
        }
    }

    /// The position of a severity in the order.
    pub fn rank(self) -> (r: u8)
        ensures
            r == self.level(),
            r <= 4,
    {
        match self {
            Severity::Info => 0,
            Severity::Low => 1,
            Severity::Medium => 2,
            Severity::High => 3,
            Severity::Critical => 4,
        }
    }

    /// Whether this severity is the other one or more serious.
    pub fn at_least(self, other: Severity) -> (r: bool)
        ensures
            r == (self.level() >= other.level()),
    {
        self.rank() >= other.rank()
    }
}

/// The more serious of two severities.
pub open spec fn severity_max(a: Severity, b: Severity) -> Severity {
    if a.level() >= b.level() {
        a
    } else {
        b
    }
}

/// The larger of two bit patterns.
pub open spec fn bits_max(a: u64, b: u64) -> u64 {
    if a >= b {
        a
    } else {
        b
    }
}

/// A spatial region within the image where an issue was localized.
#[derive(Debug, Clone, PartialEq)]
pub enum Region {
    /// Axis-aligned bounding box, pixel coordinates, origin top-left.
    BoundingBox { x: u32, y: u32, width: u32, height: u32 },
    /// A set of specific pixel coordinates.
    Points { points: Vec<[u32; 2]> },
    /// Per-pixel binary mask (row-major, same dimensions as the source), where
    /// each byte is 0 or 255.
    Mask { width: u32, height: u32, data: Vec<u8> },
}

/// The value of a [`Region`].
pub enum RegionView {
    BoundingBox { x: u32, y: u32, width: u32, height: u32 },
    Points { points: Seq<[u32; 2]> },
    Mask { width: u32, height: u32, data: Seq<u8> },
}

impl View for Region {
    type V = RegionView;

    open spec fn view(&self) -> RegionView {
        match *self {
            Region::BoundingBox { x, y, width, height } => RegionView::BoundingBox {
                x,
                y,
                width,
                height,
            },
            Region::Points { points } => RegionView::Points { points: points@ },
            Region::Mask { width, height, data } => RegionView::Mask { width, height, data: data@ },
        }
    }
}

impl Region {
    /// A copy of the region.
    pub fn duplicate(&self) -> (r: Region)
        ensures
            r@ == self@,
    {
        match self {
            Region::BoundingBox { x, y, width, height } => Region::BoundingBox {
                x: *x,
                y: *y,
                width: *width,
                height: *height,
            },
            Region::Points { points } => {
                let mut copy: Vec<[u32; 2]> = Vec::new();
                let mut i: usize = 0;
                while i < points.len()
                    invariant
                        i <= points.len(),
                        copy@ =~= points@.take(i as int),
                    decreases points.len() - i,
                {
                    copy.push(points[i]);
                    i += 1;
                }
                proof {
                    assert(points@.take(points@.len() as int) =~= points@);
                }
                Region::Points { points: copy }
            },
            Region::Mask { width, height, data } => {
                Region::Mask { width: *width, height: *height, data: copy_bytes(data) }
            },
        }
    }
}

/// A copy of a byte vector.
pub fn copy_bytes(data: &Vec<u8>) -> (r: Vec<u8>)
    ensures
        r@ == data@,
{
    let mut copy: Vec<u8> = Vec::new();
    copy.extend_from_slice(data.as_slice());
    proof {
        assert(copy@ =~= data@);
    }
    copy
}

/// The value of an optional region.
pub open spec fn region_value(r: Option<Region>) -> Option<RegionView> {
    match r {
        Some(x) => Some(x@),
        None => None,
    }
}

/// A copy of an optional region.
pub fn duplicate_region(r: &Option<Region>) -> (c: Option<Region>)
    ensures
        region_value(c) == region_value(*r),
{
    match r {
        Some(x) => Some(x.duplicate()),
        None => None,
    }
}

/// A single forensic finding.
#[derive(Debug, Clone, PartialEq)]
pub struct Finding {
    /// Name of the analyzer that produced it (e.g. `"ela"`).
    pub analyzer: String,
    /// Short stable identifier for the finding type (e.g. `"ela_block_outliers"`).
    pub code: String,
    /// Human-readable description.
    pub description: String,
    pub severity: Severity,
    /// Confidence in the finding, `0.0..=1.0`, as a bit pattern.
    pub confidence: u64,
    /// Optional spatial location.
    pub region: Option<Region>,
}

/// The value of a [`Finding`].
pub struct FindingView {
    pub analyzer: Seq<char>,
    pub code: Seq<char>,
    pub description: Seq<char>,
    pub severity: Severity,
    pub confidence: u64,
    pub region: Option<RegionView>,
}

impl View for Finding {
    type V = FindingView;

    open spec fn view(&self) -> FindingView {
        FindingView {
            analyzer: self.analyzer@,
            code: self.code@,
            description: self.description@,
            severity: self.severity,
            confidence: self.confidence,
            region: region_value(self.region),
        }
    }
}

/// The values of a sequence of findings.
pub open spec fn values(s: Seq<Finding>) -> Seq<FindingView> {
    Seq::new(s.len(), |i: int| s[i]@)
}

/// A finding value without a region.
pub open spec fn plain_finding(
    analyzer: Seq<char>,
    code: Seq<char>,
    description: Seq<char>,
    severity: Severity,
    confidence: u64,
) -> FindingView {
    FindingView { analyzer, code, description, severity, confidence, region: None }
}

/// A finding value with a bounding box.
pub open spec fn boxed_finding(
    analyzer: Seq<char>,
    code: Seq<char>,
    description: Seq<char>,
    severity: Severity,
    confidence: u64,
    x: u32,
    y: u32,
    width: u32,
    height: u32,
) -> FindingView {
    FindingView {
        analyzer,
        code,
        description,
        severity,
        confidence,
        region: Some(RegionView::BoundingBox { x, y, width, height }),
    }
}

impl Finding {
    /// Build a finding without a spatial region.
    pub fn new(
        analyzer: &str,
        code: &str,
        description: String,
        severity: Severity,
        confidence: u64,
    ) -> (r: Finding)
        ensures
            r@ == plain_finding(analyzer@, code@, description@, severity, confidence),
    {
        Finding {
            analyzer: analyzer.to_string(),
            code: code.to_string(),
            description,
            severity,
            confidence,
            region: None,
        }
    }

    /// Attach a spatial region.
    pub fn with_region(self, region: Region) -> (r: Finding)
        ensures
            r@ == (FindingView { region: Some(region@), ..self@ }),
    {
        Finding {
            analyzer: self.analyzer,
            code: self.code,
            description: self.description,
            severity: self.severity,
            confidence: self.confidence,
            region: Some(region),
        }
    }

    /// A copy of the finding.
    pub fn duplicate(&self) -> (r: Finding)
        ensures
            r@ == self@,
    {
        Finding {
            analyzer: self.analyzer.clone(),
            code: self.code.clone(),
            description: self.description.clone(),
            severity: self.severity,
            confidence: self.confidence,
            region: duplicate_region(&self.region),
        }
    }
}

/// Appending a finding appends its value.
pub broadcast proof fn lemma_values_push(s: Seq<Finding>, f: Finding)
    ensures
        #[trigger] values(s.push(f)) == values(s).push(f@),
{
    assert(values(s.push(f)) =~= values(s).push(f@));
}

/// The empty sequence of findings has no values.
pub broadcast proof fn lemma_values_empty()
    ensures
        #[trigger] values(Seq::<Finding>::empty()) == Seq::<FindingView>::empty(),
{
    assert(values(Seq::<Finding>::empty()) =~= Seq::<FindingView>::empty());
}

/// Concatenating findings concatenates their values.
pub broadcast proof fn lemma_values_concat(s: Seq<Finding>, t: Seq<Finding>)
    ensures
        #[trigger] values(s + t) == values(s) + values(t),
{
    assert(values(s + t) =~= values(s) + values(t));
}

pub broadcast group group_values {
    lemma_values_push,
    lemma_values_empty,
    lemma_values_concat,
}

/// Severities are ordered from information to critical, each worse than the one before.
pub proof fn law_severity_order(a: Severity, b: Severity)
    ensures
        a.level() == b.level() <==> a == b,
        Severity::Info.level() < Severity::Low.level() < Severity::Medium.level()
            < Severity::High.level() < Severity::Critical.level(),
        severity_max(a, b) == severity_max(b, a),
        severity_max(a, b) == a || severity_max(a, b) == b,
        severity_max(a, b).level() >= a.level(),
        severity_max(a, b).level() >= b.level(),
{
}

} // verus!
