//! Risk scoring and report-level dedup for a forensic report.
//!
//! Raw findings are collapsed into semantic categories, so that several findings
//! of one kind become one key finding with all the contributing analyzers listed,
//! and the report gets a plain-language verdict.
//!
//! The risk score is a number in `0..=100` with one decimal. It is carried in
//! tenths. The weighted sum behind it is computed in floating point by the caller
//! from [`crate::risk::stage::score_terms`] and
//! [`crate::risk::stage::cross_corroboration_bonus`].

use crate::finding::Finding;
use crate::finding::FindingView;
use crate::finding::Region;
use crate::finding::RegionView;
use crate::finding::Severity;
use crate::finding::bits_max;
use crate::finding::duplicate_region;
use crate::finding::group_values;
use crate::finding::region_value;
use crate::finding::severity_max;
use crate::finding::values;
use crate::order::law_order_exists;
use crate::order::order_of;
use crate::order::stable_order;
use crate::risk::category::CATEGORY_COUNT;
use crate::risk::category::code_in;
use crate::risk::category::matches_category;
use crate::risk::category::title;
use crate::risk::category::title_of;
use crate::risk::codes::is_emitted;
use crate::risk::codes::law_codes_covered;
use crate::risk::dedup::dedup_exact;
use crate::risk::dedup::deduped;
use crate::risk::explanation::ForensicExplanation;
use crate::risk::explanation::ForensicExplanationView;
use crate::risk::explanation::explain;
use crate::risk::explanation::explanation_of;
use crate::risk::stage::count_families;
use crate::risk::stage::family_count;
use crate::select::how_many;
use crate::select::lemma_which;
use crate::select::which;
use crate::text::append_decimal;
use crate::text::ascending_texts;
use crate::text::decimal_text;
use crate::text::insert_text;
use crate::text::law_insert_keeps_order;
use crate::text::lemma_with_text;
use crate::text::strings;
use crate::text::with_text;
use vstd::prelude::*;
use vstd::string::*;

verus! {

/// A deduplicated, human-facing finding aggregating one semantic category.
#[derive(Debug, Clone, PartialEq)]
pub struct KeyFinding {
    pub title: String,
    pub description: String,
    pub severity: Severity,
    /// The highest confidence among the contributing findings, as bits.
    pub confidence: u64,
    /// Distinct analyzers that contributed to this category.
    pub sources: Vec<String>,
    /// The most specific (smallest) region among the contributing findings.
    pub region: Option<Region>,
    /// How many raw findings were collapsed into this key finding.
    pub count: usize,
}

/// The value of a [`KeyFinding`].
pub struct KeyFindingView {
    pub title: Seq<char>,
    pub description: Seq<char>,
    pub severity: Severity,
    pub confidence: u64,
    pub sources: Seq<Seq<char>>,
    pub region: Option<RegionView>,
    pub count: usize,
}
impl View for KeyFinding {
    type V = KeyFindingView;

    open spec fn view(&self) -> KeyFindingView {
        KeyFindingView {
            title: self.title@,
            description: self.description@,
            severity: self.severity,
            confidence: self.confidence,
            sources: strings(self.sources@),
            region: region_value(self.region),
            count: self.count,
        }
    }
}

/// The values of a list of key findings.
pub open spec fn key_values(s: Seq<KeyFinding>) -> Seq<KeyFindingView> {
    Seq::new(s.len(), |i: int| s[i]@)
}

/// A finding contributes to a category: its code belongs there, and it is medium or
/// worse.
pub open spec fn contributes(f: FindingView, cat: int) -> bool {
    code_in(f.code, cat) && f.severity.level() >= Severity::Medium.level()
}

/// The findings among the first `n` that contribute to a category.
pub open spec fn contributors(s: Seq<FindingView>, cat: int, n: nat) -> Seq<FindingView>
    decreases n,
{
    if n == 0 {
        Seq::empty()
    } else if contributes(s[n - 1], cat) {
        contributors(s, cat, (n - 1) as nat).push(s[n - 1])
    } else {
        contributors(s, cat, (n - 1) as nat)
    }
}

/// The worst severity among the first `n` findings.
pub open spec fn worst(s: Seq<FindingView>, n: nat) -> Severity
    decreases n,
{
    if n == 0 {
        Severity::Info
    } else {
        severity_max(worst(s, (n - 1) as nat), s[n - 1].severity)
    }
}

/// The highest confidence among the first `n` findings.
pub open spec fn most_confident(s: Seq<FindingView>, n: nat) -> u64
    decreases n,
{
    if n == 0 {
        0
    } else {
        bits_max(most_confident(s, (n - 1) as nat), s[n - 1].confidence)
    }
}

/// The position of the highest confidence among the first `n` findings, the last of
/// equals.
pub open spec fn best(s: Seq<FindingView>, n: nat) -> int
    decreases n,
{
    if n <= 1 {
        0
    } else {
        let p = best(s, (n - 1) as nat);
        if s[n - 1].confidence >= s[p].confidence {
            n - 1
        } else {
            p
        }
    }
}

/// The distinct analyzers of the first `n` findings, in alphabetical order.
pub open spec fn analyzers(s: Seq<FindingView>, n: nat) -> Seq<Seq<char>>
    decreases n,
{
    if n == 0 {
        Seq::empty()
    } else {
        with_text(analyzers(s, (n - 1) as nat), s[n - 1].analyzer, 0)
    }
}

/// The sources of a key finding are in alphabetical order, each of them once.
pub proof fn law_sources_sorted(s: Seq<FindingView>, n: nat)
    requires
        n <= s.len(),
    ensures
        ascending_texts(analyzers(s, n)),
    decreases n,
{
    if n > 0 {
        law_sources_sorted(s, (n - 1) as nat);
        law_insert_keeps_order(analyzers(s, (n - 1) as nat), s[n - 1].analyzer);
    }
}

/// The number of marked samples among the first `n` of a mask.
pub open spec fn marked(data: Seq<u8>, n: nat) -> nat
    decreases n,
{
    if n == 0 {
        0
    } else {
        marked(data, (n - 1) as nat) + if data[n - 1] > 127 {
            1nat
        } else {
            0
        }
    }
}

/// The size of a region in pixels: the area of a box, the number of points, or the number
/// of marked samples of a mask.
pub open spec fn extent(r: RegionView) -> int {
    match r {
        RegionView::BoundingBox { x, y, width, height } => width * height,
        RegionView::Points { points } => points.len() as int,
        RegionView::Mask { width, height, data } => marked(data, data.len()) as int,
    }
}

/// The smallest region among those of the first `n` findings, the first of equals.
pub open spec fn smallest_region(s: Seq<FindingView>, n: nat) -> Option<RegionView>
    decreases n,
{
    if n == 0 {
        None
    } else {
        match (smallest_region(s, (n - 1) as nat), s[n - 1].region) {
            (r, None) => r,
            (None, c) => c,
            (Some(r), Some(c)) => if extent(c) < extent(r) {
                Some(c)
            } else {
                Some(r)
            },
        }
    }
}

/// A key finding has a region just where a contributing finding has one; it is the region
/// of one of them, and none of them is smaller.
pub proof fn law_smallest_region(s: Seq<FindingView>, n: nat, i: int)
    requires
        0 <= i < n <= s.len(),
        s[i].region is Some,
    ensures
        smallest_region(s, n) is Some,
        extent(smallest_region(s, n)->Some_0) <= extent(s[i].region->Some_0),
        exists|j: int| 0 <= j < n && #[trigger] s[j].region == smallest_region(s, n),
    decreases n,
{
    let m = (n - 1) as nat;
    if i < m {
        law_smallest_region(s, m, i);
        let j = choose|j: int| 0 <= j < m && #[trigger] s[j].region == smallest_region(s, m);
        assert(s[j].region == smallest_region(s, m));
        assert(s[n - 1].region == smallest_region(s, n) || s[j].region == smallest_region(s, n));
    } else {
        if smallest_region(s, m) is Some {
            lemma_region_source(s, m);
        }
        assert(s[n - 1].region is Some);
    }
}

proof fn lemma_region_source(s: Seq<FindingView>, n: nat)
    requires
        n <= s.len(),
        smallest_region(s, n) is Some,
    ensures
        exists|j: int| 0 <= j < n && #[trigger] s[j].region == smallest_region(s, n),
    decreases n,
{
    if s[n - 1].region != smallest_region(s, n) {
        lemma_region_source(s, (n - 1) as nat);
    }
}

/// The first three hundred characters of a text.
pub open spec fn shortened(t: Seq<char>) -> Seq<char> {
    if t.len() > 300 {
        t.take(300)
    } else {
        t
    }
}

/// The title of a key finding that collapses `count` findings.
pub open spec fn key_title(cat: int, count: int) -> Seq<char> {
    if count > 1 {
        title_of(cat) + " ("@ + decimal_text(count as nat) + " signals)"@
    } else {
        title_of(cat)
    }
}

/// The key finding of a category with the given contributing findings.
pub open spec fn key_finding(cat: int, m: Seq<FindingView>) -> KeyFindingView {
    KeyFindingView {
        title: key_title(cat, m.len() as int),
        description: shortened(m[best(m, m.len())].description),
        severity: worst(m, m.len()),
        confidence: most_confident(m, m.len()),
        sources: analyzers(m, m.len()),
        region: smallest_region(m, m.len()),
        count: m.len() as usize,
    }
}

/// The key findings of the first `n` categories, in the order of the categories.
pub open spec fn unsorted_keys(s: Seq<FindingView>, n: nat) -> Seq<KeyFindingView>
    decreases n,
{
    if n == 0 {
        Seq::empty()
    } else {
        let rest = unsorted_keys(s, (n - 1) as nat);
        let m = contributors(s, n - 1, s.len());
        if m.len() > 0 {
            rest.push(key_finding(n - 1, m))
        } else {
            rest
        }
    }
}

/// Ordering keys that put worse severities first, and among equals higher confidences.
pub open spec fn gravity_keys(k: Seq<KeyFindingView>) -> Seq<u128> {
    Seq::new(
        k.len(),
        |i: int|
            ((4 - k[i].severity.level()) * 0x1_0000_0000_0000_0000 + (u64::MAX
                - k[i].confidence)) as u128,
    )
}

/// The key findings of a report, gravest first.
pub open spec fn keys_of(s: Seq<FindingView>) -> Seq<KeyFindingView> {
    let k = unsorted_keys(s, CATEGORY_COUNT as nat);
    Seq::new(k.len(), |i: int| k[order_of(gravity_keys(k))[i] as int])
}

/// The risk level of a score, given in tenths.
pub open spec fn level_of(tenths: int) -> Severity {
    if tenths >= 800 {
        Severity::Critical
    } else if tenths >= 600 {
        Severity::High
    } else if tenths >= 350 {
        Severity::Medium
    } else if tenths >= 150 {
        Severity::Low
    } else {
        Severity::Info
    }
}

/// A higher score never has a lower risk level.
pub proof fn law_level_monotonic(a: int, b: int)
    requires
        a <= b,
    ensures
        level_of(a).level() <= level_of(b).level(),
{
}

/// The risk level of a score, given in tenths.
pub fn score_to_level(tenths: u32) -> (r: Severity)
    ensures
        r == level_of(tenths as int),
{
    if tenths >= 800 {
        Severity::Critical
    } else if tenths >= 600 {
        Severity::High
    } else if tenths >= 350 {
        Severity::Medium
    } else if tenths >= 150 {
        Severity::Low
    } else {
        Severity::Info
    }
}

/// The overall judgment for a report.
#[derive(Debug, Clone, PartialEq)]
pub struct Verdict {
    /// `0..=1000`, in tenths.
    pub risk_score: u32,
    pub risk_level: Severity,
    pub summary: String,
    /// Max confidence among key findings, as bits.
    pub confidence: u64,
    /// Number of independent analyzer families that flagged something material.
    pub corroborating_stages: u32,
}

/// The value of a [`Verdict`].
pub struct VerdictView {
    pub risk_score: u32,
    pub risk_level: Severity,
    pub summary: Seq<char>,
    pub confidence: u64,
    pub corroborating_stages: u32,
}

impl View for Verdict {
    type V = VerdictView;

    open spec fn view(&self) -> VerdictView {
        VerdictView {
            risk_score: self.risk_score,
            risk_level: self.risk_level,
            summary: self.summary@,
            confidence: self.confidence,
            corroborating_stages: self.corroborating_stages,
        }
    }
}

/// The highest confidence among the first `n` key findings.
pub open spec fn key_confidence(k: Seq<KeyFindingView>, n: nat) -> u64
    decreases n,
{
    if n == 0 {
        0
    } else {
        bits_max(key_confidence(k, (n - 1) as nat), k[n - 1].confidence)
    }
}

/// The summary of a verdict.
pub open spec fn summary_of(tenths: int, families: int, k: Seq<KeyFindingView>) -> Seq<char> {
    if tenths < 150 {
        "No significant forensic anomalies detected. Image appears authentic."@
    } else if tenths < 350 {
        "Minor anomalies detected, likely from normal image processing (compression, resizing)."@
    } else if tenths < 600 {
        "Moderate forensic anomalies detected across "@ + decimal_text(families as nat)
            + " analyzer family(ies). Manual review recommended."@
    } else {
        "Strong evidence of image manipulation detected. "@ + (if k.len() > 0 {
            k[0].title
        } else {
            "manipulation"@
        }) + " corroborated by "@ + decimal_text(families as nat)
            + " independent analyzer family(ies)."@
    }
}

/// The verdict on a report with the given score and key findings.
pub open spec fn verdict_of(s: Seq<FindingView>, k: Seq<KeyFindingView>, tenths: int) -> VerdictView {
    VerdictView {
        risk_score: tenths as u32,
        risk_level: level_of(tenths),
        summary: summary_of(tenths, family_count(s), k),
        confidence: key_confidence(k, k.len()),
        corroborating_stages: family_count(s) as u32,
    }
}

/// The scored, deduplicated view of a forensic report.
#[derive(Debug, Clone, PartialEq)]
pub struct RiskReport {
    /// `0..=1000`, in tenths.
    pub risk_score: u32,
    pub risk_level: Severity,
    pub verdict: Verdict,
    pub key_findings: Vec<KeyFinding>,
    /// Plain-language, template-based explanation (categories + narrative).
    pub explanation: ForensicExplanation,
}

/// The value of a [`RiskReport`].
pub struct RiskReportView {
    pub risk_score: u32,
    pub risk_level: Severity,
    pub verdict: VerdictView,
    pub key_findings: Seq<KeyFindingView>,
    pub explanation: ForensicExplanationView,
}

impl View for RiskReport {
    type V = RiskReportView;

    open spec fn view(&self) -> RiskReportView {
        RiskReportView {
            risk_score: self.risk_score,
            risk_level: self.risk_level,
            verdict: self.verdict@,
            key_findings: key_values(self.key_findings@),
            explanation: self.explanation@,
        }
    }
}

/// The risk report on findings whose score, in tenths, is given.
pub open spec fn report_of(s: Seq<FindingView>, tenths: int) -> RiskReportView {
    let d = deduped(s, s.len());
    RiskReportView {
        risk_score: tenths as u32,
        risk_level: level_of(tenths),
        verdict: verdict_of(d, keys_of(d), tenths),
        key_findings: keys_of(d),
        explanation: explanation_of(d, tenths, level_of(tenths)),
    }
}

proof fn lemma_contributors(s: Seq<FindingView>, cat: int, n: nat)
    requires
        n <= s.len(),
    ensures
        forall|i: int|
            0 <= i < contributors(s, cat, n).len() ==> s.contains(
                #[trigger] contributors(s, cat, n)[i],
            ) && contributes(contributors(s, cat, n)[i], cat),
        contributors(s, cat, n).len() <= n,
    decreases n,
{
    if n > 0 {
        lemma_contributors(s, cat, (n - 1) as nat);
        assert(s.contains(s[n - 1]));
    }
}

proof fn lemma_worst(m: Seq<FindingView>, n: nat, i: int)
    requires
        0 <= i < n <= m.len(),
    ensures
        m[i].severity.level() <= worst(m, n).level(),
    decreases n,
{
    if i < n - 1 {
        lemma_worst(m, (n - 1) as nat, i);
    }
}

proof fn lemma_unsorted_keys(s: Seq<FindingView>, n: nat)
    ensures
        unsorted_keys(s, n).len() <= n,
        forall|i: int|
            0 <= i < unsorted_keys(s, n).len() ==> (#[trigger] unsorted_keys(
                s,
                n,
            )[i]).severity.level() >= Severity::Medium.level(),
    decreases n,
{
    if n > 0 {
        lemma_unsorted_keys(s, (n - 1) as nat);
        let m = contributors(s, n - 1, s.len());
        lemma_contributors(s, n - 1, s.len());
        if m.len() > 0 {
            lemma_worst(m, m.len(), 0);
            assert(contributes(m[0], n - 1));
        }
    }
}

/// Key findings are medium or worse, there are at most as many as categories, and a
/// graver one never stands behind a lesser one.
pub proof fn law_keys_sorted(s: Seq<FindingView>, i: int, j: int)
    requires
        0 <= i <= j < keys_of(s).len(),
    ensures
        keys_of(s).len() <= CATEGORY_COUNT,
        keys_of(s)[j].severity.level() >= Severity::Medium.level(),
        keys_of(s)[i].severity.level() >= keys_of(s)[j].severity.level(),
        keys_of(s)[i].severity == keys_of(s)[j].severity ==> keys_of(s)[i].confidence
            >= keys_of(s)[j].confidence,
{
    let k = unsorted_keys(s, CATEGORY_COUNT as nat);
    let g = gravity_keys(k);
    lemma_unsorted_keys(s, CATEGORY_COUNT as nat);
    law_order_exists(g);
    let o = order_of(g);
    assert(o[i] < k.len() && o[j] < k.len());
    assert(k[o[j] as int].severity.level() >= Severity::Medium.level());
    if i < j {
        assert(crate::order::before(g, o[i] as int, o[j] as int));
    }
}

proof fn lemma_contributes(s: Seq<FindingView>, cat: int, n: nat, i: int)
    requires
        0 <= i < n <= s.len(),
        contributes(s[i], cat),
    ensures
        contributors(s, cat, n).contains(s[i]),
    decreases n,
{
    let rest = contributors(s, cat, (n - 1) as nat);
    if i == n - 1 {
        assert(contributors(s, cat, n)[rest.len() as int] == s[i]);
    } else {
        lemma_contributes(s, cat, (n - 1) as nat, i);
        let k = rest.index_of(s[i]);
        assert(contributors(s, cat, n)[k] == s[i]);
    }
}

proof fn lemma_key_present(s: Seq<FindingView>, cat: int, n: nat)
    requires
        0 <= cat < n,
        contributors(s, cat, s.len()).len() > 0,
    ensures
        unsorted_keys(s, n).contains(key_finding(cat, contributors(s, cat, s.len()))),
    decreases n,
{
    let key = key_finding(cat, contributors(s, cat, s.len()));
    let rest = unsorted_keys(s, (n - 1) as nat);
    if cat == n - 1 {
        assert(unsorted_keys(s, n)[rest.len() as int] == key);
    } else {
        lemma_key_present(s, cat, (n - 1) as nat);
        let k = rest.index_of(key);
        assert(unsorted_keys(s, n)[k] == key);
    }
}

/// A finding of medium severity or worse whose code belongs to a category is one of those
/// that the key finding of the category collapses.
pub proof fn law_finding_reaches_key(s: Seq<FindingView>, i: int, cat: int)
    requires
        0 <= i < s.len(),
        0 <= cat < CATEGORY_COUNT,
        contributes(s[i], cat),
    ensures
        contributors(s, cat, s.len()).contains(s[i]),
        keys_of(s).contains(key_finding(cat, contributors(s, cat, s.len()))),
{
    lemma_contributes(s, cat, s.len(), i);
    let m = contributors(s, cat, s.len());
    assert(m[m.index_of(s[i])] == s[i]);
    lemma_key_present(s, cat, CATEGORY_COUNT as nat);
    let key = key_finding(cat, m);
    let k = unsorted_keys(s, CATEGORY_COUNT as nat);
    let g = gravity_keys(k);
    lemma_unsorted_keys(s, CATEGORY_COUNT as nat);
    law_order_exists(g);
    let o = order_of(g);
    let p = k.index_of(key);
    assert(o.contains(p as usize));
    let q = o.index_of(p as usize);
    assert(keys_of(s)[q] == key);
}

/// Every finding of medium severity or worse that an analyzer emits is part of a key
/// finding.
pub proof fn law_emitted_findings_reach_keys(s: Seq<FindingView>, i: int)
    requires
        0 <= i < s.len(),
        is_emitted(s[i].code),
        s[i].severity.level() >= Severity::Medium.level(),
    ensures
        keys_of(s).len() > 0,
        exists|cat: int|
            0 <= cat < CATEGORY_COUNT && #[trigger] contributors(s, cat, s.len()).contains(s[i])
                && keys_of(s).contains(key_finding(cat, contributors(s, cat, s.len()))),
{
    law_codes_covered(s[i].code);
    let cat = choose|cat: int| 0 <= cat < CATEGORY_COUNT && code_in(s[i].code, cat);
    law_finding_reaches_key(s, i, cat);
    let key = key_finding(cat, contributors(s, cat, s.len()));
    assert(keys_of(s)[keys_of(s).index_of(key)] == key);
}

proof fn lemma_no_keys(s: Seq<FindingView>, n: nat)
    requires
        forall|i: int|
            0 <= i < s.len() ==> (#[trigger] s[i]).severity.level() < Severity::Medium.level(),
    ensures
        unsorted_keys(s, n).len() == 0,
    decreases n,
{
    if n > 0 {
        lemma_no_keys(s, (n - 1) as nat);
        lemma_contributors(s, n - 1, s.len());
        let m = contributors(s, n - 1, s.len());
        if m.len() > 0 {
            assert(s.contains(m[0]));
            let i = choose|i: int| 0 <= i < s.len() && s[i] == m[0];
            assert(s[i].severity.level() < Severity::Medium.level());
        }
    }
}

/// Findings below medium severity make no key finding.
pub proof fn law_minor_findings_make_no_key(s: Seq<FindingView>)
    requires
        forall|i: int|
            0 <= i < s.len() ==> (#[trigger] s[i]).severity.level() < Severity::Medium.level(),
    ensures
        keys_of(s).len() == 0,
{
    lemma_no_keys(s, CATEGORY_COUNT as nat);
}

fn collect(findings: &Vec<Finding>, cat: usize) -> (r: Vec<Finding>)
    requires
        cat < CATEGORY_COUNT,
    ensures
        values(r@) == contributors(values(findings@), cat as int, findings@.len()),
{
    let mut r: Vec<Finding> = Vec::new();
    let mut i: usize = 0;
    proof {
        assert(values(r@) =~= Seq::empty());
    }
    while i < findings.len()
        invariant
            i <= findings.len(),
            cat < CATEGORY_COUNT,
            values(r@) == contributors(values(findings@), cat as int, i as nat),
        decreases findings.len() - i,
    {
        broadcast use group_values;

        let f = &findings[i];
        proof {
            assert(values(findings@)[i as int] == f@);
        }
        if f.severity.at_least(Severity::Medium) && matches_category(f.code.as_str(), cat) {
            r.push(f.duplicate());
        }
        i += 1;
    }
    r
}

fn box_area(width: u32, height: u32) -> (r: u64)
    ensures
        r == width * height,
{
    proof {
        assert(0 <= width * height <= 0xFFFF_FFFF * 0xFFFF_FFFF) by (nonlinear_arith)
            requires
                0 <= width <= 0xFFFF_FFFF,
                0 <= height <= 0xFFFF_FFFF,
        ;
    }
    width as u64 * height as u64
}

/// Counts the marked samples of a mask.
fn count_marked(data: &Vec<u8>) -> (r: u64)
    ensures
        r == marked(data@, data@.len()),
{
    let mut r: u64 = 0;
    let mut i: usize = 0;
    while i < data.len()
        invariant
            i <= data.len(),
            r == marked(data@, i as nat),
            r <= i,
        decreases data.len() - i,
    {
        if data[i] > 127 {
            r += 1;
        }
        i += 1;
    }
    r
}

/// The size of a region in pixels.
fn size_of(region: &Region) -> (r: u64)
    ensures
        r == extent(region@),
{
    match region {
        Region::BoundingBox { x, y, width, height } => box_area(*width, *height),
        Region::Points { points } => points.len() as u64,
        Region::Mask { width, height, data } => count_marked(data),
    }
}

/// What the contributing findings of a category have in common.
struct Aggregate {
    severity: Severity,
    confidence: u64,
    best: usize,
    sources: Vec<String>,
    region: Option<Region>,
}

fn aggregate(m: &Vec<Finding>) -> (r: Aggregate)
    requires
        m.len() > 0,
    ensures
        r.severity == worst(values(m@), m@.len()),
        r.confidence == most_confident(values(m@), m@.len()),
        r.best == best(values(m@), m@.len()),
        r.best < m.len(),
        strings(r.sources@) == analyzers(values(m@), m@.len()),
        region_value(r.region) == smallest_region(values(m@), m@.len()),
{
    let mut severity = Severity::Info;
    let mut confidence: u64 = 0;
    let mut top: usize = 0;
    let mut sources: Vec<String> = Vec::new();
    let mut region: Option<Region> = None;
    let mut smallest: u64 = 0;
    let ghost v = values(m@);
    let mut i: usize = 0;
    proof {
        assert(strings(sources@) =~= Seq::empty());
    }
    while i < m.len()
        invariant
            i <= m.len(),
            v == values(m@),
            severity == worst(v, i as nat),
            confidence == most_confident(v, i as nat),
            top == best(v, i as nat),
            top < m.len(),
            i > 0 ==> top < i,
            i == 0 ==> top == 0,
            strings(sources@) == analyzers(v, i as nat),
            region_value(region) == smallest_region(v, i as nat),
            region is Some ==> smallest == extent(region->Some_0@),
        decreases m.len() - i,
    {
        let f = &m[i];
        proof {
            assert(v[i as int] == f@);
        }
        if !severity.at_least(f.severity) {
            severity = f.severity;
        }
        if f.confidence > confidence {
            confidence = f.confidence;
        }
        proof {
            assert(v[top as int] == m@[top as int]@);
        }
        if i > 0 && f.confidence >= m[top].confidence {
            top = i;
        }
        insert_text(&mut sources, &f.analyzer);
        match &f.region {
            Some(r) => {
                let size: u64 = size_of(r);
                if region.is_none() || size < smallest {
                    region = Some(r.duplicate());
                    smallest = size;
                }
            },
            None => {},
        }
        i += 1;
    }
    Aggregate { severity, confidence, best: top, sources, region }
}

fn key_of(cat: usize, m: &Vec<Finding>) -> (r: KeyFinding)
    requires
        cat < CATEGORY_COUNT,
        m.len() > 0,
    ensures
        r@ == key_finding(cat as int, values(m@)),
{
    let a = aggregate(m);
    proof {
        assert(values(m@)[a.best as int] == m@[a.best as int]@);
    }
    let text = m[a.best].description.as_str();
    let description: String = if text.unicode_len() > 300 {
        text.substring_char(0, 300).to_string()
    } else {
        text.to_string()
    };
    let mut t = title(cat).to_string();
    if m.len() > 1 {
        t.append(" (");
        append_decimal(&mut t, m.len() as u64);
        t.append(" signals)");
    }
    KeyFinding {
        title: t,
        description,
        severity: a.severity,
        confidence: a.confidence,
        sources: a.sources,
        region: a.region,
        count: m.len(),
    }
}

/// A copy of a list of texts.
pub fn copy_strings(v: &Vec<String>) -> (r: Vec<String>)
    ensures
        strings(r@) == strings(v@),
{
    let mut r: Vec<String> = Vec::new();
    let mut i: usize = 0;
    while i < v.len()
        invariant
            i <= v.len(),
            strings(r@) =~= strings(v@).take(i as int),
        decreases v.len() - i,
    {
        let c = v[i].clone();
        let ghost prev = r@;
        r.push(c);
        proof {
            assert(strings(v@)[i as int] == c@);
            assert(strings(r@) =~= strings(prev).push(c@));
        }
        i += 1;
    }
    proof {
        assert(strings(r@) =~= strings(v@));
    }
    r
}

impl KeyFinding {
    /// A copy of the key finding.
    pub fn duplicate(&self) -> (r: KeyFinding)
        ensures
            r@ == self@,
    {
        KeyFinding {
            title: self.title.clone(),
            description: self.description.clone(),
            severity: self.severity,
            confidence: self.confidence,
            sources: copy_strings(&self.sources),
            region: duplicate_region(&self.region),
            count: self.count,
        }
    }
}

/// Collapses findings into key findings, gravest first.
pub fn build_key_findings(findings: &Vec<Finding>) -> (r: Vec<KeyFinding>)
    ensures
        key_values(r@) == keys_of(values(findings@)),
{
    let ghost s = values(findings@);
    let mut keys: Vec<KeyFinding> = Vec::new();
    let mut cat: usize = 0;
    proof {
        assert(key_values(keys@) =~= Seq::empty());
    }
    while cat < CATEGORY_COUNT
        invariant
            cat <= CATEGORY_COUNT,
            s == values(findings@),
            key_values(keys@) == unsorted_keys(s, cat as nat),
        decreases CATEGORY_COUNT - cat,
    {
        let m = collect(findings, cat);
        if m.len() > 0 {
            let k = key_of(cat, &m);
            let ghost prev = keys@;
            keys.push(k);
            proof {
                assert(key_values(keys@) =~= key_values(prev).push(k@));
            }
        }
        cat += 1;
    }
    let mut gravity: Vec<u128> = Vec::new();
    let mut i: usize = 0;
    while i < keys.len()
        invariant
            i <= keys.len(),
            gravity@ =~= gravity_keys(key_values(keys@)).take(i as int),
        decreases keys.len() - i,
    {
        proof {
            assert(key_values(keys@)[i as int] == keys@[i as int]@);
        }
        let rank: u8 = keys[i].severity.rank();
        gravity.push(
            (4 - rank) as u128 * 0x1_0000_0000_0000_0000 + (u64::MAX - keys[i].confidence) as u128,
        );
        i += 1;
    }
    proof {
        assert(gravity@ =~= gravity_keys(key_values(keys@)));
    }
    let order = stable_order(&gravity);
    let mut r: Vec<KeyFinding> = Vec::new();
    let mut p: usize = 0;
    while p < order.len()
        invariant
            p <= order.len(),
            order.len() == keys.len(),
            key_values(keys@) == unsorted_keys(s, CATEGORY_COUNT as nat),
            order@ == order_of(gravity_keys(key_values(keys@))),
            forall|j: int| 0 <= j < order.len() ==> #[trigger] order@[j] < keys.len(),
            key_values(r@) =~= keys_of(s).take(p as int),
        decreases order.len() - p,
    {
        proof {
            assert(key_values(keys@)[order@[p as int] as int] == keys@[order@[p as int] as int]@);
        }
        let k = keys[order[p]].duplicate();
        let ghost prev = r@;
        r.push(k);
        proof {
            assert(keys_of(s)[p as int] == k@);
            assert(key_values(r@) =~= key_values(prev).push(k@));
        }
        p += 1;
    }
    proof {
        assert(key_values(r@) =~= keys_of(s));
    }
    r
}

/// Judges a report.
pub fn build_verdict(findings: &Vec<Finding>, key_findings: &Vec<KeyFinding>, risk_score: u32) -> (r:
    Verdict)
    ensures
        r@ == verdict_of(values(findings@), key_values(key_findings@), risk_score as int),
{
    let families: u32 = count_families(findings);
    let mut confidence: u64 = 0;
    let mut i: usize = 0;
    while i < key_findings.len()
        invariant
            i <= key_findings.len(),
            confidence == key_confidence(key_values(key_findings@), i as nat),
        decreases key_findings.len() - i,
    {
        proof {
            assert(key_values(key_findings@)[i as int] == key_findings@[i as int]@);
        }
        if key_findings[i].confidence > confidence {
            confidence = key_findings[i].confidence;
        }
        i += 1;
    }
    let summary: String = if risk_score < 150 {
        "No significant forensic anomalies detected. Image appears authentic.".to_string()
    } else if risk_score < 350 {
        "Minor anomalies detected, likely from normal image processing (compression, resizing).".to_string()
    } else if risk_score < 600 {
        let mut t = "Moderate forensic anomalies detected across ".to_string();
        append_decimal(&mut t, families as u64);
        t.append(" analyzer family(ies). Manual review recommended.");
        t
    } else {
        let mut t = "Strong evidence of image manipulation detected. ".to_string();
        if key_findings.len() > 0 {
            proof {
                assert(key_values(key_findings@)[0] == key_findings@[0]@);
            }
            t.append(key_findings[0].title.as_str());
        } else {
            t.append("manipulation");
        }
        t.append(" corroborated by ");
        append_decimal(&mut t, families as u64);
        t.append(" independent analyzer family(ies).");
        t
    };
    Verdict {
        risk_score,
        risk_level: score_to_level(risk_score),
        summary,
        confidence,
        corroborating_stages: families,
    }
}

/// Dedup a report's findings and turn them into a [`RiskReport`]. `risk_score` is the
/// score of the deduplicated findings, in tenths.
pub fn score(findings: &Vec<Finding>, risk_score: u32) -> (r: RiskReport)
    requires
        risk_score <= 1000,
    ensures
        r@ == report_of(values(findings@), risk_score as int),
{
    let d = dedup_exact(findings);
    let key_findings = build_key_findings(&d);
    let verdict = build_verdict(&d, &key_findings, risk_score);
    let explanation = explain(&d, risk_score, score_to_level(risk_score));
    RiskReport {
        risk_score,
        risk_level: score_to_level(risk_score),
        verdict,
        key_findings,
        explanation,
    }
}

/// The level of a risk is the number of the bounds 15, 35, 60 and 80 that the score reaches.
pub proof fn law_levels(tenths: int)
    ensures
        level_of(tenths).level() == (if tenths / 10 >= 15 {
            1int
        } else {
            0
        }) + (if tenths / 10 >= 35 {
            1int
        } else {
            0
        }) + (if tenths / 10 >= 60 {
            1int
        } else {
            0
        }) + (if tenths / 10 >= 80 {
            1int
        } else {
            0
        }),
{
}

/// The summary of a verdict agrees with its risk level. It says that the image appears
/// authentic at the level of information and at no other; it speaks of minor anomalies at
/// the low level, of moderate ones and a review at the medium level, and of strong evidence
/// at the two levels above, where the title of the first key finding follows.
pub proof fn law_summary_agrees_with_level(
    s: Seq<FindingView>,
    k: Seq<KeyFindingView>,
    tenths: int,
)
    requires
        0 <= tenths <= 1000,
    ensures
        ({
            let v = verdict_of(s, k, tenths);
            let n = decimal_text(v.corroborating_stages as nat);
            &&& v.risk_score == tenths
            &&& v.risk_level == level_of(tenths)
            &&& v.summary == (match v.risk_level {
                Severity::Info =>
                    "No significant forensic anomalies detected. Image appears authentic."@,
                Severity::Low =>
                    "Minor anomalies detected, likely from normal image processing (compression, resizing)."@,
                Severity::Medium => "Moderate forensic anomalies detected across "@ + n
                    + " analyzer family(ies). Manual review recommended."@,
                _ => "Strong evidence of image manipulation detected. "@ + (if k.len() == 0 {
                    "manipulation"@
                } else {
                    k.first().title
                }) + " corroborated by "@ + n + " independent analyzer family(ies)."@,
            })
            &&& (v.summary[0] == 'N') == (v.risk_level == Severity::Info)
            &&& (v.summary[0] == 'S') == (v.risk_level == Severity::High || v.risk_level
                == Severity::Critical)
        }),
{
    reveal_strlit("No significant forensic anomalies detected. Image appears authentic.");
    reveal_strlit("Minor anomalies detected, likely from normal image processing (compression, resizing).");
    reveal_strlit("Moderate forensic anomalies detected across ");
    reveal_strlit("Strong evidence of image manipulation detected. ");
    lemma_few_families(s);
}

proof fn lemma_few_families(s: Seq<FindingView>)
    ensures
        0 <= family_count(s) <= 5,
{
}

/// The findings that make a key finding are those of its category that are medium, high or
/// critical, in their order.
pub proof fn law_contributors(s: Seq<FindingView>, cat: int, n: nat)
    requires
        n <= s.len(),
    ensures
        contributors(s, cat, n) == which(n, |i: int| code_in(s[i].code, cat) && s[i].severity != Severity::Info && s[i].severity != Severity::Low).map_values(|i: int| s[i]),
    decreases n,
{
    let p = |i: int| code_in(s[i].code, cat) && s[i].severity != Severity::Info && s[i].severity != Severity::Low;
    let f = |i: int| s[i];
    lemma_which(0, p);
    if n > 0 {
        let lower = (n - 1) as nat;
        law_contributors(s, cat, lower);
        lemma_which(lower, p);
        assert(which(n, p).map_values(f) =~= if p(lower as int) {
            which(lower, p).map_values(f).push(f(lower as int))
        } else {
            which(lower, p).map_values(f)
        });
    } else {
        assert(which(0, p).map_values(f) =~= Seq::<FindingView>::empty());
    }
}

/// The severity of a key finding is the worst of its findings, and its confidence the
/// highest: none is above, and one has each.
pub proof fn law_worst_and_most_confident(s: Seq<FindingView>, n: nat, i: int)
    requires
        0 <= i < n <= s.len(),
    ensures
        s[i].severity.level() <= worst(s, n).level(),
        s[i].confidence <= most_confident(s, n),
        exists|j: int| 0 <= j < n && (#[trigger] s[j]).severity == worst(s, n),
        exists|j: int| 0 <= j < n && (#[trigger] s[j]).confidence == most_confident(s, n),
    decreases n,
{
    let m = (n - 1) as nat;
    assert(worst(s, 0) == Severity::Info && most_confident(s, 0) == 0);
    if m > 0 {
        law_worst_and_most_confident(s, m, if i < m {
            i
        } else {
            0
        });
        let a = choose|j: int| 0 <= j < m && (#[trigger] s[j]).severity == worst(s, m);
        let b = choose|j: int| 0 <= j < m && (#[trigger] s[j]).confidence == most_confident(s, m);
        assert(s[a].severity == worst(s, n) || s[n - 1].severity == worst(s, n));
        assert(s[b].confidence == most_confident(s, n) || s[n - 1].confidence == most_confident(
            s,
            n,
        ));
    } else {
        assert(s[n - 1].severity == worst(s, n));
        assert(s[n - 1].confidence == most_confident(s, n));
    }
}

/// The description of a key finding is that of its most confident finding, the last of
/// equals.
pub proof fn law_best_is_most_confident(s: Seq<FindingView>, n: nat, i: int)
    requires
        0 <= i < n <= s.len(),
    ensures
        0 <= best(s, n) < n,
        s[i].confidence <= s[best(s, n)].confidence,
        i > best(s, n) ==> s[i].confidence < s[best(s, n)].confidence,
    decreases n,
{
    if n > 1 {
        law_best_is_most_confident(s, (n - 1) as nat, if i < n - 1 {
            i
        } else {
            0
        });
    }
}

/// The sources of a key finding are the analyzers of its findings, all of them and no others.
pub proof fn law_sources_complete(s: Seq<FindingView>, n: nat, a: Seq<char>)
    requires
        n <= s.len(),
    ensures
        analyzers(s, n).contains(a) <==> exists|i: int| 0 <= i < n && (#[trigger] s[i]).analyzer == a,
    decreases n,
{
    if n > 0 {
        let m = (n - 1) as nat;
        law_sources_complete(s, m, a);
        lemma_with_text(analyzers(s, m), s[n - 1].analyzer, 0, a);
        if exists|i: int| 0 <= i < m && (#[trigger] s[i]).analyzer == a {
            let i = choose|i: int| 0 <= i < m && (#[trigger] s[i]).analyzer == a;
            assert(s[i].analyzer == a);
        }
        assert(s[n - 1].analyzer == a ==> exists|i: int|
            0 <= i < n && (#[trigger] s[i]).analyzer == a);
    }
}

/// A key finding is titled by its category, with the number of its findings where there are
/// several; it names that number, and its description has at most three hundred characters,
/// the first ones of the text.
pub proof fn law_key_finding(cat: int, m: Seq<FindingView>)
    requires
        0 < m.len() <= usize::MAX,
    ensures
        ({
            let k = key_finding(cat, m);
            let d = m[best(m, m.len())].description;
            &&& k.count == m.len()
            &&& k.title == (if m.len() == 1 {
                title_of(cat)
            } else {
                title_of(cat) + " ("@ + decimal_text(m.len()) + " signals)"@
            })
            &&& k.description.len() == if d.len() < 300 {
                d.len()
            } else {
                300
            }
            &&& k.description == d.take(k.description.len() as int)
            &&& k.severity == worst(m, m.len())
            &&& k.confidence == most_confident(m, m.len())
        }),
{
    let d = m[best(m, m.len())].description;
    assert(d.take(d.len() as int) =~= d);
}

/// The confidence of a verdict is the highest of its key findings, and none without one; it
/// counts the families that agree.
pub proof fn law_verdict(s: Seq<FindingView>, k: Seq<KeyFindingView>, tenths: int, i: int)
    requires
        0 <= tenths <= 1000,
    ensures
        0 <= i < k.len() ==> k[i].confidence <= verdict_of(s, k, tenths).confidence,
        k.len() == 0 ==> verdict_of(s, k, tenths).confidence == 0,
        k.len() > 0 ==> exists|j: int|
            0 <= j < k.len() && (#[trigger] k[j]).confidence == verdict_of(s, k, tenths).confidence,
        verdict_of(s, k, tenths).corroborating_stages == family_count(s),
{
    lemma_few_families(s);
    lemma_key_confidence(k, k.len(), i);
}

proof fn lemma_key_confidence(k: Seq<KeyFindingView>, n: nat, i: int)
    requires
        n <= k.len(),
    ensures
        0 <= i < n ==> k[i].confidence <= key_confidence(k, n),
        n > 0 ==> exists|j: int| 0 <= j < n && (#[trigger] k[j]).confidence == key_confidence(k, n),
    decreases n,
{
    assert(key_confidence(k, 0) == 0);
    if n > 0 {
        let m = (n - 1) as nat;
        lemma_key_confidence(k, m, i);
        if m > 0 {
            let j = choose|j: int|
                0 <= j < m && (#[trigger] k[j]).confidence == key_confidence(k, m);
            assert(k[j].confidence == key_confidence(k, n) || k[n - 1].confidence == key_confidence(
                k,
                n,
            ));
        } else {
            assert(k[n - 1].confidence == key_confidence(k, n));
        }
    }
}

/// A report is made of its findings without repeats: its score, the level of the score, and
/// the verdict, the key findings and the explanation of those findings.
pub proof fn law_report_of_distinct_findings(s: Seq<FindingView>, tenths: int)
    requires
        0 <= tenths <= 1000,
    ensures
        ({
            let d = deduped(s, s.len());
            let r = report_of(s, tenths);
            &&& r.risk_score == tenths
            &&& r.risk_level == r.verdict.risk_level
            &&& r.verdict.risk_score == r.risk_score
            &&& r.key_findings == keys_of(d)
            &&& r.verdict == verdict_of(d, r.key_findings, tenths)
            &&& r.explanation == explanation_of(d, tenths, r.risk_level)
        }),
{
}

/// A title tells how many signals there are where there is more than one.
pub proof fn law_key_title(cat: int, count: int)
    ensures
        count <= 1 ==> key_title(cat, count) == title_of(cat),
        count >= 2 ==> key_title(cat, count) == title_of(cat) + " ("@ + decimal_text(count as nat)
            + " signals)"@,
{
}

/// A text is cut to its first three hundred characters.
pub proof fn law_shortened(t: Seq<char>, i: int)
    ensures
        shortened(t).len() == if t.len() < 300 {
            t.len()
        } else {
            300
        },
        0 <= i < shortened(t).len() ==> shortened(t)[i] == t[i],
{
}

/// The pixels of a mask are counted from half on.
pub proof fn law_marked_pixels(data: Seq<u8>, n: nat)
    requires
        n <= data.len(),
    ensures
        marked(data, n) == how_many(n, |i: int| data[i] >= 128),
    decreases n,
{
    let p = |i: int| data[i] >= 128;
    lemma_which(0, p);
    if n > 0 {
        law_marked_pixels(data, (n - 1) as nat);
        lemma_which((n - 1) as nat, p);
    }
}

/// Each category with a finding makes a key finding, in their order.
pub proof fn law_keys(s: Seq<FindingView>, n: nat)
    ensures
        unsorted_keys(s, n) == which(n, |i: int| contributors(s, i, s.len()).len() != 0).map_values(|i: int| key_finding(i, contributors(s, i, s.len()))),
    decreases n,
{
    let p = |i: int| contributors(s, i, s.len()).len() != 0;
    let f = |i: int| key_finding(i, contributors(s, i, s.len()));
    lemma_which(0, p);
    if n > 0 {
        let lower = (n - 1) as nat;
        law_keys(s, lower);
        lemma_which(lower, p);
        assert(which(n, p).map_values(f) =~= if p(lower as int) {
            which(lower, p).map_values(f).push(f(lower as int))
        } else {
            which(lower, p).map_values(f)
        });
    } else {
        assert(which(0, p).map_values(f) =~= Seq::<KeyFindingView>::empty());
    }
}

} // verus!
