//! Analyzer families, and how much their agreement counts.

use crate::finding::Finding;
use crate::finding::FindingView;
use crate::finding::Severity;
use crate::finding::values;
use crate::risk::dedup::deduped;
use crate::risk::dedup::lemma_first_same;
use crate::risk::dedup::merged;
use crate::select::total;
use crate::text::begins_with;
use crate::text::same_text;
use crate::text::starts_with;
use vstd::arithmetic::power2::lemma_pow2_pos;
use vstd::arithmetic::power2::lemma_pow2_strictly_increases;
use vstd::arithmetic::power2::lemma_pow2_unfold;
use vstd::arithmetic::power2::pow2;
use vstd::prelude::*;

verus! {

/// Coarse analyzer family, used for weighting and cross-corroboration
/// (independent families agreeing is a stronger signal than one family alone).
#[derive(Debug, Clone, Copy, PartialEq, Eq, Hash, Structural)]
pub enum Stage {
    Metadata,
    Pixel,
    Signal,
    AiDetect,
    Pdf,
}

impl Stage {
    /// The weight of a family, in tenths.
    pub open spec fn tenths(self) -> int {
        match self {
            Stage::Metadata => 8,
            Stage::Pixel => 12,
            Stage::Signal => 11,
            Stage::AiDetect => 13,
            Stage::Pdf => 10,
        }
    }

    /// The weight of a family, in tenths.
    pub fn weight(self) -> (r: u32)
        ensures
            r == self.tenths(),
    {
        match self {
            Stage::Metadata => 8,
            Stage::Pixel => 12,
            Stage::Signal => 11,
            Stage::AiDetect => 13,
            Stage::Pdf => 10,
        }
    }
}

/// The family of an analyzer.
pub open spec fn family(analyzer: Seq<char>) -> Stage {
    if analyzer == "metadata"@ || analyzer == "exif_pixel"@ || analyzer == "c2pa"@ {
        Stage::Metadata
    } else if analyzer == "frequency"@ {
        Stage::AiDetect
    } else if analyzer == "chromatic_aberration"@ || analyzer == "illumination"@ || analyzer
        == "prnu"@ || analyzer == "prnu_cross_region"@ {
        Stage::Signal
    } else if begins_with(analyzer, "pdf"@) {
        Stage::Pdf
    } else {
        Stage::Pixel
    }
}

/// Map an analyzer name to its family.
pub fn stage_of(analyzer: &str) -> (r: Stage)
    ensures
        r == family(analyzer@),
{
    if same_text(analyzer, "metadata") || same_text(analyzer, "exif_pixel") || same_text(
        analyzer,
        "c2pa",
    ) {
        Stage::Metadata
    } else if same_text(analyzer, "frequency") {
        Stage::AiDetect
    } else if same_text(analyzer, "chromatic_aberration") || same_text(analyzer, "illumination")
        || same_text(analyzer, "prnu") || same_text(analyzer, "prnu_cross_region") {
        Stage::Signal
    } else if starts_with(analyzer, "pdf") {
        Stage::Pdf
    } else {
        Stage::Pixel
    }
}

/// The weight of a severity.
pub open spec fn weight_of(s: Severity) -> int {
    match s {
        Severity::Info => 0,
        Severity::Low => 10,
        Severity::Medium => 25,
        Severity::High => 50,
        Severity::Critical => 80,
    }
}

/// The weight of a severity.
pub fn severity_weight(s: Severity) -> (r: u32)
    ensures
        r == weight_of(s),
{
    match s {
        Severity::Info => 0,
        Severity::Low => 10,
        Severity::Medium => 25,
        Severity::High => 50,
        Severity::Critical => 80,
    }
}

/// More serious findings weigh more.
pub proof fn law_weight_monotonic(a: Severity, b: Severity)
    requires
        a.level() < b.level(),
    ensures
        weight_of(a) < weight_of(b),
{
}

/// Above this confidence a finding can corroborate others, as bits: 0.5.
pub const MATERIAL_CONFIDENCE: u64 = 0x3FE0_0000_0000_0000;

/// A finding that counts for corroboration: medium or worse, and more likely than not.
pub open spec fn is_material(f: FindingView) -> bool {
    f.severity.level() >= Severity::Medium.level() && f.confidence > MATERIAL_CONFIDENCE
}

/// Some material finding comes from a family.
pub open spec fn flags(s: Seq<FindingView>, stage: Stage) -> bool {
    exists|i: int| 0 <= i < s.len() && is_material(#[trigger] s[i]) && family(s[i].analyzer) == stage
}

/// One if the condition holds, else zero.
pub open spec fn one_if(b: bool) -> int {
    if b {
        1
    } else {
        0
    }
}

/// The number of families with a material finding.
pub open spec fn family_count(s: Seq<FindingView>) -> int {
    one_if(flags(s, Stage::Metadata)) + one_if(flags(s, Stage::Pixel)) + one_if(
        flags(s, Stage::Signal),
    ) + one_if(flags(s, Stage::AiDetect)) + one_if(flags(s, Stage::Pdf))
}

fn has_family(findings: &Vec<Finding>, stage: Stage) -> (r: bool)
    ensures
        r == flags(values(findings@), stage),
{
    let mut i: usize = 0;
    while i < findings.len()
        invariant
            i <= findings.len(),
            forall|j: int|
                0 <= j < i ==> !(is_material(#[trigger] values(findings@)[j]) && family(
                    values(findings@)[j].analyzer,
                ) == stage),
        decreases findings.len() - i,
    {
        let f = &findings[i];
        proof {
            assert(values(findings@)[i as int] == f@);
        }
        if f.severity.at_least(Severity::Medium) && f.confidence > MATERIAL_CONFIDENCE && stage_of(
            f.analyzer.as_str(),
        ) == stage {
            return true;
        }
        i += 1;
    }
    false
}

/// Counts the families with a material finding.
pub fn count_families(findings: &Vec<Finding>) -> (r: u32)
    ensures
        r == family_count(values(findings@)),
        r <= 5,
{
    let mut n: u32 = 0;
    if has_family(findings, Stage::Metadata) {
        n += 1;
    }
    if has_family(findings, Stage::Pixel) {
        n += 1;
    }
    if has_family(findings, Stage::Signal) {
        n += 1;
    }
    if has_family(findings, Stage::AiDetect) {
        n += 1;
    }
    if has_family(findings, Stage::Pdf) {
        n += 1;
    }
    n
}

/// The bonus for a number of agreeing families, in hundredths.
pub open spec fn bonus_for(families: int) -> int {
    if families <= 1 {
        0
    } else if families == 2 {
        15
    } else if families == 3 {
        30
    } else if families == 4 {
        45
    } else {
        60
    }
}

/// The bonus for independent families that agree, in hundredths.
pub fn cross_corroboration_bonus(findings: &Vec<Finding>) -> (r: u32)
    ensures
        r == bonus_for(family_count(values(findings@))),
{
    let n: u32 = count_families(findings);
    if n <= 1 {
        0
    } else if n == 2 {
        15
    } else if n == 3 {
        30
    } else if n == 4 {
        45
    } else {
        60
    }
}

/// What one finding adds to the weighted sum of a report.
#[derive(Debug, Clone, Copy, PartialEq, Eq, Structural)]
pub struct Term {
    /// The weight of the severity.
    pub severity: u32,
    /// The confidence, as bits.
    pub confidence: u64,
    /// The weight of the family, in tenths.
    pub stage: u32,
}

/// The terms of a report's weighted sum: for each finding the weight of its
/// severity, its confidence and the weight of its family.
pub open spec fn terms_of(s: Seq<FindingView>) -> Seq<Term> {
    Seq::new(
        s.len(),
        |i: int|
            Term {
                severity: weight_of(s[i].severity) as u32,
                confidence: s[i].confidence,
                stage: family(s[i].analyzer).tenths() as u32,
            },
    )
}

/// Collects the terms of a report's weighted sum.
pub fn score_terms(findings: &Vec<Finding>) -> (r: Vec<Term>)
    ensures
        r@ == terms_of(values(findings@)),
{
    let mut r: Vec<Term> = Vec::new();
    let mut i: usize = 0;
    while i < findings.len()
        invariant
            i <= findings.len(),
            r@ =~= terms_of(values(findings@)).take(i as int),
        decreases findings.len() - i,
    {
        let f = &findings[i];
        proof {
            assert(values(findings@)[i as int] == f@);
        }
        r.push(
            Term {
                severity: severity_weight(f.severity),
                confidence: f.confidence,
                stage: stage_of(f.analyzer.as_str()).weight(),
            },
        );
        i += 1;
    }
    proof {
        assert(r@ =~= terms_of(values(findings@)));
    }
    r
}

/// The number that a confidence stands for, in multiples of the least positive one: its
/// fraction, with a leading one and scaled by its exponent where that is not zero.
pub open spec fn magnitude(bits: u64) -> nat {
    let exponent = bits as nat / 0x10_0000_0000_0000;
    let fraction = bits as nat % 0x10_0000_0000_0000;
    if exponent == 0 {
        fraction
    } else {
        (0x10_0000_0000_0000 + fraction) * pow2((exponent - 1) as nat)
    }
}

/// What a term adds to the weighted sum, in tenths of the least positive confidence.
pub open spec fn term_weight(t: Term) -> nat {
    (t.severity * magnitude(t.confidence) * t.stage) as nat
}

/// The weighted sum of the first `n` terms, in tenths of the least positive confidence.
pub open spec fn weighted_sum(t: Seq<Term>, n: nat) -> nat
    decreases n,
{
    if n == 0 {
        0
    } else {
        weighted_sum(t, (n - 1) as nat) + term_weight(t[n - 1])
    }
}

/// The weighted sum of findings, in tenths of the least positive confidence.
pub open spec fn total_weight(s: Seq<FindingView>) -> nat {
    weighted_sum(terms_of(s), s.len())
}

/// A confidence with greater bits stands for a greater number.
pub proof fn law_magnitude_monotonic(a: u64, b: u64)
    requires
        a < b,
    ensures
        magnitude(a) < magnitude(b),
{
    let one: nat = 0x10_0000_0000_0000;
    let (ea, fa) = (a as nat / one, a as nat % one);
    let (eb, fb) = (b as nat / one, b as nat % one);
    assert(ea <= eb && (ea == eb ==> fa < fb));
    if ea == eb {
        if ea > 0 {
            lemma_pow2_pos((ea - 1) as nat);
            assert((one + fa) * pow2((ea - 1) as nat) < (one + fb) * pow2((ea - 1) as nat))
                by (nonlinear_arith)
                requires
                    fa < fb,
                    pow2((ea - 1) as nat) > 0,
            ;
        }
    } else {
        let q = pow2((eb - 1) as nat);
        lemma_pow2_pos((eb - 1) as nat);
        assert((one + fb) * q >= one * q) by (nonlinear_arith)
            requires
                fb >= 0,
                q > 0,
        ;
        if ea == 0 {
            assert(one * q >= one) by (nonlinear_arith)
                requires
                    q > 0,
            ;
        } else {
            let p = pow2((ea - 1) as nat);
            lemma_pow2_pos((ea - 1) as nat);
            lemma_pow2_unfold(ea);
            if ea < eb - 1 {
                lemma_pow2_strictly_increases(ea, (eb - 1) as nat);
            }
            assert(q >= 2 * p);
            assert((one + fa) * p < 2 * one * p) by (nonlinear_arith)
                requires
                    fa < one,
                    p > 0,
            ;
            assert(one * q >= 2 * one * p) by (nonlinear_arith)
                requires
                    q >= 2 * p,
            ;
        }
    }
}

proof fn lemma_sum_le(a: Seq<Term>, b: Seq<Term>, n: nat)
    requires
        n <= a.len(),
        n <= b.len(),
        forall|i: int| 0 <= i < n ==> #[trigger] term_weight(a[i]) <= term_weight(b[i]),
    ensures
        weighted_sum(a, n) <= weighted_sum(b, n),
    decreases n,
{
    if n > 0 {
        lemma_sum_le(a, b, (n - 1) as nat);
        assert(term_weight(a[n - 1]) <= term_weight(b[n - 1]));
    }
}

proof fn lemma_term_le(s: Severity, stage: Stage, a: u64, b: u64)
    requires
        a <= b,
    ensures
        weight_of(s) * magnitude(a) * stage.tenths() <= weight_of(s) * magnitude(b)
            * stage.tenths(),
        s == Severity::Info ==> weight_of(s) * magnitude(a) * stage.tenths() == 0,
{
    if a < b {
        law_magnitude_monotonic(a, b);
    }
    let (w, t, x, y) = (weight_of(s), stage.tenths(), magnitude(a), magnitude(b));
    assert(w * x * t <= w * y * t) by (nonlinear_arith)
        requires
            w >= 0,
            t >= 0,
            x <= y,
    ;
}

proof fn lemma_dedup_prefix(s: Seq<FindingView>, f: FindingView, n: nat)
    requires
        n <= s.len(),
    ensures
        deduped(s.push(f), n) == deduped(s, n),
    decreases n,
{
    if n > 0 {
        lemma_dedup_prefix(s, f, (n - 1) as nat);
    }
}

/// The findings `b` are at least the findings `a`: each of `a` stands in its place in `b`,
/// with its confidence or a greater one.
spec fn covers(b: Seq<FindingView>, a: Seq<FindingView>) -> bool {
    &&& a.len() <= b.len()
    &&& forall|i: int|
        0 <= i < a.len() ==> (#[trigger] b[i]).severity == a[i].severity && b[i].analyzer
            == a[i].analyzer && b[i].confidence >= a[i].confidence
}

proof fn lemma_covers_weight(b: Seq<FindingView>, a: Seq<FindingView>)
    requires
        covers(b, a),
    ensures
        total_weight(a) <= weighted_sum(terms_of(b), a.len()),
{
    assert forall|i: int| 0 <= i < a.len() implies #[trigger] term_weight(terms_of(a)[i])
        <= term_weight(terms_of(b)[i]) by {
        lemma_term_le(
            b[i].severity,
            family(b[i].analyzer),
            a[i].confidence,
            b[i].confidence,
        );
    }
    lemma_sum_le(terms_of(a), terms_of(b), a.len());
}

proof fn lemma_sum_grows(t: Seq<Term>, m: nat, n: nat)
    requires
        m <= n <= t.len(),
    ensures
        weighted_sum(t, m) <= weighted_sum(t, n),
    decreases n,
{
    if m < n {
        lemma_sum_grows(t, m, (n - 1) as nat);
    }
}

proof fn lemma_covers_bonus(b: Seq<FindingView>, a: Seq<FindingView>)
    requires
        covers(b, a),
    ensures
        bonus_for(family_count(a)) <= bonus_for(family_count(b)),
        forall|stage: Stage| flags(a, stage) ==> #[trigger] flags(b, stage),
{
    assert forall|stage: Stage| flags(a, stage) implies #[trigger] flags(b, stage) by {
        let i = choose|i: int|
            0 <= i < a.len() && is_material(#[trigger] a[i]) && family(a[i].analyzer) == stage;
        assert(is_material(b[i]));
    }
    assert(flags(a, Stage::Metadata) ==> flags(b, Stage::Metadata));
    assert(flags(a, Stage::Pixel) ==> flags(b, Stage::Pixel));
    assert(flags(a, Stage::Signal) ==> flags(b, Stage::Signal));
    assert(flags(a, Stage::AiDetect) ==> flags(b, Stage::AiDetect));
    assert(flags(a, Stage::Pdf) ==> flags(b, Stage::Pdf));
}

/// One more finding never lowers the bonus.
pub proof fn law_bonus_monotonic(s: Seq<FindingView>, f: FindingView)
    ensures
        bonus_for(family_count(s)) <= bonus_for(family_count(s.push(f))),
{
    lemma_covers_bonus(s.push(f), s);
}

/// One more finding never lowers the weighted sum of a report or its bonus, also where its
/// message is already there; one that only informs changes neither.
pub proof fn law_score_monotonic(s: Seq<FindingView>, f: FindingView)
    ensures
        ({
            let a = deduped(s, s.len());
            let b = deduped(s.push(f), s.push(f).len());
            &&& total_weight(a) <= total_weight(b)
            &&& bonus_for(family_count(a)) <= bonus_for(family_count(b))
            &&& f.severity == Severity::Info ==> total_weight(a) == total_weight(b)
            &&& f.severity == Severity::Info ==> bonus_for(family_count(a)) == bonus_for(
                family_count(b),
            )
        }),
{
    let a = deduped(s, s.len());
    let b = deduped(s.push(f), s.push(f).len());
    lemma_dedup_prefix(s, f, s.len());
    assert(b == merged(a, f));
    lemma_first_same(a, f, 0);
    assert(covers(b, a));
    lemma_covers_weight(b, a);
    lemma_sum_grows(terms_of(b), a.len(), b.len());
    lemma_covers_bonus(b, a);
    if f.severity == Severity::Info {
        assert forall|i: int| 0 <= i < a.len() implies #[trigger] term_weight(terms_of(b)[i])
            <= term_weight(terms_of(a)[i]) by {
            if b[i] != a[i] {
                lemma_term_le(
                    b[i].severity,
                    family(b[i].analyzer),
                    b[i].confidence,
                    b[i].confidence,
                );
            }
        }
        lemma_sum_le(terms_of(b), terms_of(a), a.len());
        if b.len() > a.len() {
            lemma_term_le(f.severity, family(f.analyzer), f.confidence, f.confidence);
        }
        assert forall|stage: Stage| flags(b, stage) implies #[trigger] flags(a, stage) by {
            let i = choose|i: int|
                0 <= i < b.len() && is_material(#[trigger] b[i]) && family(b[i].analyzer) == stage;
            assert(i < a.len() && is_material(a[i]));
        }
        assert(flags(b, Stage::Metadata) == flags(a, Stage::Metadata));
        assert(flags(b, Stage::Pixel) == flags(a, Stage::Pixel));
        assert(flags(b, Stage::Signal) == flags(a, Stage::Signal));
        assert(flags(b, Stage::AiDetect) == flags(a, Stage::AiDetect));
        assert(flags(b, Stage::Pdf) == flags(a, Stage::Pdf));
    }
}

/// Findings that only inform add nothing to the score.
pub proof fn law_info_weighs_nothing(s: Seq<FindingView>, i: int)
    requires
        0 <= i < s.len(),
        s[i].severity == Severity::Info,
    ensures
        terms_of(s)[i].severity == 0,
{
}

/// The families of the analyzers: those of metadata, of generated content, of the signal of
/// sensors and lenses, of PDF files by how they are called, and the pixel family of all
/// others.
pub proof fn law_families(a: Seq<char>)
    ensures
        family(a) == Stage::Metadata <==> a == "metadata"@ || a == "exif_pixel"@ || a == "c2pa"@,
        family(a) == Stage::AiDetect <==> a == "frequency"@,
        family(a) == Stage::Signal <==> a == "chromatic_aberration"@ || a == "illumination"@ || a
            == "prnu"@ || a == "prnu_cross_region"@,
        family(a) == Stage::Pdf <==> begins_with(a, "pdf"@),
{
    reveal_strlit("metadata");
    reveal_strlit("exif_pixel");
    reveal_strlit("c2pa");
    reveal_strlit("frequency");
    reveal_strlit("chromatic_aberration");
    reveal_strlit("illumination");
    reveal_strlit("prnu");
    reveal_strlit("prnu_cross_region");
    reveal_strlit("pdf");
    assert("c2pa"@[0] == 'c' && "prnu"@[0] == 'p' && "prnu"@[1] == 'r');
    assert("prnu_cross_region"@[1] == 'r');
    assert("metadata"@.len() == 8 && "exif_pixel"@.len() == 10 && "frequency"@.len() == 9);
    assert("chromatic_aberration"@.len() == 20 && "illumination"@.len() == 12);
    assert("prnu"@.len() == 4 && "c2pa"@.len() == 4 && "prnu_cross_region"@.len() == 17);
    if begins_with(a, "pdf"@) {
        assert(a.subrange(0, 3)[0] == 'p');
        assert(a.subrange(0, 3)[1] == 'd');
        assert(a[0] == 'p' && a[1] == 'd');
    }
}

/// Generated content weighs most, then pixels, signals and PDF files, and metadata least; the
/// weights are 0.8 to 1.3.
pub proof fn law_family_weights(s: Stage)
    ensures
        s.tenths() == match s {
            Stage::AiDetect => 13int,
            Stage::Pixel => 12,
            Stage::Signal => 11,
            Stage::Pdf => 10,
            Stage::Metadata => 8,
        },
        weight_of(Severity::Info) == 0,
        weight_of(Severity::Low) == 10,
        weight_of(Severity::Medium) == 25,
        weight_of(Severity::High) == 50,
        weight_of(Severity::Critical) == 80,
{
}

/// A finding corroborates others where it is of medium severity or worse and its confidence
/// is more than a half.
pub proof fn law_material(f: FindingView)
    ensures
        is_material(f) <==> f.confidence >= 0x3FE0_0000_0000_0001 && f.severity != Severity::Info
            && f.severity != Severity::Low,
{
}

/// The bonus is fifteen percent for every family beyond the first, and sixty at most.
pub proof fn law_bonus(families: int)
    requires
        0 <= families <= 5,
    ensures
        bonus_for(families) == if families == 0 {
            0
        } else {
            15 * (families - 1)
        },
        families < 5 ==> bonus_for(families) <= bonus_for(families + 1) <= 60,
{
}

/// Families are counted once: material findings of one family make one, and two of different
/// families make at least two.
pub proof fn law_families_counted_once(s: Seq<FindingView>, i: int, j: int)
    requires
        0 <= i < s.len(),
        0 <= j < s.len(),
        is_material(s[i]),
        is_material(s[j]),
    ensures
        1 <= family_count(s) <= 5,
        family(s[i].analyzer) != family(s[j].analyzer) ==> family_count(s) >= 2,
        (forall|k: int|
            0 <= k < s.len() && is_material(#[trigger] s[k]) ==> family(s[k].analyzer) == family(
                s[i].analyzer,
            )) ==> family_count(s) == 1,
{
    assert(flags(s, family(s[i].analyzer)));
    assert(flags(s, family(s[j].analyzer)));
}

/// Without a material finding no family is counted, and there is no bonus.
pub proof fn law_no_material_no_bonus(s: Seq<FindingView>)
    requires
        forall|k: int| 0 <= k < s.len() ==> !is_material(#[trigger] s[k]),
    ensures
        family_count(s) == 0,
        bonus_for(family_count(s)) == 0,
{
}

/// A term holds the weight of the severity, the confidence and the weight of the family of
/// its finding, and is their product.
pub proof fn law_terms(s: Seq<FindingView>, i: int)
    requires
        0 <= i < s.len(),
    ensures
        terms_of(s).len() == s.len(),
        terms_of(s)[i].severity == weight_of(s[i].severity),
        terms_of(s)[i].confidence == s[i].confidence,
        terms_of(s)[i].stage == family(s[i].analyzer).tenths(),
{
}

/// The weights of the findings are added up: each that of its severity times its confidence
/// times that of its family.
pub proof fn law_weights_add_up(t: Seq<Term>, n: nat)
    requires
        n <= t.len(),
    ensures
        weighted_sum(t, n) == total(n, |i: int| t[i].stage * (t[i].severity * magnitude(t[i].confidence))),
    decreases n,
{
    if n > 0 {
        law_weights_add_up(t, (n - 1) as nat);
        let (a, b, c) = (
            t[n - 1].severity as int,
            magnitude(t[n - 1].confidence) as int,
            t[n - 1].stage as int,
        );
        assert(a * b * c == c * (a * b) && a * b * c >= 0) by (nonlinear_arith)
            requires
                a >= 0,
                b >= 0,
                c >= 0,
        ;
    }
}

/// A family is flagged where a finding of it is material.
pub proof fn law_flags(s: Seq<FindingView>, stage: Stage, i: int)
    ensures
        0 <= i < s.len() && is_material(s[i]) && family(s[i].analyzer) == stage ==> flags(s, stage),
        (forall|k: int|
            0 <= k < s.len() && family((#[trigger] s[k]).analyzer) == stage ==> !is_material(s[k]))
            ==> !flags(s, stage),
{
}

} // verus!
