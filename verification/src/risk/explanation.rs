//! Human-readable forensic explanation.
//!
//! Fully template-based: finding codes map to forensic categories with static
//! explanatory prose, a narrative is added when independent analyzer families
//! agree, and counter-forensic techniques are called out.

use crate::finding::Finding;
use crate::finding::FindingView;
use crate::finding::Severity;
use crate::finding::severity_max;
use crate::finding::values;
use crate::number::half_even;
use crate::number::round_half_even;
use crate::order::before;
use crate::order::law_order_exists;
use crate::order::order_of;
use crate::order::stable_order;
use crate::risk::score::copy_strings;
use crate::risk::stage::count_families;
use crate::risk::stage::family_count;
use crate::risk::topic::TOPIC_COUNT;
use crate::risk::topic::code_under;
use crate::risk::topic::falls_under;
use crate::risk::topic::name;
use crate::risk::topic::name_of;
use crate::risk::topic::prose;
use crate::risk::topic::prose_of;
use crate::select::how_many;
use crate::select::lemma_which;
use crate::select::lemma_which_are;
use crate::select::which;
use crate::text::append_decimal;
use crate::text::begins_with;
use crate::text::contains;
use crate::text::decimal_text;
use crate::text::join;
use crate::text::joined;
use crate::text::occurs_in;
use crate::text::starts_with;
use crate::text::strings;
use vstd::prelude::*;
use vstd::string::*;

verus! {

/// One category's contribution to the explanation.
#[derive(Debug, Clone, PartialEq)]
pub struct ExplanationCategory {
    pub name: String,
    pub finding_count: usize,
    pub max_severity: Severity,
    pub explanation: String,
    pub finding_codes: Vec<String>,
}

/// The value of an [`ExplanationCategory`].
pub struct ExplanationCategoryView {
    pub name: Seq<char>,
    pub finding_count: usize,
    pub max_severity: Severity,
    pub explanation: Seq<char>,
    pub finding_codes: Seq<Seq<char>>,
}

impl View for ExplanationCategory {
    type V = ExplanationCategoryView;

    open spec fn view(&self) -> ExplanationCategoryView {
        ExplanationCategoryView {
            name: self.name@,
            finding_count: self.finding_count,
            max_severity: self.max_severity,
            explanation: self.explanation@,
            finding_codes: strings(self.finding_codes@),
        }
    }
}

/// The values of a list of categories.
pub open spec fn category_values(s: Seq<ExplanationCategory>) -> Seq<ExplanationCategoryView> {
    Seq::new(s.len(), |i: int| s[i]@)
}

/// A plain-language forensic explanation of a report.
#[derive(Debug, Clone, PartialEq)]
pub struct ForensicExplanation {
    pub summary: String,
    pub visual_review: Option<String>,
    pub categories: Vec<ExplanationCategory>,
    pub cross_corroboration: Option<String>,
    pub anti_forensics_warning: Option<String>,
}

/// The value of a [`ForensicExplanation`].
pub struct ForensicExplanationView {
    pub summary: Seq<char>,
    pub visual_review: Option<Seq<char>>,
    pub categories: Seq<ExplanationCategoryView>,
    pub cross_corroboration: Option<Seq<char>>,
    pub anti_forensics_warning: Option<Seq<char>>,
}

/// The value of an optional text.
pub open spec fn optional_text(t: Option<String>) -> Option<Seq<char>> {
    match t {
        Some(s) => Some(s@),
        None => None,
    }
}

impl View for ForensicExplanation {
    type V = ForensicExplanationView;

    open spec fn view(&self) -> ForensicExplanationView {
        ForensicExplanationView {
            summary: self.summary@,
            visual_review: optional_text(self.visual_review),
            categories: category_values(self.categories@),
            cross_corroboration: optional_text(self.cross_corroboration),
            anti_forensics_warning: optional_text(self.anti_forensics_warning),
        }
    }
}

/// The codes of the findings among the first `n` that fall under a category.
pub open spec fn codes_under(s: Seq<FindingView>, topic: int, n: nat) -> Seq<Seq<char>>
    decreases n,
{
    if n == 0 {
        Seq::empty()
    } else if code_under(s[n - 1].code, topic) {
        codes_under(s, topic, (n - 1) as nat).push(s[n - 1].code)
    } else {
        codes_under(s, topic, (n - 1) as nat)
    }
}

/// The worst severity of the findings among the first `n` that fall under a category.
pub open spec fn worst_under(s: Seq<FindingView>, topic: int, n: nat) -> Severity
    decreases n,
{
    if n == 0 {
        Severity::Info
    } else if code_under(s[n - 1].code, topic) {
        severity_max(worst_under(s, topic, (n - 1) as nat), s[n - 1].severity)
    } else {
        worst_under(s, topic, (n - 1) as nat)
    }
}

/// The contribution of a category.
pub open spec fn category_view(s: Seq<FindingView>, topic: int) -> ExplanationCategoryView {
    let codes = codes_under(s, topic, s.len());
    ExplanationCategoryView {
        name: name_of(topic),
        finding_count: codes.len() as usize,
        max_severity: worst_under(s, topic, s.len()),
        explanation: prose_of(topic),
        finding_codes: codes,
    }
}

/// The contributions of the first `n` categories: those with a finding of low
/// severity or worse.
pub open spec fn unsorted_categories(s: Seq<FindingView>, n: nat) -> Seq<ExplanationCategoryView>
    decreases n,
{
    if n == 0 {
        Seq::empty()
    } else {
        let rest = unsorted_categories(s, (n - 1) as nat);
        if codes_under(s, n - 1, s.len()).len() > 0 && worst_under(s, n - 1, s.len()).level()
            >= Severity::Low.level() {
            rest.push(category_view(s, n - 1))
        } else {
            rest
        }
    }
}

/// Ordering keys that put worse severities first.
pub open spec fn severity_keys(c: Seq<ExplanationCategoryView>) -> Seq<u128> {
    Seq::new(c.len(), |i: int| (4 - c[i].max_severity.level()) as u128)
}

/// The contributions of all categories, worst first.
pub open spec fn categories_of(s: Seq<FindingView>) -> Seq<ExplanationCategoryView> {
    let c = unsorted_categories(s, TOPIC_COUNT as nat);
    Seq::new(c.len(), |i: int| c[order_of(severity_keys(c))[i] as int])
}

/// The names of the categories among the first `n` that are medium or worse.
pub open spec fn grave_names(c: Seq<ExplanationCategoryView>, n: nat) -> Seq<Seq<char>>
    decreases n,
{
    if n == 0 {
        Seq::empty()
    } else if c[n - 1].max_severity.level() >= Severity::Medium.level() {
        grave_names(c, (n - 1) as nat).push(c[n - 1].name)
    } else {
        grave_names(c, (n - 1) as nat)
    }
}

/// A list of names in prose.
pub open spec fn listed(t: Seq<Seq<char>>) -> Seq<char> {
    if t.len() <= 3 {
        joined(t, " and "@, t.len())
    } else {
        joined(t, ", "@, (t.len() - 1) as nat) + ", and "@ + t[t.len() - 1]
    }
}

/// The narrative on independent signals that agree, if two families and two
/// categories do.
pub open spec fn corroboration_of(
    s: Seq<FindingView>,
    c: Seq<ExplanationCategoryView>,
) -> Option<Seq<char>> {
    let names = grave_names(c, c.len());
    if family_count(s) < 2 || names.len() < 2 {
        None
    } else {
        Some(
            "Multiple independent forensic signals corroborate manipulation: "@ + listed(names)
                + ". When "@ + decimal_text(names.len())
                + " different analysis categories independently flag the same image, the probability of a false positive is extremely low. Each signal alone might have an innocent explanation, but their convergence strongly indicates intentional manipulation."@,
        )
    }
}

/// The counter-forensic technique that a code stands for.
pub open spec fn technique(code: Seq<char>) -> Seq<char> {
    if occurs_in(code, "median_filter"@) {
        "median filtering (smooths JPEG artifacts)"@
    } else if occurs_in(code, "noise_injection"@) {
        "noise injection (masks noise inconsistencies)"@
    } else if occurs_in(code, "histogram_equalization"@) {
        "histogram equalization (flattens statistical anomalies)"@
    } else {
        "unknown counter-forensic technique"@
    }
}

/// The counter-forensic techniques among the first `n` findings.
pub open spec fn techniques(s: Seq<FindingView>, n: nat) -> Seq<Seq<char>>
    decreases n,
{
    if n == 0 {
        Seq::empty()
    } else if begins_with(s[n - 1].code, "anti_forensics_"@) {
        techniques(s, (n - 1) as nat).push(technique(s[n - 1].code))
    } else {
        techniques(s, (n - 1) as nat)
    }
}

/// The warning about counter-forensic techniques, if there are any.
pub open spec fn warning_of(s: Seq<FindingView>) -> Option<Seq<char>> {
    let t = techniques(s, s.len());
    if t.len() == 0 {
        None
    } else {
        Some(
            "WARNING: Counter-forensic techniques detected - "@ + joined(t, "; "@, t.len())
                + ". This indicates a sophisticated actor who is aware of forensic detection methods and has deliberately attempted to conceal manipulation. The presence of anti-forensics is itself strong evidence of intentional fraud."@,
        )
    }
}

/// The findings among the first `n` that are high or worse.
pub open spec fn high_count(s: Seq<FindingView>, n: nat) -> nat
    decreases n,
{
    if n == 0 {
        0
    } else {
        high_count(s, (n - 1) as nat) + if s[n - 1].severity.level() >= Severity::High.level() {
            1nat
        } else {
            0nat
        }
    }
}

/// A risk level in a word.
pub open spec fn level_word(level: Severity) -> Seq<char> {
    match level {
        Severity::Info => "clean"@,
        Severity::Low => "minor"@,
        Severity::Medium => "moderate"@,
        Severity::High => "significant"@,
        Severity::Critical => "critical"@,
    }
}

/// A score in tenths as a whole number.
pub open spec fn score_text(tenths: int) -> Seq<char> {
    decimal_text(half_even(tenths as nat, 10))
}

/// The summary of an explanation.
pub open spec fn explanation_summary(
    s: Seq<FindingView>,
    categories: int,
    tenths: int,
    level: Severity,
    corroborated: bool,
) -> Seq<char> {
    if level.level() <= Severity::Low.level() {
        "Analysis of "@ + decimal_text(s.len()) + " forensic signals shows "@ + level_word(level)
            + " anomalies (risk score "@ + score_text(tenths)
            + "/100). No strong evidence of manipulation was found."@
    } else if corroborated {
        "Analysis detected "@ + level_word(level) + " manipulation evidence (risk score "@
            + score_text(tenths) + "/100): "@ + decimal_text(high_count(s, s.len()))
            + " high-severity findings across "@ + decimal_text(categories as nat)
            + " independent forensic categories. Multiple independent signals corroborate the detection."@
    } else {
        "Analysis detected "@ + level_word(level) + " anomalies (risk score "@ + score_text(tenths)
            + "/100): "@ + decimal_text(s.len()) + " findings with "@ + decimal_text(
            high_count(s, s.len()),
        ) + " at high severity."@
    }
}

/// The explanation of a report whose score, in tenths, and level are given.
pub open spec fn explanation_of(s: Seq<FindingView>, tenths: int, level: Severity) -> ForensicExplanationView {
    if s.len() == 0 {
        ForensicExplanationView {
            summary: "No forensic anomalies detected. The image appears authentic based on all analyzed signals."@,
            visual_review: None,
            categories: Seq::empty(),
            cross_corroboration: None,
            anti_forensics_warning: None,
        }
    } else {
        let c = categories_of(s);
        ForensicExplanationView {
            summary: explanation_summary(
                s,
                c.len() as int,
                tenths,
                level,
                corroboration_of(s, c) is Some,
            ),
            visual_review: None,
            categories: c,
            cross_corroboration: corroboration_of(s, c),
            anti_forensics_warning: warning_of(s),
        }
    }
}

impl ExplanationCategory {
    /// A copy of the category.
    pub fn duplicate(&self) -> (r: ExplanationCategory)
        ensures
            r@ == self@,
    {
        ExplanationCategory {
            name: self.name.clone(),
            finding_count: self.finding_count,
            max_severity: self.max_severity,
            explanation: self.explanation.clone(),
            finding_codes: copy_strings(&self.finding_codes),
        }
    }
}

/// The contribution of a category, if it has a finding of low severity or worse.
fn contribution(findings: &Vec<Finding>, topic: usize) -> (r: Option<ExplanationCategory>)
    requires
        topic < TOPIC_COUNT,
    ensures
        ({
            let s = values(findings@);
            match r {
                Some(c) => codes_under(s, topic as int, s.len()).len() > 0 && worst_under(
                    s,
                    topic as int,
                    s.len(),
                ).level() >= Severity::Low.level() && c@ == category_view(s, topic as int),
                None => codes_under(s, topic as int, s.len()).len() == 0 || worst_under(
                    s,
                    topic as int,
                    s.len(),
                ).level() < Severity::Low.level(),
            }
        }),
{
    let ghost s = values(findings@);
    let mut codes: Vec<String> = Vec::new();
    let mut worst = Severity::Info;
    let mut i: usize = 0;
    proof {
        assert(strings(codes@) =~= Seq::empty());
    }
    while i < findings.len()
        invariant
            i <= findings.len(),
            topic < TOPIC_COUNT,
            s == values(findings@),
            strings(codes@) == codes_under(s, topic as int, i as nat),
            worst == worst_under(s, topic as int, i as nat),
        decreases findings.len() - i,
    {
        let f = &findings[i];
        proof {
            assert(s[i as int] == f@);
        }
        if falls_under(f.code.as_str(), topic) {
            let ghost prev = codes@;
            codes.push(f.code.clone());
            proof {
                assert(strings(codes@) =~= strings(prev).push(f.code@));
            }
            if !worst.at_least(f.severity) {
                worst = f.severity;
            }
        }
        i += 1;
    }
    proof {
        assert(strings(codes@).len() == codes.len());
    }
    if codes.len() > 0 && worst.at_least(Severity::Low) {
        Some(
            ExplanationCategory {
                name: name(topic).to_string(),
                finding_count: codes.len(),
                max_severity: worst,
                explanation: prose(topic).to_string(),
                finding_codes: codes,
            },
        )
    } else {
        None
    }
}

/// Sorts findings into forensic categories, worst first.
pub fn categorize(findings: &Vec<Finding>) -> (r: Vec<ExplanationCategory>)
    ensures
        category_values(r@) == categories_of(values(findings@)),
{
    let ghost s = values(findings@);
    let mut all: Vec<ExplanationCategory> = Vec::new();
    let mut topic: usize = 0;
    proof {
        assert(category_values(all@) =~= Seq::empty());
    }
    while topic < TOPIC_COUNT
        invariant
            topic <= TOPIC_COUNT,
            s == values(findings@),
            category_values(all@) == unsorted_categories(s, topic as nat),
        decreases TOPIC_COUNT - topic,
    {
        match contribution(findings, topic) {
            Some(c) => {
                let ghost prev = all@;
                all.push(c);
                proof {
                    assert(category_values(all@) =~= category_values(prev).push(c@));
                }
            },
            None => {},
        }
        topic += 1;
    }
    let mut keys: Vec<u128> = Vec::new();
    let mut i: usize = 0;
    while i < all.len()
        invariant
            i <= all.len(),
            keys@ =~= severity_keys(category_values(all@)).take(i as int),
        decreases all.len() - i,
    {
        proof {
            assert(category_values(all@)[i as int] == all@[i as int]@);
        }
        let rank: u8 = all[i].max_severity.rank();
        keys.push((4 - rank) as u128);
        i += 1;
    }
    proof {
        assert(keys@ =~= severity_keys(category_values(all@)));
    }
    let order = stable_order(&keys);
    let mut r: Vec<ExplanationCategory> = Vec::new();
    let mut p: usize = 0;
    while p < order.len()
        invariant
            p <= order.len(),
            order.len() == all.len(),
            category_values(all@) == unsorted_categories(s, TOPIC_COUNT as nat),
            order@ == order_of(severity_keys(category_values(all@))),
            forall|j: int| 0 <= j < order.len() ==> #[trigger] order@[j] < all.len(),
            category_values(r@) =~= categories_of(s).take(p as int),
        decreases order.len() - p,
    {
        proof {
            assert(category_values(all@)[order@[p as int] as int]
                == all@[order@[p as int] as int]@);
        }
        let c = all[order[p]].duplicate();
        let ghost prev = r@;
        r.push(c);
        proof {
            assert(categories_of(s)[p as int] == c@);
            assert(category_values(r@) =~= category_values(prev).push(c@));
        }
        p += 1;
    }
    proof {
        assert(category_values(r@) =~= categories_of(s));
    }
    r
}

/// The narrative on independent signals that agree.
pub fn build_cross_corroboration(
    findings: &Vec<Finding>,
    categories: &Vec<ExplanationCategory>,
) -> (r: Option<String>)
    ensures
        optional_text(r) == corroboration_of(values(findings@), category_values(categories@)),
{
    let families: u32 = count_families(findings);
    let mut names: Vec<String> = Vec::new();
    let mut i: usize = 0;
    proof {
        assert(strings(names@) =~= Seq::empty());
    }
    while i < categories.len()
        invariant
            i <= categories.len(),
            strings(names@) == grave_names(category_values(categories@), i as nat),
        decreases categories.len() - i,
    {
        proof {
            assert(category_values(categories@)[i as int] == categories@[i as int]@);
        }
        if categories[i].max_severity.at_least(Severity::Medium) {
            let ghost prev = names@;
            names.push(categories[i].name.clone());
            proof {
                assert(strings(names@) =~= strings(prev).push(categories@[i as int].name@));
            }
        }
        i += 1;
    }
    proof {
        assert(strings(names@).len() == names.len());
    }
    if families < 2 || names.len() < 2 {
        return None;
    }
    let mut s =
        "Multiple independent forensic signals corroborate manipulation: ".to_string();
    let list: String = if names.len() <= 3 {
        join(&names, " and ", names.len())
    } else {
        let last: usize = names.len() - 1;
        let mut t = join(&names, ", ", last);
        t.append(", and ");
        proof {
            assert(strings(names@)[last as int] == names@[last as int]@);
        }
        t.append(names[last].as_str());
        t
    };
    s.append(list.as_str());
    s.append(". When ");
    append_decimal(&mut s, names.len() as u64);
    s.append(
        " different analysis categories independently flag the same image, the probability of a false positive is extremely low. Each signal alone might have an innocent explanation, but their convergence strongly indicates intentional manipulation.",
    );
    Some(s)
}

fn technique_of(code: &str) -> (r: &'static str)
    ensures
        r@ == technique(code@),
{
    if contains(code, "median_filter") {
        "median filtering (smooths JPEG artifacts)"
    } else if contains(code, "noise_injection") {
        "noise injection (masks noise inconsistencies)"
    } else if contains(code, "histogram_equalization") {
        "histogram equalization (flattens statistical anomalies)"
    } else {
        "unknown counter-forensic technique"
    }
}

/// The warning about counter-forensic techniques.
pub fn check_anti_forensics(findings: &Vec<Finding>) -> (r: Option<String>)
    ensures
        optional_text(r) == warning_of(values(findings@)),
{
    let ghost s = values(findings@);
    let mut t: Vec<String> = Vec::new();
    let mut i: usize = 0;
    proof {
        assert(strings(t@) =~= Seq::empty());
    }
    while i < findings.len()
        invariant
            i <= findings.len(),
            s == values(findings@),
            strings(t@) == techniques(s, i as nat),
        decreases findings.len() - i,
    {
        let f = &findings[i];
        proof {
            assert(s[i as int] == f@);
        }
        if starts_with(f.code.as_str(), "anti_forensics_") {
            let ghost prev = t@;
            let name = technique_of(f.code.as_str()).to_string();
            t.push(name);
            proof {
                assert(strings(t@) =~= strings(prev).push(technique(f.code@)));
            }
        }
        i += 1;
    }
    proof {
        assert(strings(t@).len() == t.len());
    }
    if t.len() == 0 {
        return None;
    }
    let mut w = "WARNING: Counter-forensic techniques detected - ".to_string();
    let list = join(&t, "; ", t.len());
    w.append(list.as_str());
    w.append(
        ". This indicates a sophisticated actor who is aware of forensic detection methods and has deliberately attempted to conceal manipulation. The presence of anti-forensics is itself strong evidence of intentional fraud.",
    );
    Some(w)
}

fn word_of(level: Severity) -> (r: &'static str)
    ensures
        r@ == level_word(level),
{
    match level {
        Severity::Info => "clean",
        Severity::Low => "minor",
        Severity::Medium => "moderate",
        Severity::High => "significant",
        Severity::Critical => "critical",
    }
}

/// The summary of an explanation.
pub fn build_summary(
    findings: &Vec<Finding>,
    categories: usize,
    risk_score: u32,
    risk_level: Severity,
    has_corroboration: bool,
) -> (r: String)
    ensures
        r@ == explanation_summary(
            values(findings@),
            categories as int,
            risk_score as int,
            risk_level,
            has_corroboration,
        ),
{
    let ghost s = values(findings@);
    let mut high: usize = 0;
    let mut i: usize = 0;
    while i < findings.len()
        invariant
            i <= findings.len(),
            high <= i,
            s == values(findings@),
            high == high_count(s, i as nat),
        decreases findings.len() - i,
    {
        proof {
            assert(s[i as int] == findings@[i as int]@);
        }
        if findings[i].severity.at_least(Severity::High) {
            high += 1;
        }
        i += 1;
    }
    let word = word_of(risk_level);
    let whole: u64 = round_half_even(risk_score as u64, 10);
    if !risk_level.at_least(Severity::Medium) {
        let mut t = "Analysis of ".to_string();
        append_decimal(&mut t, findings.len() as u64);
        t.append(" forensic signals shows ");
        t.append(word);
        t.append(" anomalies (risk score ");
        append_decimal(&mut t, whole);
        t.append("/100). No strong evidence of manipulation was found.");
        t
    } else if has_corroboration {
        let mut t = "Analysis detected ".to_string();
        t.append(word);
        t.append(" manipulation evidence (risk score ");
        append_decimal(&mut t, whole);
        t.append("/100): ");
        append_decimal(&mut t, high as u64);
        t.append(" high-severity findings across ");
        append_decimal(&mut t, categories as u64);
        t.append(
            " independent forensic categories. Multiple independent signals corroborate the detection.",
        );
        t
    } else {
        let mut t = "Analysis detected ".to_string();
        t.append(word);
        t.append(" anomalies (risk score ");
        append_decimal(&mut t, whole);
        t.append("/100): ");
        append_decimal(&mut t, findings.len() as u64);
        t.append(" findings with ");
        append_decimal(&mut t, high as u64);
        t.append(" at high severity.");
        t
    }
}

/// Generate a template-based forensic explanation from findings and score. The score
/// is in tenths.
pub fn explain(findings: &Vec<Finding>, risk_score: u32, risk_level: Severity) -> (r:
    ForensicExplanation)
    ensures
        r@ == explanation_of(values(findings@), risk_score as int, risk_level),
{
    if findings.len() == 0 {
        let categories: Vec<ExplanationCategory> = Vec::new();
        proof {
            assert(category_values(categories@) =~= Seq::empty());
        }
        return ForensicExplanation {
            summary: "No forensic anomalies detected. The image appears authentic based on all analyzed signals.".to_string(),
            visual_review: None,
            categories,
            cross_corroboration: None,
            anti_forensics_warning: None,
        };
    }
    let categories = categorize(findings);
    let cross_corroboration = build_cross_corroboration(findings, &categories);
    let anti_forensics_warning = check_anti_forensics(findings);
    let summary = build_summary(
        findings,
        categories.len(),
        risk_score,
        risk_level,
        cross_corroboration.is_some(),
    );
    ForensicExplanation {
        summary,
        visual_review: None,
        categories,
        cross_corroboration,
        anti_forensics_warning,
    }
}

/// The codes that a category lists are those of the findings that fall under it, in their
/// order.
pub proof fn law_codes_under(s: Seq<FindingView>, topic: int, n: nat)
    requires
        n <= s.len(),
    ensures
        codes_under(s, topic, n) == which(n, |i: int| code_under(s[i].code, topic)).map_values(|i: int| s[i].code),
    decreases n,
{
    let p = |i: int| code_under(s[i].code, topic);
    let f = |i: int| s[i].code;
    lemma_which(0, p);
    if n > 0 {
        let lower = (n - 1) as nat;
        law_codes_under(s, topic, lower);
        lemma_which(lower, p);
        assert(which(n, p).map_values(f) =~= if p(lower as int) {
            which(lower, p).map_values(f).push(f(lower as int))
        } else {
            which(lower, p).map_values(f)
        });
    } else {
        assert(which(0, p).map_values(f) =~= Seq::<Seq<char>>::empty());
    }
}

/// The names that a narrative lists are those of the categories that are medium, high or
/// critical.
pub proof fn law_grave_names(c: Seq<ExplanationCategoryView>, n: nat)
    requires
        n <= c.len(),
    ensures
        grave_names(c, n) == which(n, |i: int| c[i].max_severity != Severity::Info && c[i].max_severity != Severity::Low).map_values(|i: int| c[i].name),
    decreases n,
{
    let p = |i: int| c[i].max_severity != Severity::Info && c[i].max_severity != Severity::Low;
    let f = |i: int| c[i].name;
    lemma_which(0, p);
    if n > 0 {
        let lower = (n - 1) as nat;
        law_grave_names(c, lower);
        lemma_which(lower, p);
        assert(which(n, p).map_values(f) =~= if p(lower as int) {
            which(lower, p).map_values(f).push(f(lower as int))
        } else {
            which(lower, p).map_values(f)
        });
    } else {
        assert(which(0, p).map_values(f) =~= Seq::<Seq<char>>::empty());
    }
}

/// The findings that a summary counts are those of high or critical severity.
pub proof fn law_high_findings(s: Seq<FindingView>, n: nat)
    requires
        n <= s.len(),
    ensures
        high_count(s, n) == how_many(n, |i: int| s[i].severity == Severity::High || s[i].severity == Severity::Critical),
    decreases n,
{
    let p = |i: int| s[i].severity == Severity::High || s[i].severity == Severity::Critical;
    lemma_which(0, p);
    if n > 0 {
        law_high_findings(s, (n - 1) as nat);
        lemma_which((n - 1) as nat, p);
    }
}

/// Every finding on counter-forensics names a technique, and no other does.
pub proof fn law_techniques(s: Seq<FindingView>, n: nat)
    requires
        n <= s.len(),
    ensures
        techniques(s, n) == which(n, |i: int| begins_with(s[i].code, "anti_forensics_"@)).map_values(|i: int| technique(s[i].code)),
    decreases n,
{
    let p = |i: int| begins_with(s[i].code, "anti_forensics_"@);
    let f = |i: int| technique(s[i].code);
    lemma_which(0, p);
    if n > 0 {
        let lower = (n - 1) as nat;
        law_techniques(s, lower);
        lemma_which(lower, p);
        assert(which(n, p).map_values(f) =~= if p(lower as int) {
            which(lower, p).map_values(f).push(f(lower as int))
        } else {
            which(lower, p).map_values(f)
        });
    } else {
        assert(which(0, p).map_values(f) =~= Seq::<Seq<char>>::empty());
    }
}

/// The categories that are explained are those with a finding that is more than
/// informative.
pub proof fn law_categories_listed(s: Seq<FindingView>, n: nat)
    ensures
        unsorted_categories(s, n) == which(n, |i: int| codes_under(s, i, s.len()).len() != 0 && worst_under(s, i, s.len()) != Severity::Info).map_values(|i: int| category_view(s, i)),
    decreases n,
{
    let p = |i: int| codes_under(s, i, s.len()).len() != 0 && worst_under(s, i, s.len()) != Severity::Info;
    let f = |i: int| category_view(s, i);
    lemma_which(0, p);
    if n > 0 {
        let lower = (n - 1) as nat;
        law_categories_listed(s, lower);
        lemma_which(lower, p);
        assert(which(n, p).map_values(f) =~= if p(lower as int) {
            which(lower, p).map_values(f).push(f(lower as int))
        } else {
            which(lower, p).map_values(f)
        });
    } else {
        assert(which(0, p).map_values(f) =~= Seq::<ExplanationCategoryView>::empty());
    }
}

/// The severity of a category is the worst of its findings.
pub proof fn law_worst_under(s: Seq<FindingView>, topic: int, n: nat, i: int)
    requires
        0 <= i < n <= s.len(),
        code_under(s[i].code, topic),
    ensures
        s[i].severity.level() <= worst_under(s, topic, n).level(),
        exists|j: int|
            0 <= j < n && code_under((#[trigger] s[j]).code, topic) && s[j].severity == worst_under(
                s,
                topic,
                n,
            ),
    decreases n,
{
    let m = (n - 1) as nat;
    if i < m {
        law_worst_under(s, topic, m, i);
        let j = choose|j: int|
            0 <= j < m && code_under((#[trigger] s[j]).code, topic) && s[j].severity == worst_under(
                s,
                topic,
                m,
            );
        assert(s[j].severity == worst_under(s, topic, n) || s[n - 1].severity == worst_under(
            s,
            topic,
            n,
        ));
    } else {
        lemma_worst_source(s, topic, m);
        if worst_under(s, topic, n) == s[n - 1].severity {
            assert(s[n - 1].severity == worst_under(s, topic, n));
        } else {
            let j = choose|j: int|
                0 <= j < m && code_under((#[trigger] s[j]).code, topic) && s[j].severity
                    == worst_under(s, topic, m);
            assert(s[j].severity == worst_under(s, topic, n));
        }
    }
}

proof fn lemma_worst_source(s: Seq<FindingView>, topic: int, n: nat)
    requires
        n <= s.len(),
    ensures
        worst_under(s, topic, n) != Severity::Info ==> exists|j: int|
            0 <= j < n && code_under((#[trigger] s[j]).code, topic) && s[j].severity == worst_under(
                s,
                topic,
                n,
            ),
    decreases n,
{
    if n > 0 {
        let m = (n - 1) as nat;
        lemma_worst_source(s, topic, m);
        if worst_under(s, topic, n) != Severity::Info {
            if worst_under(s, topic, n) == worst_under(s, topic, m) {
                let j = choose|j: int|
                    0 <= j < m && code_under((#[trigger] s[j]).code, topic) && s[j].severity
                        == worst_under(s, topic, m);
                assert(s[j].severity == worst_under(s, topic, n));
            } else {
                assert(s[n - 1].severity == worst_under(s, topic, n));
            }
        }
    }
}

/// Categories are explained worst first, and none is lost.
pub proof fn law_categories_sorted(s: Seq<FindingView>, i: int, j: int)
    requires
        0 <= i <= j < categories_of(s).len(),
    ensures
        categories_of(s)[i].max_severity.level() >= categories_of(s)[j].max_severity.level(),
        categories_of(s).len() == unsorted_categories(s, 12).len(),
        unsorted_categories(s, 12).contains(categories_of(s)[i]),
        categories_of(s).contains(unsorted_categories(s, 12)[i]),
{
    let c = unsorted_categories(s, 12);
    law_categories_listed(s, 12);
    lemma_which_are(
        12,
        |i: int| codes_under(s, i, s.len()).len() != 0 && worst_under(s, i, s.len()) != Severity::Info,
    );
    let keys = severity_keys(c);
    law_order_exists(keys);
    let o = order_of(keys);
    if i < j {
        assert(before(keys, o[i] as int, o[j] as int));
    }
    assert(o.contains(i as usize));
    let k = o.index_of(i as usize);
    assert(categories_of(s)[k] == c[i]);
    assert(categories_of(s)[i] == c[o[i] as int]);
}

/// A narrative of corroboration is given where two families and two graver categories agree.
pub proof fn law_when_corroborated(s: Seq<FindingView>, c: Seq<ExplanationCategoryView>)
    ensures
        corroboration_of(s, c) is Some <==> family_count(s) > 1 && how_many(
            c.len(),
            |i: int| c[i].max_severity != Severity::Info && c[i].max_severity != Severity::Low,
        ) > 1,
{
    law_grave_names(c, c.len());
}

/// A warning of counter-forensics is given where a finding on them is there.
pub proof fn law_when_warned(s: Seq<FindingView>)
    ensures
        warning_of(s) is Some <==> exists|i: int|
            0 <= i < s.len() && begins_with((#[trigger] s[i]).code, "anti_forensics_"@),
{
    let p = |i: int| begins_with(s[i].code, "anti_forensics_"@);
    law_techniques(s, s.len());
    lemma_which_are(s.len(), p);
    if exists|i: int| 0 <= i < s.len() && begins_with((#[trigger] s[i]).code, "anti_forensics_"@) {
        let i = choose|i: int|
            0 <= i < s.len() && begins_with((#[trigger] s[i]).code, "anti_forensics_"@);
        assert(p(i));
    } else if which(s.len(), p).len() > 0 {
        assert(p(which(s.len(), p)[0]));
    }
}

/// The summary of an explanation denies strong evidence just at the levels of information and
/// low risk; a report without findings is authentic.
pub proof fn law_explanation_agrees_with_level(s: Seq<FindingView>, tenths: int, level: Severity)
    ensures
        ({
            let t = explanation_of(s, tenths, level).summary;
            &&& s.len() == 0 ==> t
                == "No forensic anomalies detected. The image appears authentic based on all analyzed signals."@
            &&& s.len() > 0 ==> (begins_with(t, "Analysis of "@) <==> level == Severity::Info || level
                == Severity::Low)
            &&& s.len() > 0 ==> (begins_with(t, "Analysis detected "@) <==> level != Severity::Info
                && level != Severity::Low)
        }),
{
    let t = explanation_of(s, tenths, level).summary;
    reveal_strlit("Analysis of ");
    reveal_strlit("Analysis detected ");
    if s.len() > 0 {
        assert("Analysis of "@[9] == 'o' && "Analysis detected "@[9] == 'd');
        if begins_with(t, "Analysis of "@) {
            assert(t.subrange(0, 12)[9] == t[9]);
        }
        if begins_with(t, "Analysis detected "@) {
            assert(t.subrange(0, 18)[9] == t[9]);
        }
        if level == Severity::Info || level == Severity::Low {
            assert(t.subrange(0, 12) =~= "Analysis of "@);
        } else {
            assert(t.subrange(0, 18) =~= "Analysis detected "@);
        }
    }
}

/// A score is shown without decimals, rounded to the nearest whole number.
pub proof fn law_score_text(tenths: nat)
    ensures
        score_text(10 * tenths as int) == decimal_text(tenths),
        exists|v: nat|
            score_text(tenths as int) == #[trigger] decimal_text(v) && 10 * v <= tenths + 5 && tenths
                <= 10 * v + 5,
{
    let v = half_even(tenths, 10);
    assert(score_text(tenths as int) == decimal_text(v));
}

/// Up to three names are joined with "and"; more with commas, and "and" before the last.
pub proof fn law_listed(t: Seq<Seq<char>>)
    ensures
        t.len() == 1 ==> listed(t) == t[0],
        t.len() == 2 ==> listed(t) == t[0] + " and "@ + t[1],
        t.len() == 3 ==> listed(t) == t[0] + " and "@ + t[1] + " and "@ + t[2],
        t.len() == 4 ==> listed(t) == t[0] + ", "@ + t[1] + ", "@ + t[2] + ", and "@ + t[3],
        t.len() > 3 ==> listed(t) == joined(t, ", "@, (t.len() - 1) as nat) + ", and "@ + t.last(),
{
    reveal_with_fuel(joined, 4);
}

/// The word for each level.
pub proof fn law_level_words(s: Seq<FindingView>, categories: int, tenths: int, corroborated: bool)
    ensures
        level_word(Severity::Info) == "clean"@,
        level_word(Severity::Low) == "minor"@,
        level_word(Severity::Medium) == "moderate"@,
        level_word(Severity::High) == "significant"@,
        level_word(Severity::Critical) == "critical"@,
        explanation_summary(s, categories, tenths, Severity::Low, corroborated) == "Analysis of "@
            + decimal_text(s.len()) + " forensic signals shows "@ + "minor"@
            + " anomalies (risk score "@ + score_text(tenths)
            + "/100). No strong evidence of manipulation was found."@,
        explanation_summary(s, categories, tenths, Severity::Medium, true) == "Analysis detected "@
            + "moderate"@ + " manipulation evidence (risk score "@ + score_text(tenths) + "/100): "@
            + decimal_text(high_count(s, s.len())) + " high-severity findings across "@
            + decimal_text(categories as nat)
            + " independent forensic categories. Multiple independent signals corroborate the detection."@,
        explanation_summary(s, categories, tenths, Severity::Critical, false)
            == "Analysis detected "@ + "critical"@ + " anomalies (risk score "@ + score_text(tenths)
            + "/100): "@ + decimal_text(s.len()) + " findings with "@ + decimal_text(
            high_count(s, s.len()),
        ) + " at high severity."@,
{
}

} // verus!
