//! PDF structural forensics: incremental saves, rebuilt cross-reference sections, metadata
//! consistency, scanner and editor tool chains, JavaScript and open actions, editable form
//! fields, and known editors.

use crate::bits::P50;
use crate::bits::P60;
use crate::bits::P70;
use crate::bits::P75;
use crate::bits::P80;
use crate::bits::P90;
use crate::context::Tag;
use crate::finding::Finding;
use crate::finding::FindingView;
use crate::finding::Severity;
use crate::finding::group_values;
use crate::finding::plain_finding;
use crate::finding::values;
use crate::metadata::exif_pixel::tag_value;
use crate::metadata::exif_pixel::value_of;
use crate::select::how_many;
use crate::select::lemma_which;
use crate::text::any_in;
use crate::text::append_decimal;
use crate::text::chars_contain;
use crate::text::chars_match_at;
use crate::text::chars_of;
use crate::text::contains_any;
use crate::text::decimal_text;
use crate::text::join;
use crate::text::joined;
use crate::text::occurs_at;
use crate::text::occurs_in;
use crate::text::same_text;
use crate::text::strings;
use crate::text::texts;
use crate::unicode::lossy;
use crate::unicode::lossy_chars;
use crate::unicode::lowercase;
use crate::unicode::lowered;
use vstd::prelude::*;
use vstd::string::*;

verus! {

/// The PDF structure analyzer.
pub struct PdfStructureAnalyzer;

/// A field of a form: its full name and, where it is filled, its value.
pub struct FormField {
    pub full_name: String,
    pub value: Option<String>,
}

/// An interactive form.
pub struct Form {
    pub fields: Vec<FormField>,
    /// Whether viewers are told to draw the fields anew.
    pub need_appearances: bool,
}

/// How often a text occurs from position `i` on, without overlaps.
pub open spec fn matches_from(t: Seq<char>, needle: Seq<char>, i: int) -> nat
    decreases t.len() - i,
{
    if i < 0 || needle.len() == 0 || i + needle.len() > t.len() {
        0
    } else if occurs_at(t, needle, i) {
        1 + matches_from(t, needle, i + needle.len())
    } else {
        matches_from(t, needle, i + 1)
    }
}

/// Counts how often a text occurs, without overlaps.
pub fn count_matches(t: &Vec<char>, needle: &Vec<char>) -> (r: usize)
    requires
        needle@.len() > 0,
    ensures
        r == matches_from(t@, needle@, 0),
        r * needle@.len() <= t@.len(),
{
    let mut c: usize = 0;
    let mut i: usize = 0;
    while i < t.len() && needle.len() <= t.len() - i
        invariant
            needle@.len() > 0,
            c * needle@.len() <= i <= t@.len(),
            c <= i,
            c + matches_from(t@, needle@, i as int) == matches_from(t@, needle@, 0),
        decreases t@.len() - i,
    {
        if chars_match_at(t, needle, i) {
            assert((c + 1) * needle@.len() == c * needle@.len() + needle@.len())
                by (nonlinear_arith);
            c += 1;
            i += needle.len();
        } else {
            i += 1;
        }
    }
    c
}

/// The number of end-of-file markers.
pub open spec fn eof_count(t: Seq<char>) -> nat {
    matches_from(t, "%%EOF"@, 0)
}

/// The number of cross-reference sections.
pub open spec fn xref_count(t: Seq<char>) -> nat {
    matches_from(t, "xref"@, 0) + matches_from(t, "/Type /XRef"@, 0)
}

/// The finding of incremental saves.
pub open spec fn save_findings(t: Seq<char>) -> Seq<FindingView> {
    let eof = eof_count(t);
    let xref = xref_count(t);
    let saves = decimal_text((eof - 1) as nat);
    if eof > 1 {
        seq![
            plain_finding(
                "pdf_structure"@,
                "pdf_incremental_saves"@,
                "PDF has "@ + saves + " incremental save(s) ("@ + decimal_text(eof)
                    + " %%EOF markers, "@ + decimal_text(xref)
                    + " xref sections) - document was edited and re-saved "@ + saves
                    + " time(s) after initial creation"@,
                if eof > 2 {
                    Severity::High
                } else {
                    Severity::Medium
                },
                P80,
            ),
        ]
    } else if xref > 1 && eof == 1 {
        seq![
            plain_finding(
                "pdf_structure"@,
                "pdf_rebuilt_xref"@,
                "PDF has "@ + decimal_text(xref)
                    + " xref sections but only 1 %%EOF - document structure was rebuilt, possibly to hide editing history"@,
                Severity::Medium,
                P60,
            ),
        ]
    } else {
        seq![]
    }
}

/// The value of the first tag that has one of two names, from tag `i` on.
pub open spec fn either_from(tags: Seq<Tag>, a: Seq<char>, b: Seq<char>, i: int) -> Option<
    Seq<char>,
>
    decreases tags.len() - i,
{
    if i < 0 || i >= tags.len() {
        None
    } else if tags[i].name@ == a || tags[i].name@ == b {
        Some(tags[i].value@)
    } else {
        either_from(tags, a, b, i + 1)
    }
}

/// The finding of dates that differ.
pub open spec fn date_findings(tags: Seq<Tag>) -> Seq<FindingView> {
    match (
        either_from(tags, "CreateDate"@, "CreationDate"@, 0),
        either_from(tags, "ModDate"@, "ModifyDate"@, 0),
    ) {
        (Some(c), Some(m)) => if c != m {
            seq![
                plain_finding(
                    "pdf_structure"@,
                    "pdf_dates_differ"@,
                    "PDF creation date ("@ + c + ") differs from modification date ("@ + m
                        + ") - document was modified after initial creation"@,
                    Severity::Low,
                    P70,
                ),
            ]
        } else {
            seq![]
        },
        _ => seq![],
    }
}

/// Words in the names of scanners.
pub open spec fn scanners() -> Seq<Seq<char>> {
    seq!["scan"@, "epson"@, "canon"@, "hp "@, "xerox"@, "brother"@, "fujitsu"@]
}

/// Words in the names of editors.
pub open spec fn editors() -> Seq<Seq<char>> {
    seq!["acrobat"@, "pdf-xchange"@, "foxit"@, "nitro"@, "smallpdf"@, "ilovepdf"@]
}

/// The finding of a scan that went through an editor.
pub open spec fn chain_findings(tags: Seq<Tag>) -> Seq<FindingView> {
    match (value_of(tags, "Creator"@), value_of(tags, "Producer"@)) {
        (Some(c), Some(p)) => if any_in(lowercase(c), scanners()) && any_in(
            lowercase(p),
            editors(),
        ) {
            seq![
                plain_finding(
                    "pdf_structure"@,
                    "pdf_scanner_then_editor"@,
                    "PDF created by scanner ('"@ + c + "') but processed by editor ('"@ + p
                        + "') - scanned document was subsequently edited"@,
                    Severity::High,
                    P75,
                ),
            ]
        } else {
            seq![]
        },
        _ => seq![],
    }
}

/// Whether a tag says that a file has scripts.
pub open spec fn says_script(t: Tag) -> bool {
    t.name@ == "JavaScript"@ && t.value@ == "Yes"@
}

/// Whether a file has scripts.
pub open spec fn has_script(t: Seq<char>, tags: Seq<Tag>) -> bool {
    occurs_in(t, "/JS "@) || occurs_in(t, "/JavaScript"@) || occurs_in(t, "/Type /Action"@) || (
    exists|i: int| 0 <= i < tags.len() && says_script(#[trigger] tags[i]))
}

/// The findings of scripts and of an action on opening.
pub open spec fn script_findings(t: Seq<char>, tags: Seq<Tag>) -> Seq<FindingView> {
    let a = if has_script(t, tags) {
        seq![
            plain_finding(
                "pdf_structure"@,
                "pdf_contains_javascript"@,
                "PDF contains JavaScript - can be used to dynamically alter displayed content, hide information, or execute code"@,
                Severity::High,
                P90,
            ),
        ]
    } else {
        seq![]
    };
    let b = if occurs_in(t, "/OpenAction"@) {
        seq![
            plain_finding(
                "pdf_structure"@,
                "pdf_open_action"@,
                "PDF has an OpenAction - code executes automatically when opened"@,
                Severity::Medium,
                P80,
            ),
        ]
    } else {
        seq![]
    };
    a + b
}

/// How many of the first `n` fields are filled.
pub open spec fn filled(f: Seq<FormField>, n: nat) -> nat
    decreases n,
{
    if n == 0 {
        0
    } else {
        filled(f, (n - 1) as nat) + if f[n - 1].value is Some {
            1nat
        } else {
            0
        }
    }
}

/// The names and values of at most five of the first `n` fields that are filled.
pub open spec fn first_filled(f: Seq<FormField>, n: nat) -> Seq<Seq<char>>
    decreases n,
{
    if n == 0 {
        seq![]
    } else {
        let before = first_filled(f, (n - 1) as nat);
        match f[n - 1].value {
            Some(v) => if before.len() < 5 {
                before.push(f[n - 1].full_name@ + "='"@ + v@ + "'"@)
            } else {
                before
            },
            None => before,
        }
    }
}

/// The findings on a form.
pub open spec fn form_findings(form: Option<Form>) -> Seq<FindingView> {
    match form {
        Some(f) => {
            let n = filled(f.fields@, f.fields@.len());
            let names = first_filled(f.fields@, f.fields@.len());
            let a = if n > 0 {
                seq![
                    plain_finding(
                        "pdf_structure"@,
                        "pdf_filled_form_fields"@,
                        "PDF contains "@ + decimal_text(n) + " filled form field(s): "@ + joined(
                            names,
                            ", "@,
                            names.len(),
                        ) + " - form fields can be modified after document creation"@,
                        Severity::Low,
                        P50,
                    ),
                ]
            } else {
                seq![]
            };
            let b = if f.need_appearances {
                seq![
                    plain_finding(
                        "pdf_structure"@,
                        "pdf_editable_forms"@,
                        "PDF form fields are not flattened (NeedAppearances=true) - field values can be modified by any PDF viewer"@,
                        Severity::Medium,
                        P70,
                    ),
                ]
            } else {
                seq![]
            };
            a + b
        },
        None => seq![],
    }
}

/// Words in the names of known editors.
pub open spec fn known_editors() -> Seq<Seq<char>> {
    seq![
        "smallpdf"@,
        "ilovepdf"@,
        "sejda"@,
        "pdf2go"@,
        "pdfcandy"@,
        "pdfescape"@,
        "pdf-xchange"@,
        "phantompdf"@,
        "master pdf"@,
    ]
}

/// What a known editor is.
pub open spec fn editor_kind(k: int) -> Seq<char> {
    if k < 5 {
        "online PDF editor"@
    } else if k == 5 {
        "online PDF form editor"@
    } else {
        "PDF editing software"@
    }
}

/// The first known editor from number `k` on whose word occurs in a text.
pub open spec fn editor_from(t: Seq<char>, k: int) -> Option<int>
    decreases known_editors().len() - k,
{
    if k < 0 || k >= known_editors().len() {
        None
    } else if occurs_in(t, known_editors()[k]) {
        Some(k)
    } else {
        editor_from(t, k + 1)
    }
}

/// The tool that made a file: its producer, or else its creator.
pub open spec fn tool_of(tags: Seq<Tag>) -> Seq<char> {
    match value_of(tags, "Producer"@) {
        Some(p) => p,
        None => match value_of(tags, "Creator"@) {
            Some(c) => c,
            None => ""@,
        },
    }
}

/// The finding of a known editor.
pub open spec fn tool_findings(tags: Seq<Tag>) -> Seq<FindingView> {
    let tool = tool_of(tags);
    match editor_from(lowercase(tool), 0) {
        Some(k) => seq![
            plain_finding(
                "pdf_structure"@,
                "pdf_editing_tool"@,
                "PDF processed with "@ + editor_kind(k) + " ('"@ + tool
                    + "') - document was edited using "@ + editor_kind(k),
                Severity::Medium,
                P70,
            ),
        ],
        None => seq![],
    }
}

/// Finds the first tag with one of two names.
fn either_value(tags: &Vec<Tag>, a: &str, b: &str) -> (r: Option<String>)
    ensures
        match r {
            Some(s) => either_from(tags@, a@, b@, 0) == Some(s@),
            None => either_from(tags@, a@, b@, 0) is None,
        },
{
    let mut i: usize = 0;
    while i < tags.len()
        invariant
            i <= tags@.len(),
            either_from(tags@, a@, b@, 0) == either_from(tags@, a@, b@, i as int),
        decreases tags@.len() - i,
    {
        if same_text(tags[i].name.as_str(), a) || same_text(tags[i].name.as_str(), b) {
            return Some(tags[i].value.as_str().to_string());
        }
        i += 1;
    }
    None
}

impl PdfStructureAnalyzer {
    /// Checks for incremental saves and rebuilt cross-reference sections.
    pub fn check_incremental_saves(&self, t: &Vec<char>, findings: &mut Vec<Finding>)
        ensures
            values(final(findings)@) == values(old(findings)@) + save_findings(t@),
    {
        broadcast use group_values;

        proof {
            reveal_strlit("%%EOF");
            reveal_strlit("xref");
            reveal_strlit("/Type /XRef");
        }
        let eof: u64 = count_matches(t, &chars_of("%%EOF")) as u64;
        let plain: usize = count_matches(t, &chars_of("xref"));
        let typed: usize = count_matches(t, &chars_of("/Type /XRef"));
        assert(t.len() <= usize::MAX);
        let xref: u64 = plain as u64 + typed as u64;
        if eof > 1 {
            let mut d = "PDF has ".to_string();
            append_decimal(&mut d, eof - 1);
            d.append(" incremental save(s) (");
            append_decimal(&mut d, eof);
            d.append(" %%EOF markers, ");
            append_decimal(&mut d, xref);
            d.append(" xref sections) - document was edited and re-saved ");
            append_decimal(&mut d, eof - 1);
            d.append(" time(s) after initial creation");
            let severity = if eof > 2 {
                Severity::High
            } else {
                Severity::Medium
            };
            findings.push(
                Finding::new("pdf_structure", "pdf_incremental_saves", d, severity, P80),
            );
        }
        if xref > 1 && eof == 1 {
            let mut d = "PDF has ".to_string();
            append_decimal(&mut d, xref);
            d.append(
                " xref sections but only 1 %%EOF - document structure was rebuilt, possibly to hide editing history",
            );
            findings.push(
                Finding::new("pdf_structure", "pdf_rebuilt_xref", d, Severity::Medium, P60),
            );
        }
        assert(values(findings@) =~= values(old(findings)@) + save_findings(t@));
    }

    /// Checks the dates, and the tools that a file went through.
    pub fn check_metadata_consistency(&self, tags: &Vec<Tag>, findings: &mut Vec<Finding>)
        ensures
            values(final(findings)@) == values(old(findings)@) + date_findings(tags@)
                + chain_findings(tags@),
    {
        broadcast use group_values;

        let create = either_value(tags, "CreateDate", "CreationDate");
        let modify = either_value(tags, "ModDate", "ModifyDate");
        if let Some(c) = create {
            if let Some(m) = modify {
                if !same_text(c.as_str(), m.as_str()) {
                    let mut d = "PDF creation date (".to_string();
                    d.append(c.as_str());
                    d.append(") differs from modification date (");
                    d.append(m.as_str());
                    d.append(") - document was modified after initial creation");
                    findings.push(
                        Finding::new("pdf_structure", "pdf_dates_differ", d, Severity::Low, P70),
                    );
                }
            }
        }
        assert(values(findings@) =~= values(old(findings)@) + date_findings(tags@));
        let creator = tag_value(tags, "Creator");
        let producer = tag_value(tags, "Producer");
        if let Some(c) = creator {
            if let Some(p) = producer {
                let cv = lowered(c.as_str());
                let cv = chars_of(cv.as_str());
                let pv = lowered(p.as_str());
                let pv = chars_of(pv.as_str());
                let s: Vec<&'static str> = vec![
                    "scan", "epson", "canon", "hp ", "xerox", "brother", "fujitsu",
                ];
                let e: Vec<&'static str> = vec![
                    "acrobat", "pdf-xchange", "foxit", "nitro", "smallpdf", "ilovepdf",
                ];
                assert(texts(s@) =~= scanners());
                assert(texts(e@) =~= editors());
                if contains_any(&cv, &s) && contains_any(&pv, &e) {
                    let mut d = "PDF created by scanner ('".to_string();
                    d.append(c.as_str());
                    d.append("') but processed by editor ('");
                    d.append(p.as_str());
                    d.append("') - scanned document was subsequently edited");
                    findings.push(
                        Finding::new(
                            "pdf_structure",
                            "pdf_scanner_then_editor",
                            d,
                            Severity::High,
                            P75,
                        ),
                    );
                }
            }
        }
        assert(values(findings@) =~= values(old(findings)@) + date_findings(tags@)
            + chain_findings(tags@));
    }

    /// Checks for scripts and for an action on opening.
    pub fn check_javascript(&self, t: &Vec<char>, tags: &Vec<Tag>, findings: &mut Vec<Finding>)
        ensures
            values(final(findings)@) == values(old(findings)@) + script_findings(t@, tags@),
    {
        broadcast use group_values;

        let mut tagged = false;
        let mut i: usize = 0;
        while i < tags.len()
            invariant
                i <= tags@.len(),
                tagged == exists|j: int| 0 <= j < i && says_script(#[trigger] tags@[j]),
            decreases tags@.len() - i,
        {
            if same_text(tags[i].name.as_str(), "JavaScript") && same_text(
                tags[i].value.as_str(),
                "Yes",
            ) {
                assert(says_script(tags@[i as int]));
                tagged = true;
            }
            i += 1;
        }
        if chars_contain(t, &chars_of("/JS ")) || chars_contain(t, &chars_of("/JavaScript"))
            || chars_contain(t, &chars_of("/Type /Action")) || tagged {
            let d =
                "PDF contains JavaScript - can be used to dynamically alter displayed content, hide information, or execute code".to_string();
            findings.push(
                Finding::new("pdf_structure", "pdf_contains_javascript", d, Severity::High, P90),
            );
        }
        if chars_contain(t, &chars_of("/OpenAction")) {
            let d = "PDF has an OpenAction - code executes automatically when opened".to_string();
            findings.push(
                Finding::new("pdf_structure", "pdf_open_action", d, Severity::Medium, P80),
            );
        }
        assert(values(findings@) =~= values(old(findings)@) + script_findings(t@, tags@));
    }

    /// Checks the form of a file, if it has one.
    pub fn check_form_fields(&self, form: &Option<Form>, findings: &mut Vec<Finding>)
        ensures
            values(final(findings)@) == values(old(findings)@) + form_findings(*form),
    {
        broadcast use group_values;

        if let Some(f) = form {
            let mut n: u64 = 0;
            let mut names: Vec<String> = Vec::new();
            let mut i: usize = 0;
            assert(strings(names@) =~= first_filled(f.fields@, 0));
            while i < f.fields.len()
                invariant
                    i <= f.fields@.len(),
                    n <= i,
                    n == filled(f.fields@, i as nat),
                    strings(names@) == first_filled(f.fields@, i as nat),
                decreases f.fields@.len() - i,
            {
                if let Some(v) = &f.fields[i].value {
                    n += 1;
                    assert(strings(names@).len() == names@.len());
                    if names.len() < 5 {
                        let ghost before = names@;
                        let mut s = f.fields[i].full_name.as_str().to_string();
                        s.append("='");
                        s.append(v.as_str());
                        s.append("'");
                        names.push(s);
                        assert(strings(names@) =~= strings(before).push(s@));
                    }
                }
                i += 1;
            }
            assert(strings(names@).len() == names@.len());
            if n > 0 {
                let mut d = "PDF contains ".to_string();
                append_decimal(&mut d, n);
                d.append(" filled form field(s): ");
                let list = join(&names, ", ", names.len());
                d.append(list.as_str());
                d.append(" - form fields can be modified after document creation");
                findings.push(
                    Finding::new("pdf_structure", "pdf_filled_form_fields", d, Severity::Low, P50),
                );
            }
            if f.need_appearances {
                let d =
                    "PDF form fields are not flattened (NeedAppearances=true) - field values can be modified by any PDF viewer".to_string();
                findings.push(
                    Finding::new("pdf_structure", "pdf_editable_forms", d, Severity::Medium, P70),
                );
            }
        }
        assert(values(findings@) =~= values(old(findings)@) + form_findings(*form));
    }

    /// Checks for known editors.
    pub fn check_producer_tools(&self, tags: &Vec<Tag>, findings: &mut Vec<Finding>)
        ensures
            values(final(findings)@) == values(old(findings)@) + tool_findings(tags@),
    {
        broadcast use group_values;

        let tool = match tag_value(tags, "Producer") {
            Some(p) => p,
            None => match tag_value(tags, "Creator") {
                Some(c) => c,
                None => "".to_string(),
            },
        };
        let t = lowered(tool.as_str());
        let t = chars_of(t.as_str());
        let words: Vec<&'static str> = vec![
            "smallpdf",
            "ilovepdf",
            "sejda",
            "pdf2go",
            "pdfcandy",
            "pdfescape",
            "pdf-xchange",
            "phantompdf",
            "master pdf",
        ];
        assert(texts(words@) =~= known_editors());
        let mut k: usize = 0;
        while k < words.len()
            invariant
                k <= words@.len(),
                texts(words@) == known_editors(),
                t@ == lowercase(tool@),
                tool@ == tool_of(tags@),
                *findings == *old(findings),
                editor_from(t@, 0) == editor_from(t@, k as int),
            decreases words@.len() - k,
        {
            let w = chars_of(words[k]);
            assert(texts(words@)[k as int] == w@);
            if chars_contain(&t, &w) {
                let kind = if k < 5 {
                    "online PDF editor"
                } else if k == 5 {
                    "online PDF form editor"
                } else {
                    "PDF editing software"
                };
                let mut d = "PDF processed with ".to_string();
                d.append(kind);
                d.append(" ('");
                d.append(tool.as_str());
                d.append("') - document was edited using ");
                d.append(kind);
                findings.push(
                    Finding::new("pdf_structure", "pdf_editing_tool", d, Severity::Medium, P70),
                );
                assert(values(findings@) =~= values(old(findings)@) + tool_findings(tags@));
                return ;
            }
            k += 1;
        }
        assert(values(findings@) =~= values(old(findings)@) + tool_findings(tags@));
    }

    /// All findings on the structure of a PDF file.
    pub fn analyze(&self, raw: &[u8], tags: &Vec<Tag>, form: &Option<Form>) -> (r: Vec<Finding>)
        ensures
            values(r@) == save_findings(lossy_chars(raw@)) + date_findings(tags@) + chain_findings(
                tags@,
            ) + script_findings(lossy_chars(raw@), tags@) + form_findings(*form) + tool_findings(
                tags@,
            ),
    {
        let text = lossy(raw);
        let t = chars_of(text.as_str());
        let mut r: Vec<Finding> = Vec::new();
        self.check_incremental_saves(&t, &mut r);
        self.check_metadata_consistency(tags, &mut r);
        self.check_javascript(&t, tags, &mut r);
        self.check_form_fields(form, &mut r);
        self.check_producer_tools(tags, &mut r);
        assert(values(r@) =~= save_findings(t@) + date_findings(tags@) + chain_findings(tags@)
            + script_findings(t@, tags@) + form_findings(*form) + tool_findings(tags@));
        r
    }
}

/// No match is counted just where none occurs from a place on.
pub proof fn law_no_match(t: Seq<char>, needle: Seq<char>, i: int)
    requires
        needle.len() > 0,
        0 <= i,
    ensures
        matches_from(t, needle, i) == 0 <==> forall|at: int| at >= i ==> !occurs_at(t, needle, at),
    decreases t.len() - i,
{
    if i + needle.len() <= t.len() && !occurs_at(t, needle, i) {
        law_no_match(t, needle, i + 1);
    }
}

/// Two occurrences that do not overlap count as two at least.
pub proof fn law_two_matches(t: Seq<char>, needle: Seq<char>, i: int, a: int, b: int)
    requires
        needle.len() > 0,
        0 <= i <= a,
        a + needle.len() <= b,
        occurs_at(t, needle, a),
        occurs_at(t, needle, b),
    ensures
        matches_from(t, needle, i) >= 2,
    decreases t.len() - i,
{
    if occurs_at(t, needle, i) {
        law_no_match(t, needle, i + needle.len());
    } else {
        law_two_matches(t, needle, i + 1, a, b);
    }
}

/// What the counts of a file's ends and tables mean. Several ends are saves after the first:
/// of high severity from three ends on, else medium. Several tables with one end are a rebuilt
/// structure.
pub proof fn law_when_saves_are_reported(t: Seq<char>)
    ensures
        ({
            let f = save_findings(t);
            let e = matches_from(t, "%%EOF"@, 0);
            let x = matches_from(t, "xref"@, 0) + matches_from(t, "/Type /XRef"@, 0);
            &&& f.len() == if e >= 2 || (e == 1 && x >= 2) {
                1int
            } else {
                0
            }
            &&& e >= 2 ==> f[0].code == "pdf_incremental_saves"@ && f[0].severity == if e == 2 {
                Severity::Medium
            } else {
                Severity::High
            }
            &&& e == 1 && x >= 2 ==> f[0].code == "pdf_rebuilt_xref"@ && f[0].severity
                == Severity::Medium
        }),
{
}

/// Different dates of creation and of modification are reported as minor.
pub proof fn law_when_dates_differ(tags: Seq<Tag>)
    ensures
        ({
            let f = date_findings(tags);
            let due = either_from(tags, "CreateDate"@, "CreationDate"@, 0) is Some && either_from(tags, "ModDate"@, "ModifyDate"@, 0) is Some && either_from(tags, "CreateDate"@, "CreationDate"@, 0) != either_from(tags, "ModDate"@, "ModifyDate"@, 0);
            &&& f.len() == if due {
                1int
            } else {
                0
            }
            &&& due ==> f[0].analyzer == "pdf_structure"@ && f[0].code == "pdf_dates_differ"@ && f[0].severity == Severity::Low
                && f[0].confidence == 0x3FE6_6666_6666_6666
        }),
{
}

/// A date is the value of the first tag with either of its two names.
pub proof fn law_first_of_either(tags: Seq<Tag>, a: Seq<char>, b: Seq<char>, i: int)
    requires
        0 <= i <= tags.len(),
    ensures
        either_from(tags, a, b, i) is None <==> forall|k: int|
            i <= k < tags.len() ==> (#[trigger] tags[k]).name@ != a && tags[k].name@ != b,
        i < tags.len() && (tags[i].name@ == a || tags[i].name@ == b) ==> either_from(tags, a, b, i)
            == Some(tags[i].value@),
    decreases tags.len() - i,
{
    if i < tags.len() && tags[i].name@ != a && tags[i].name@ != b {
        law_first_of_either(tags, a, b, i + 1);
        if either_from(tags, a, b, i + 1) is None {
            assert forall|k: int| i <= k < tags.len() implies (#[trigger] tags[k]).name@ != a
                && tags[k].name@ != b by {
                if k == i {
                }
            }
        }
    }
}

/// A scanner as creator and an editor as producer are reported together.
pub proof fn law_when_chain_is_reported(tags: Seq<Tag>)
    ensures
        ({
            let f = chain_findings(tags);
            let due = value_of(tags, "Creator"@) is Some && value_of(tags, "Producer"@) is Some && {
                let c = lowercase(value_of(tags, "Creator"@)->Some_0);
                let p = lowercase(value_of(tags, "Producer"@)->Some_0);
                (occurs_in(c, "scan"@) || occurs_in(c, "epson"@) || occurs_in(c, "canon"@)
                    || occurs_in(c, "hp "@) || occurs_in(c, "xerox"@) || occurs_in(c, "brother"@)
                    || occurs_in(c, "fujitsu"@)) && (occurs_in(p, "acrobat"@) || occurs_in(
                    p,
                    "pdf-xchange"@,
                ) || occurs_in(p, "foxit"@) || occurs_in(p, "nitro"@) || occurs_in(p, "smallpdf"@)
                    || occurs_in(p, "ilovepdf"@))
            };
            &&& f.len() == if due {
                1int
            } else {
                0
            }
            &&& due ==> f[0].code == "pdf_scanner_then_editor"@ && f[0].severity == Severity::High
        }),
{
    let a = scanners();
    let b = editors();
    assert(a[0] == "scan"@ && a[1] == "epson"@ && a[2] == "canon"@ && a[3] == "hp "@ && a[4]
        == "xerox"@ && a[5] == "brother"@ && a[6] == "fujitsu"@);
    assert(b[0] == "acrobat"@ && b[1] == "pdf-xchange"@ && b[2] == "foxit"@ && b[3] == "nitro"@
        && b[4] == "smallpdf"@ && b[5] == "ilovepdf"@);
}

/// Scripts are of high severity, wherever the text or a tag tells of them, and actions on
/// opening of medium severity.
pub proof fn law_when_scripts_are_reported(t: Seq<char>, tags: Seq<Tag>)
    ensures
        ({
            let f = script_findings(t, tags);
            let a = occurs_in(t, "/JS "@) || occurs_in(t, "/JavaScript"@) || occurs_in(
                t,
                "/Type /Action"@,
            ) || exists|i: int|
                0 <= i < tags.len() && (#[trigger] tags[i]).name@ == "JavaScript"@ && tags[i].value@
                    == "Yes"@;
            let b = occurs_in(t, "/OpenAction"@);
            &&& f.len() == (if a {
                1int
            } else {
                0
            }) + (if b {
                1int
            } else {
                0
            })
            &&& a ==> f[0].code == "pdf_contains_javascript"@ && f[0].severity == Severity::High
            &&& b ==> f.last().code == "pdf_open_action"@ && f.last().severity == Severity::Medium
        }),
{
    if exists|i: int|
        0 <= i < tags.len() && (#[trigger] tags[i]).name@ == "JavaScript"@ && tags[i].value@
            == "Yes"@ {
        let i = choose|i: int|
            0 <= i < tags.len() && (#[trigger] tags[i]).name@ == "JavaScript"@ && tags[i].value@
                == "Yes"@;
        assert(says_script(tags[i]));
    }
    if exists|i: int| 0 <= i < tags.len() && says_script(#[trigger] tags[i]) {
        let i = choose|i: int| 0 <= i < tags.len() && says_script(#[trigger] tags[i]);
        assert(tags[i].name@ == "JavaScript"@);
    }
}

/// The fields that are counted are those with a value.
pub proof fn law_filled_fields(f: Seq<FormField>, n: nat)
    requires
        n <= f.len(),
    ensures
        filled(f, n) == how_many(n, |i: int| !(f[i].value is None)),
    decreases n,
{
    let p = |i: int| !(f[i].value is None);
    lemma_which(0, p);
    if n > 0 {
        law_filled_fields(f, (n - 1) as nat);
        lemma_which((n - 1) as nat, p);
    }
}

/// At most five of the filled fields are named, the first ones.
pub proof fn law_named_fields(f: Seq<FormField>, n: nat)
    requires
        n <= f.len(),
    ensures
        first_filled(f, n).len() == if filled(f, n) < 5 {
            filled(f, n)
        } else {
            5
        },
        n > 0 ==> first_filled(f, (n - 1) as nat).len() <= first_filled(f, n).len() && first_filled(
            f,
            n,
        ).take(first_filled(f, (n - 1) as nat).len() as int) == first_filled(f, (n - 1) as nat),
    decreases n,
{
    if n > 0 {
        law_named_fields(f, (n - 1) as nat);
        let before = first_filled(f, (n - 1) as nat);
        assert(first_filled(f, n).take(before.len() as int) =~= before);
    }
}

/// Filled fields are told as minor, and fields that are not flattened are of medium severity.
pub proof fn law_when_forms_are_reported(form: Form)
    ensures
        ({
            let f = form_findings(Some(form));
            let a = filled(form.fields@, form.fields@.len()) >= 1;
            &&& f.len() == (if a {
                1int
            } else {
                0
            }) + (if form.need_appearances {
                1int
            } else {
                0
            })
            &&& a ==> f[0].code == "pdf_filled_form_fields"@ && f[0].severity == Severity::Low
            &&& form.need_appearances ==> f.last().code == "pdf_editable_forms"@ && f.last().severity
                == Severity::Medium
            &&& form_findings(None).len() == 0
        }),
{
}

/// The editor is the first of the known ones that a name holds.
pub proof fn law_first_editor(t: Seq<char>, k: int)
    requires
        0 <= k <= 9,
    ensures
        match editor_from(t, k) {
            Some(e) => k <= e < 9 && occurs_in(t, known_editors()[e]) && forall|j: int|
                k <= j < e ==> !occurs_in(t, #[trigger] known_editors()[j]),
            None => forall|j: int| k <= j < 9 ==> !occurs_in(t, #[trigger] known_editors()[j]),
        },
    decreases 9 - k,
{
    if k < 9 && !occurs_in(t, known_editors()[k]) {
        law_first_editor(t, k + 1);
    }
}

/// A known editor is reported by its kind: the first five are online editors, the sixth is one
/// of forms, the others are software. The producer is asked before the creator.
pub proof fn law_when_editors_are_reported(tags: Seq<Tag>)
    ensures
        ({
            let f = tool_findings(tags);
            let tool = lowercase(tool_of(tags));
            let due = exists|j: int| 0 <= j < 9 && occurs_in(tool, #[trigger] known_editors()[j]);
            &&& f.len() == if due {
                1int
            } else {
                0
            }
            &&& due ==> f[0].code == "pdf_editing_tool"@ && f[0].severity == Severity::Medium
            &&& value_of(tags, "Producer"@) is Some ==> Some(tool_of(tags)) == value_of(
                tags,
                "Producer"@,
            )
            &&& value_of(tags, "Producer"@) is None && value_of(tags, "Creator"@) is Some ==> Some(
                tool_of(tags),
            ) == value_of(tags, "Creator"@)
        }),
{
    law_first_editor(lowercase(tool_of(tags)), 0);
}

/// The kinds of the known editors.
pub proof fn law_editor_kinds(k: int)
    requires
        0 <= k < 9,
    ensures
        known_editors() == seq![
            "smallpdf"@,
            "ilovepdf"@,
            "sejda"@,
            "pdf2go"@,
            "pdfcandy"@,
            "pdfescape"@,
            "pdf-xchange"@,
            "phantompdf"@,
            "master pdf"@,
        ],
        editor_kind(k) == (if k <= 4 {
            "online PDF editor"@
        } else if k <= 5 {
            "online PDF form editor"@
        } else {
            "PDF editing software"@
        }),
{
}

/// What tells of a scanner.
pub proof fn law_scanners(t: Seq<char>)
    ensures
        any_in(t, scanners()) <==> (occurs_in(t, "scan"@) || occurs_in(t, "epson"@) || occurs_in(t, "canon"@) || occurs_in(t, "hp "@) || occurs_in(t, "xerox"@) || occurs_in(t, "brother"@) || occurs_in(t, "fujitsu"@)),
{
    let l = scanners();
    assert(l[0] == "scan"@);
    assert(l[1] == "epson"@);
    assert(l[2] == "canon"@);
    assert(l[3] == "hp "@);
    assert(l[4] == "xerox"@);
    assert(l[5] == "brother"@);
    assert(l[6] == "fujitsu"@);
}

/// What tells of an editor.
pub proof fn law_editors(t: Seq<char>)
    ensures
        any_in(t, editors()) <==> (occurs_in(t, "acrobat"@) || occurs_in(t, "pdf-xchange"@) || occurs_in(t, "foxit"@) || occurs_in(t, "nitro"@) || occurs_in(t, "smallpdf"@) || occurs_in(t, "ilovepdf"@)),
{
    let l = editors();
    assert(l[0] == "acrobat"@);
    assert(l[1] == "pdf-xchange"@);
    assert(l[2] == "foxit"@);
    assert(l[3] == "nitro"@);
    assert(l[4] == "smallpdf"@);
    assert(l[5] == "ilovepdf"@);
}

} // verus!
