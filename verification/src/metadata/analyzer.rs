//! Image-metadata forensics: software tags, metadata presence, timestamp consistency.

use crate::bits::P60;
use crate::bits::P70;
use crate::bits::P90;
use crate::bits::P95;
use crate::context::group_present;
use crate::context::has_group;
use crate::context::Tag;
use crate::finding::group_values;
use crate::finding::plain_finding;
use crate::finding::values;
use crate::finding::Finding;
use crate::finding::FindingView;
use crate::finding::Severity;
use crate::select::how_many;
use crate::select::lemma_which;
use crate::select::which;
use crate::text::any_in;
use crate::text::append_decimal;
use crate::text::chars_contain;
use crate::text::chars_of;
use crate::text::contains_any;
use crate::text::count_distinct;
use crate::text::decimal_text;
use crate::text::occurs_in;
use crate::text::same_text;
use crate::text::strings;
use crate::text::texts;
use crate::unicode::lowercase;
use crate::unicode::lowered;
use vstd::prelude::*;
use vstd::string::*;

verus! {

/// The metadata analyzer.
pub struct MetadataAnalyzer;

/// Words in the names of tags that tell of software.
pub open spec fn software_words() -> Seq<Seq<char>> {
    seq!["software"@, "creator"@, "tool"@]
}

/// Words in the names of tags that hold a date.
pub open spec fn date_words() -> Seq<Seq<char>> {
    seq!["date"@, "time"@]
}

/// Tools that generate images.
pub open spec fn ai_tools() -> Seq<Seq<char>> {
    seq![
        "midjourney"@,
        "dall-e"@,
        "stable diffusion"@,
        "comfyui"@,
        "automatic1111"@,
        "novelai"@,
        "leonardo"@,
        "firefly"@,
        "imagen"@,
        "flux"@,
        "ideogram"@,
    ]
}

/// Tools that edit images.
pub open spec fn edit_tools() -> Seq<Seq<char>> {
    seq![
        "photoshop"@,
        "gimp"@,
        "affinity"@,
        "pixelmator"@,
        "lightroom"@,
        "capture one"@,
        "paint.net"@,
        "canva"@,
        "snapseed"@,
    ]
}

/// The finding of a tag that names a generating tool.
pub open spec fn ai_finding(t: Tag) -> FindingView {
    plain_finding(
        "metadata"@,
        "ai_generator_tag"@,
        "Metadata indicates AI generation tool: "@ + t.name@ + " = "@ + t.value@,
        Severity::Critical,
        P95,
    )
}

/// The finding of a tag that names an editing tool.
pub open spec fn edit_finding(t: Tag) -> FindingView {
    plain_finding(
        "metadata"@,
        "editing_software_tag"@,
        "Image processed with editing software: "@ + t.name@ + " = "@ + t.value@,
        Severity::Medium,
        P90,
    )
}

/// One finding for each of the first `n` tools that occurs in a value.
pub open spec fn named(value: Seq<char>, tools: Seq<Seq<char>>, f: FindingView, n: nat) -> Seq<
    FindingView,
>
    decreases n,
{
    if n == 0 {
        seq![]
    } else if occurs_in(value, tools[n - 1]) {
        named(value, tools, f, (n - 1) as nat).push(f)
    } else {
        named(value, tools, f, (n - 1) as nat)
    }
}

/// The findings on one tag.
pub open spec fn tag_findings(t: Tag) -> Seq<FindingView> {
    let v = lowercase(t.value@);
    if any_in(lowercase(t.name@), software_words()) {
        named(v, ai_tools(), ai_finding(t), 11) + named(v, edit_tools(), edit_finding(t), 9)
    } else {
        seq![]
    }
}

/// The findings on the software tags among the first `n` tags.
pub open spec fn software_findings(tags: Seq<Tag>, n: nat) -> Seq<FindingView>
    decreases n,
{
    if n == 0 {
        seq![]
    } else {
        software_findings(tags, (n - 1) as nat) + tag_findings(tags[n - 1])
    }
}

/// Whether some tag has a name.
pub open spec fn named_tag(tags: Seq<Tag>, name: Seq<char>) -> bool {
    exists|i: int| 0 <= i < tags.len() && (#[trigger] tags[i]).name@ == name
}

/// The finding that no tag tells of a camera. PDFs never carry camera tags.
pub open spec fn presence_findings(tags: Seq<Tag>) -> Seq<FindingView> {
    if !group_present(tags, "PDF"@) && !named_tag(tags, "Make"@) && !named_tag(tags, "Model"@)
        && !named_tag(tags, "ExifVersion"@) {
        seq![
            plain_finding(
                "metadata"@,
                "no_camera_metadata"@,
                "No camera metadata found - image may have been stripped or generated"@,
                Severity::Low,
                P60,
            ),
        ]
    } else {
        seq![]
    }
}

/// The values of the date fields among the first `n` tags.
pub open spec fn date_values(tags: Seq<Tag>, n: nat) -> Seq<Seq<char>>
    decreases n,
{
    if n == 0 {
        seq![]
    } else if any_in(lowercase(tags[n - 1].name@), date_words()) {
        date_values(tags, (n - 1) as nat).push(tags[n - 1].value@)
    } else {
        date_values(tags, (n - 1) as nat)
    }
}

/// The finding of timestamps that do not agree: three date fields or more with more than
/// two values among them.
pub open spec fn timestamp_findings(tags: Seq<Tag>) -> Seq<FindingView> {
    let dates = date_values(tags, tags.len());
    if !group_present(tags, "PDF"@) && dates.to_set().len() > 2 && dates.len() >= 3 {
        seq![
            plain_finding(
                "metadata"@,
                "timestamp_inconsistency"@,
                "Multiple inconsistent timestamps found across "@ + decimal_text(dates.len())
                    + " date fields"@,
                Severity::Medium,
                P70,
            ),
        ]
    } else {
        seq![]
    }
}

/// Tells whether some tag has the name `name`.
pub fn has_named(tags: &Vec<Tag>, name: &str) -> (r: bool)
    ensures
        r == named_tag(tags@, name@),
{
    let mut i: usize = 0;
    while i < tags.len()
        invariant
            0 <= i <= tags@.len(),
            forall|j: int| 0 <= j < i ==> (#[trigger] tags@[j]).name@ != name@,
        decreases tags@.len() - i,
    {
        if same_text(tags[i].name.as_str(), name) {
            return true;
        }
        i += 1;
    }
    false
}

fn ai_tool_list() -> (r: Vec<&'static str>)
    ensures
        texts(r@) == ai_tools(),
{
    let r: Vec<&'static str> = vec![
        "midjourney",
        "dall-e",
        "stable diffusion",
        "comfyui",
        "automatic1111",
        "novelai",
        "leonardo",
        "firefly",
        "imagen",
        "flux",
        "ideogram",
    ];
    assert(texts(r@) =~= ai_tools());
    r
}

fn edit_tool_list() -> (r: Vec<&'static str>)
    ensures
        texts(r@) == edit_tools(),
{
    let r: Vec<&'static str> = vec![
        "photoshop",
        "gimp",
        "affinity",
        "pixelmator",
        "lightroom",
        "capture one",
        "paint.net",
        "canva",
        "snapseed",
    ];
    assert(texts(r@) =~= edit_tools());
    r
}

impl MetadataAnalyzer {
    /// Reports every tool of a list that occurs in a value.
    fn report_tools(
        value: &Vec<char>,
        list: &Vec<&'static str>,
        f: &Finding,
        findings: &mut Vec<Finding>,
    )
        ensures
            values(final(findings)@) == values(old(findings)@) + named(
                value@,
                texts(list@),
                f@,
                list@.len(),
            ),
    {
        broadcast use group_values;

        let mut k: usize = 0;
        assert(values(findings@) =~= values(old(findings)@) + named(value@, texts(list@), f@, 0));
        while k < list.len()
            invariant
                k <= list@.len(),
                values(findings@) == values(old(findings)@) + named(
                    value@,
                    texts(list@),
                    f@,
                    k as nat,
                ),
            decreases list@.len() - k,
        {
            let needle = chars_of(list[k]);
            assert(texts(list@)[k as int] == needle@);
            let ghost before = findings@;
            let hit = chars_contain(value, &needle);
            if hit {
                let g = f.duplicate();
                findings.push(g);
                assert(values(findings@) == values(before).push(f@));
            }
            k += 1;
            assert(named(value@, texts(list@), f@, k as nat) == if hit {
                named(value@, texts(list@), f@, (k - 1) as nat).push(f@)
            } else {
                named(value@, texts(list@), f@, (k - 1) as nat)
            });
            assert(values(findings@) =~= values(old(findings)@) + named(
                value@,
                texts(list@),
                f@,
                k as nat,
            ));
        }
    }

    /// Reports the tools that the software tags name.
    pub fn check_software_tags(tags: &Vec<Tag>, findings: &mut Vec<Finding>)
        ensures
            values(final(findings)@) == values(old(findings)@) + software_findings(
                tags@,
                tags@.len(),
            ),
    {
        let words: Vec<&'static str> = vec!["software", "creator", "tool"];
        assert(texts(words@) =~= software_words());
        let ai = ai_tool_list();
        let edit = edit_tool_list();
        let mut i: usize = 0;
        assert(values(findings@) =~= values(old(findings)@) + software_findings(tags@, 0));
        while i < tags.len()
            invariant
                i <= tags@.len(),
                texts(words@) == software_words(),
                texts(ai@) == ai_tools(),
                texts(edit@) == edit_tools(),
                values(findings@) == values(old(findings)@) + software_findings(tags@, i as nat),
            decreases tags@.len() - i,
        {
            let name = lowered(tags[i].name.as_str());
            let name = chars_of(name.as_str());
            let ghost before = values(findings@);
            if contains_any(&name, &words) {
                let value = lowered(tags[i].value.as_str());
                let value = chars_of(value.as_str());
                let mut d = "Metadata indicates AI generation tool: ".to_string();
                d.append(tags[i].name.as_str());
                d.append(" = ");
                d.append(tags[i].value.as_str());
                let f = Finding::new("metadata", "ai_generator_tag", d, Severity::Critical, P95);
                assert(texts(ai@).len() == 11);
                Self::report_tools(&value, &ai, &f, findings);
                let mut d = "Image processed with editing software: ".to_string();
                d.append(tags[i].name.as_str());
                d.append(" = ");
                d.append(tags[i].value.as_str());
                let g = Finding::new("metadata", "editing_software_tag", d, Severity::Medium, P90);
                assert(texts(edit@).len() == 9);
                Self::report_tools(&value, &edit, &g, findings);
            }
            assert(values(findings@) =~= before + tag_findings(tags@[i as int]));
            i += 1;
            assert(values(findings@) =~= values(old(findings)@) + software_findings(
                tags@,
                i as nat,
            ));
        }
    }

    /// Reports that no tag tells of a camera.
    pub fn check_metadata_presence(tags: &Vec<Tag>, findings: &mut Vec<Finding>)
        ensures
            values(final(findings)@) == values(old(findings)@) + presence_findings(tags@),
    {
        broadcast use group_values;

        if !has_group(tags, "PDF") && !has_named(tags, "Make") && !has_named(tags, "Model")
            && !has_named(tags, "ExifVersion") {
            let d =
                "No camera metadata found - image may have been stripped or generated".to_string();
            findings.push(Finding::new("metadata", "no_camera_metadata", d, Severity::Low, P60));
        }
        assert(values(findings@) =~= values(old(findings)@) + presence_findings(tags@));
    }

    /// Reports timestamps that do not agree.
    pub fn check_timestamp_consistency(tags: &Vec<Tag>, findings: &mut Vec<Finding>)
        ensures
            values(final(findings)@) == values(old(findings)@) + timestamp_findings(tags@),
    {
        broadcast use group_values;

        let words: Vec<&'static str> = vec!["date", "time"];
        assert(texts(words@) =~= date_words());
        let mut dates: Vec<String> = Vec::new();
        let mut i: usize = 0;
        assert(strings(dates@) =~= date_values(tags@, 0));
        while i < tags.len()
            invariant
                i <= tags@.len(),
                texts(words@) == date_words(),
                strings(dates@) == date_values(tags@, i as nat),
            decreases tags@.len() - i,
        {
            let name = lowered(tags[i].name.as_str());
            let name = chars_of(name.as_str());
            let ghost before = dates@;
            if contains_any(&name, &words) {
                dates.push(tags[i].value.as_str().to_string());
                assert(strings(dates@) =~= strings(before).push(tags@[i as int].value@));
            }
            i += 1;
        }
        let distinct = count_distinct(&dates);
        if !has_group(tags, "PDF") && distinct > 2 && dates.len() >= 3 {
            let mut d = "Multiple inconsistent timestamps found across ".to_string();
            append_decimal(&mut d, dates.len() as u64);
            d.append(" date fields");
            findings.push(
                Finding::new("metadata", "timestamp_inconsistency", d, Severity::Medium, P70),
            );
        }
        assert(strings(dates@).len() == dates@.len());
        assert(values(findings@) =~= values(old(findings)@) + timestamp_findings(tags@));
    }

    /// All metadata findings on the tags of a file.
    pub fn analyze(&self, tags: &Vec<Tag>) -> (r: Vec<Finding>)
        ensures
            values(r@) == software_findings(tags@, tags@.len()) + presence_findings(tags@)
                + timestamp_findings(tags@),
    {
        broadcast use group_values;

        let mut r: Vec<Finding> = Vec::new();
        Self::check_software_tags(tags, &mut r);
        Self::check_metadata_presence(tags, &mut r);
        Self::check_timestamp_consistency(tags, &mut r);
        assert(values(r@) =~= software_findings(tags@, tags@.len()) + presence_findings(tags@)
            + timestamp_findings(tags@));
        r
    }
}

/// A file with tags of a PDF is reported neither for a missing camera nor for its dates.
pub proof fn law_pdf_dates_and_camera_silent(tags: Seq<Tag>)
    requires
        group_present(tags, "PDF"@),
    ensures
        presence_findings(tags) + timestamp_findings(tags) == Seq::<FindingView>::empty(),
{
    assert(presence_findings(tags) + timestamp_findings(tags) =~= Seq::<FindingView>::empty());
}

/// A tag is reported once for every tool that its value names.
pub proof fn law_named_tools(value: Seq<char>, tools: Seq<Seq<char>>, f0: FindingView, n: nat)
    requires
        n <= tools.len(),
    ensures
        named(value, tools, f0, n) == which(n, |i: int| occurs_in(value, tools[i])).map_values(|i: int| f0),
    decreases n,
{
    let p = |i: int| occurs_in(value, tools[i]);
    let f = |i: int| f0;
    lemma_which(0, p);
    if n > 0 {
        let lower = (n - 1) as nat;
        law_named_tools(value, tools, f0, lower);
        lemma_which(lower, p);
        assert(which(n, p).map_values(f) =~= if p(lower as int) {
            which(lower, p).map_values(f).push(f(lower as int))
        } else {
            which(lower, p).map_values(f)
        });
    } else {
        assert(which(0, p).map_values(f) =~= Seq::<FindingView>::empty());
    }
}

/// The dates are the values of the tags whose names speak of a date or a time.
pub proof fn law_date_values(tags: Seq<Tag>, n: nat)
    requires
        n <= tags.len(),
    ensures
        date_values(tags, n) == which(n, |i: int| occurs_in(lowercase(tags[i].name@), "date"@) || occurs_in(lowercase(tags[i].name@), "time"@)).map_values(|i: int| tags[i].value@),
    decreases n,
{
    let p = |i: int| occurs_in(lowercase(tags[i].name@), "date"@) || occurs_in(lowercase(tags[i].name@), "time"@);
    let f = |i: int| tags[i].value@;
    lemma_which(0, p);
    if n > 0 {
        let lower = (n - 1) as nat;
        law_date_values(tags, lower);
        lemma_which(lower, p);
        assert(date_words()[0] == "date"@ && date_words()[1] == "time"@);
        assert(any_in(lowercase(tags[lower as int].name@), date_words()) == p(lower as int));
        assert(which(n, p).map_values(f) =~= if p(lower as int) {
            which(lower, p).map_values(f).push(f(lower as int))
        } else {
            which(lower, p).map_values(f)
        });
    } else {
        assert(which(0, p).map_values(f) =~= Seq::<Seq<char>>::empty());
    }
}

/// A missing camera is reported, as minor, where no tag is of a PDF and none names a make,
/// a model or a version of EXIF.
pub proof fn law_when_camera_is_missed(tags: Seq<Tag>)
    ensures
        ({
            let f = presence_findings(tags);
            let due = !(exists|i: int| 0 <= i < tags.len() && ((#[trigger] tags[i]).group@ == "PDF"@ || tags[i].name@ == "Make"@ || tags[i].name@ == "Model"@ || tags[i].name@ == "ExifVersion"@));
            &&& f.len() == if due {
                1int
            } else {
                0
            }
            &&& due ==> f[0].analyzer == "metadata"@ && f[0].code == "no_camera_metadata"@ && f[0].severity == Severity::Low
                && f[0].confidence == 0x3FE3_3333_3333_3333
        }),
{
}

/// Dates are reported where more than two of them differ, unless the tags are of a PDF.
pub proof fn law_when_dates_are_reported(tags: Seq<Tag>)
    ensures
        ({
            let f = timestamp_findings(tags);
            let due = !group_present(tags, "PDF"@) && date_values(tags, tags.len()).to_set().len() >= 3 && date_values(tags, tags.len()).len() >= 3;
            &&& f.len() == if due {
                1int
            } else {
                0
            }
            &&& due ==> f[0].analyzer == "metadata"@ && f[0].code == "timestamp_inconsistency"@ && f[0].severity == Severity::Medium
                && f[0].confidence == 0x3FE6_6666_6666_6666
        }),
{
}

/// A tag of software whose value names a generator is critical, and one that names an editor
/// medium; other tags are not looked at.
pub proof fn law_software_tags(t: Tag, k: int)
    ensures
        ({
            let v = lowercase(t.value@);
            let n = lowercase(t.name@);
            let looked = occurs_in(n, "software"@) || occurs_in(n, "creator"@) || occurs_in(n, "tool"@);
            let f = tag_findings(t);
            let ai = how_many(11, |i: int| occurs_in(v, ai_tools()[i]));
            let edit = how_many(9, |i: int| occurs_in(v, edit_tools()[i]));
            &&& f.len() == if looked {
                ai + edit
            } else {
                0
            }
            &&& looked && 0 <= k < ai ==> f[k].code == "ai_generator_tag"@ && f[k].severity
                == Severity::Critical && f[k].confidence == 0x3FEE_6666_6666_6666
            &&& looked && ai <= k < ai + edit ==> f[k].code == "editing_software_tag"@
                && f[k].severity == Severity::Medium && f[k].confidence == 0x3FEC_CCCC_CCCC_CCCD
        }),
{
    let v = lowercase(t.value@);
    let n = lowercase(t.name@);
    assert(software_words()[0] == "software"@ && software_words()[1] == "creator"@
        && software_words()[2] == "tool"@);
    law_named_tools(v, ai_tools(), ai_finding(t), 11);
    law_named_tools(v, edit_tools(), edit_finding(t), 9);
}

/// The generators and the editors that are known by name.
pub proof fn law_known_tools()
    ensures
        ai_tools() == seq![
            "midjourney"@,
            "dall-e"@,
            "stable diffusion"@,
            "comfyui"@,
            "automatic1111"@,
            "novelai"@,
            "leonardo"@,
            "firefly"@,
            "imagen"@,
            "flux"@,
            "ideogram"@,
        ],
        edit_tools() == seq![
            "photoshop"@,
            "gimp"@,
            "affinity"@,
            "pixelmator"@,
            "lightroom"@,
            "capture one"@,
            "paint.net"@,
            "canva"@,
            "snapseed"@,
        ],
{
}

/// Every tag is looked at: what it is reported for is in the report.
pub proof fn law_every_tag_is_looked_at(tags: Seq<Tag>, n: nat, i: int, k: int)
    requires
        0 <= i < n <= tags.len(),
        0 <= k < tag_findings(tags[i]).len(),
    ensures
        software_findings(tags, n).contains(tag_findings(tags[i])[k]),
    decreases n,
{
    let x = tag_findings(tags[i])[k];
    let before = software_findings(tags, (n - 1) as nat);
    let all = software_findings(tags, n);
    if i < n - 1 {
        law_every_tag_is_looked_at(tags, (n - 1) as nat, i, k);
        assert(all[before.index_of(x)] == x);
    } else {
        assert(all[before.len() + k] == x);
    }
}

} // verus!
