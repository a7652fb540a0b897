//! PDF overlay and redaction detector: text or digits of a scanned document covered with a
//! white rectangle or an annotation, and new values typed on top.
//!
//! Annotations, page images and page texts are what a document reader found; content streams
//! and objects are scanned in the raw bytes.

use crate::bits::P50;
use crate::bits::P60;
use crate::bits::P70;
use crate::bits::P75;
use crate::bits::P80;
use crate::bits::P85;
use crate::bits::P90;
use crate::bytes::contains_bytes;
use crate::bytes::extract_int;
use crate::bytes::find_bytes;
use crate::bytes::first_from;
use crate::bytes::integer_after;
use crate::finding::Finding;
use crate::finding::FindingView;
use crate::finding::Severity;
use crate::finding::group_values;
use crate::finding::plain_finding;
use crate::finding::values;
use crate::jpeg::copy_range;
use crate::number::is_share_below;
use crate::number::share_below;
use crate::raster::area;
use crate::select::how_many;
use crate::select::lemma_total_front;
use crate::select::lemma_which;
use crate::select::total;
use crate::select::which;
use crate::text::any_in;
use crate::text::append_decimal;
use crate::text::ascending_texts;
use crate::text::chars_contain;
use crate::text::chars_match_at;
use crate::text::chars_of;
use crate::text::contains_any;
use crate::text::decimal_text;
use crate::text::insert_text;
use crate::text::join;
use crate::text::joined;
use crate::text::law_insert_keeps_order;
use crate::text::lemma_with_text;
use crate::text::occurs_at;
use crate::text::occurs_in;
use crate::text::strings;
use crate::text::texts;
use crate::text::with_text;
use crate::unicode::char_bytes;
use crate::unicode::char_len;
use crate::unicode::is_white;
use crate::unicode::lossy;
use crate::unicode::lossy_chars;
use crate::unicode::number_in;
use crate::unicode::parse_number;
use crate::unicode::text_bytes;
use crate::unicode::trim;
use crate::unicode::trimmed;
use crate::unicode::utf8_text;
use crate::unicode::white_space;
use vstd::prelude::*;
use vstd::string::*;
use vstd::utf8::{decode_utf8, valid_utf8};

verus! {

/// The overlay detector.
pub struct OverlayDetector;

/// The annotations that are told apart.
#[derive(Clone, Copy, PartialEq, Eq, Structural, Debug)]
pub enum AnnotationKind {
    FreeText,
    Redact,
    Stamp,
    Other,
}

/// An annotation: its kind, the number of its page from zero on, and its rectangle as four
/// whole numbers with commas between them.
pub struct Annotation {
    pub kind: AnnotationKind,
    pub page_index: u32,
    pub rect: String,
}

/// An image on a page.
#[derive(Clone, Copy)]
pub struct PageImage {
    pub page: u32,
    pub width: u32,
    pub height: u32,
}

/// How many of the first `n` annotations are of a kind.
pub open spec fn kind_count(a: Seq<Annotation>, kind: AnnotationKind, n: nat) -> nat
    decreases n,
{
    if n == 0 {
        0
    } else {
        kind_count(a, kind, (n - 1) as nat) + if a[n - 1].kind == kind {
            1nat
        } else {
            0
        }
    }
}

/// Where the free texts among the first `n` annotations are.
pub open spec fn free_texts(a: Seq<Annotation>, n: nat) -> Seq<Seq<char>>
    decreases n,
{
    if n == 0 {
        seq![]
    } else if a[n - 1].kind == AnnotationKind::FreeText {
        free_texts(a, (n - 1) as nat).push(
            "FreeText on page "@ + decimal_text((a[n - 1].page_index + 1) as nat) + " at ["@ + a[n
                - 1].rect@ + "]"@,
        )
    } else {
        free_texts(a, (n - 1) as nat)
    }
}

/// The findings on annotations.
pub open spec fn annotation_findings(a: Seq<Annotation>) -> Seq<FindingView> {
    let n = a.len();
    let free = kind_count(a, AnnotationKind::FreeText, n);
    let redact = kind_count(a, AnnotationKind::Redact, n);
    let stamp = kind_count(a, AnnotationKind::Stamp, n);
    let list = free_texts(a, n);
    let x = if free > 0 {
        seq![
            plain_finding(
                "pdf_overlay"@,
                "pdf_freetext_overlay"@,
                "PDF contains "@ + decimal_text(free)
                    + " FreeText annotation(s) - text overlaid on document: "@ + joined(
                    list,
                    "; "@,
                    list.len(),
                )
                    + ". This is the primary technique for digit/text manipulation in scanned documents"@,
                Severity::High,
                P75,
            ),
        ]
    } else {
        seq![]
    };
    let y = if redact > 0 {
        seq![
            plain_finding(
                "pdf_overlay"@,
                "pdf_redaction_annotations"@,
                "PDF contains "@ + decimal_text(redact)
                    + " redaction annotation(s) - content has been deliberately hidden"@,
                Severity::Medium,
                P80,
            ),
        ]
    } else {
        seq![]
    };
    let z = if stamp > 0 {
        seq![
            plain_finding(
                "pdf_overlay"@,
                "pdf_stamp_overlay"@,
                "PDF contains "@ + decimal_text(stamp)
                    + " stamp annotation(s) - content overlaid on pages"@,
                Severity::Low,
                P50,
            ),
        ]
    } else {
        seq![]
    };
    x + y + z
}

impl OverlayDetector {
    /// Checks the annotations.
    pub fn check_suspicious_annotations(
        &self,
        annotations: &Vec<Annotation>,
        findings: &mut Vec<Finding>,
    )
        ensures
            values(final(findings)@) == values(old(findings)@) + annotation_findings(annotations@),
    {
        broadcast use group_values;

        let mut free: u64 = 0;
        let mut redact: u64 = 0;
        let mut stamp: u64 = 0;
        let mut list: Vec<String> = Vec::new();
        let mut i: usize = 0;
        assert(strings(list@) =~= free_texts(annotations@, 0));
        while i < annotations.len()
            invariant
                i <= annotations@.len(),
                free <= i,
                redact <= i,
                stamp <= i,
                free == kind_count(annotations@, AnnotationKind::FreeText, i as nat),
                redact == kind_count(annotations@, AnnotationKind::Redact, i as nat),
                stamp == kind_count(annotations@, AnnotationKind::Stamp, i as nat),
                strings(list@) == free_texts(annotations@, i as nat),
            decreases annotations@.len() - i,
        {
            let a = &annotations[i];
            match a.kind {
                AnnotationKind::FreeText => {
                    free += 1;
                    let ghost before = list@;
                    let mut s = "FreeText on page ".to_string();
                    append_decimal(&mut s, a.page_index as u64 + 1);
                    s.append(" at [");
                    s.append(a.rect.as_str());
                    s.append("]");
                    list.push(s);
                    assert(strings(list@) =~= strings(before).push(s@));
                },
                AnnotationKind::Redact => {
                    redact += 1;
                },
                AnnotationKind::Stamp => {
                    stamp += 1;
                },
                AnnotationKind::Other => {},
            }
            i += 1;
        }
        assert(strings(list@).len() == list@.len());
        if free > 0 {
            let mut d = "PDF contains ".to_string();
            append_decimal(&mut d, free);
            d.append(" FreeText annotation(s) - text overlaid on document: ");
            let places = join(&list, "; ", list.len());
            d.append(places.as_str());
            d.append(
                ". This is the primary technique for digit/text manipulation in scanned documents",
            );
            findings.push(
                Finding::new("pdf_overlay", "pdf_freetext_overlay", d, Severity::High, P75),
            );
        }
        if redact > 0 {
            let mut d = "PDF contains ".to_string();
            append_decimal(&mut d, redact);
            d.append(" redaction annotation(s) - content has been deliberately hidden");
            findings.push(
                Finding::new("pdf_overlay", "pdf_redaction_annotations", d, Severity::Medium, P80),
            );
        }
        if stamp > 0 {
            let mut d = "PDF contains ".to_string();
            append_decimal(&mut d, stamp);
            d.append(" stamp annotation(s) - content overlaid on pages");
            findings.push(Finding::new("pdf_overlay", "pdf_stamp_overlay", d, Severity::Low, P50));
        }
        assert(values(findings@) =~= values(old(findings)@) + annotation_findings(annotations@));
    }
}

/// The index behind the next `n` bytes from index `i` on, or behind the text where it is
/// shorter. There is none where the last byte falls inside a character.
pub open spec fn ahead(t: Seq<char>, i: int, n: int) -> Option<int>
    decreases t.len() - i,
{
    if i >= t.len() {
        Some(t.len() as int)
    } else if n == 0 {
        Some(i)
    } else if char_bytes(t[i]) > n {
        None
    } else {
        ahead(t, i + 1, n - char_bytes(t[i]))
    }
}

/// The index before the `n` bytes that lead up to index `i`, or the beginning of the text.
pub open spec fn back(t: Seq<char>, i: int, n: int) -> Option<int>
    decreases i,
{
    if i <= 0 {
        Some(0)
    } else if n == 0 {
        Some(i)
    } else if char_bytes(t[i - 1]) > n {
        None
    } else {
        back(t, i - 1, n - char_bytes(t[i - 1]))
    }
}

fn look_ahead(t: &Vec<char>, from: usize, n: usize) -> (r: Option<usize>)
    requires
        from <= t@.len(),
    ensures
        match r {
            Some(e) => ahead(t@, from as int, n as int) == Some(e as int) && from <= e <= t@.len(),
            None => ahead(t@, from as int, n as int) is None,
        },
{
    let mut i: usize = from;
    let mut left: usize = n;
    while i < t.len() && left > 0
        invariant
            from <= i <= t@.len(),
            ahead(t@, from as int, n as int) == ahead(t@, i as int, left as int),
        decreases t@.len() - i,
    {
        let c = char_len(t[i]);
        if c > left {
            return None;
        }
        left -= c;
        i += 1;
    }
    Some(i)
}

fn look_back(t: &Vec<char>, from: usize, n: usize) -> (r: Option<usize>)
    requires
        from <= t@.len(),
    ensures
        match r {
            Some(e) => back(t@, from as int, n as int) == Some(e as int) && e <= from,
            None => back(t@, from as int, n as int) is None,
        },
{
    let mut i: usize = from;
    let mut left: usize = n;
    while i > 0 && left > 0
        invariant
            i <= from <= t@.len(),
            back(t@, from as int, n as int) == back(t@, i as int, left as int),
        decreases i,
    {
        let c = char_len(t[i - 1]);
        if c > left {
            return None;
        }
        left -= c;
        i -= 1;
    }
    Some(i)
}

/// Copies a part of a text.
fn part(t: &Vec<char>, from: usize, to: usize) -> (r: Vec<char>)
    requires
        from <= to <= t@.len(),
    ensures
        r@ == t@.subrange(from as int, to as int),
{
    let mut r: Vec<char> = Vec::new();
    let mut i: usize = from;
    while i < to
        invariant
            from <= i <= to <= t@.len(),
            r@ == t@.subrange(from as int, i as int),
        decreases to - i,
    {
        r.push(t[i]);
        i += 1;
        assert(r@ =~= t@.subrange(from as int, i as int));
    }
    r
}

/// The operators that fill a path.
pub open spec fn fill_operators() -> Seq<Seq<char>> {
    seq![" f\n"@, " f "@, " f*"@, " F\n"@]
}

/// The operators that choose white.
pub open spec fn white_operators() -> Seq<Seq<char>> {
    seq!["1 1 1 rg"@, "1 1 1 RG"@, "1.0 1.0 1.0 rg"@, "1 g"@, "1.0 g"@]
}

/// Whether the rectangle operator at index `i` draws a filled white rectangle, and whether
/// it draws a filled rectangle with text after it. There is no answer where a window of 100
/// or 500 bytes ahead or of 200 bytes back is cut inside a character.
pub open spec fn rectangle_at(t: Seq<char>, i: int) -> Option<(bool, bool)> {
    match ahead(t, i, 100) {
        None => None,
        Some(e) => if !any_in(t.subrange(i, e), fill_operators()) {
            Some((false, false))
        } else {
            match (back(t, i, 200), ahead(t, i, 500)) {
                (Some(b), Some(f)) => Some(
                    (
                        any_in(t.subrange(b, i), white_operators()),
                        occurs_in(t.subrange(i, f), "BT"@),
                    ),
                ),
                _ => None,
            }
        },
    }
}

/// How many of the rectangle operators before index `n` draw filled white rectangles, and
/// how many draw filled rectangles with text after them.
pub open spec fn rectangles(t: Seq<char>, n: nat) -> Option<(nat, nat)>
    decreases n,
{
    if n == 0 {
        Some((0, 0))
    } else {
        match rectangles(t, (n - 1) as nat) {
            None => None,
            Some(c) => if !occurs_at(t, " re"@, n - 1) {
                Some(c)
            } else {
                match rectangle_at(t, n - 1) {
                    None => None,
                    Some(r) => Some(
                        (
                            c.0 + if r.0 {
                                1nat
                            } else {
                                0
                            },
                            c.1 + if r.1 {
                                1nat
                            } else {
                                0
                            },
                        ),
                    ),
                }
            },
        }
    }
}

/// The findings on filled rectangles.
pub open spec fn rectangle_findings(c: (nat, nat)) -> Seq<FindingView> {
    if c.0 > 0 {
        seq![
            plain_finding(
                "pdf_overlay"@,
                "pdf_white_rectangle_overlay"@,
                "PDF contains "@ + decimal_text(c.0)
                    + " white-filled rectangle(s) - classic overlay attack pattern used to cover original content before placing new text"@,
                Severity::Critical,
                P85,
            ),
        ]
    } else if c.1 > 0 {
        seq![
            plain_finding(
                "pdf_overlay"@,
                "pdf_filled_rect_before_text"@,
                decimal_text(c.1)
                    + " instance(s) of filled rectangles followed by text operations - may indicate content overlay"@,
                Severity::Medium,
                P60,
            ),
        ]
    } else {
        seq![]
    }
}

impl OverlayDetector {
    /// Looks at one rectangle operator.
    fn look_at_rectangle(&self, t: &Vec<char>, i: usize) -> (r: Option<(bool, bool)>)
        requires
            i <= t@.len(),
        ensures
            r == rectangle_at(t@, i as int),
    {
        let fills: Vec<&'static str> = vec![" f\n", " f ", " f*", " F\n"];
        assert(texts(fills@) =~= fill_operators());
        let whites: Vec<&'static str> = vec![
            "1 1 1 rg", "1 1 1 RG", "1.0 1.0 1.0 rg", "1 g", "1.0 g",
        ];
        assert(texts(whites@) =~= white_operators());
        let e = match look_ahead(t, i, 100) {
            Some(e) => e,
            None => return None,
        };
        if !contains_any(&part(t, i, e), &fills) {
            return Some((false, false));
        }
        let b = match look_back(t, i, 200) {
            Some(b) => b,
            None => return None,
        };
        let f = match look_ahead(t, i, 500) {
            Some(f) => f,
            None => return None,
        };
        let white = contains_any(&part(t, b, i), &whites);
        let text = chars_contain(&part(t, i, f), &chars_of("BT"));
        Some((white, text))
    }

    /// Counts the filled white rectangles and the filled rectangles with text after them.
    pub fn count_rectangles(&self, t: &Vec<char>) -> (r: Option<(u64, u64)>)
        ensures
            match r {
                Some(c) => rectangles(t@, t@.len()) == Some((c.0 as nat, c.1 as nat)),
                None => rectangles(t@, t@.len()) is None,
            },
    {
        let re = chars_of(" re");
        let mut white: u64 = 0;
        let mut before: u64 = 0;
        let mut i: usize = 0;
        while i < t.len()
            invariant
                i <= t@.len(),
                re@ == " re"@,
                white <= i,
                before <= i,
                rectangles(t@, i as nat) == Some((white as nat, before as nat)),
            decreases t@.len() - i,
        {
            if chars_match_at(t, &re, i) {
                match self.look_at_rectangle(t, i) {
                    Some(r) => {
                        if r.0 {
                            white += 1;
                        }
                        if r.1 {
                            before += 1;
                        }
                    },
                    None => {
                        proof {
                            assert(rectangles(t@, (i + 1) as nat) is None);
                            lemma_stays_none(t@, (i + 1) as nat, t@.len());
                        }
                        return None;
                    },
                }
            }
            i += 1;
        }
        Some((white, before))
    }

    /// Reports filled rectangles.
    pub fn report_rectangles(&self, white: u64, before: u64, findings: &mut Vec<Finding>)
        ensures
            values(final(findings)@) == values(old(findings)@) + rectangle_findings(
                (white as nat, before as nat),
            ),
    {
        broadcast use group_values;

        if white > 0 {
            let mut d = "PDF contains ".to_string();
            append_decimal(&mut d, white);
            d.append(
                " white-filled rectangle(s) - classic overlay attack pattern used to cover original content before placing new text",
            );
            findings.push(
                Finding::new(
                    "pdf_overlay",
                    "pdf_white_rectangle_overlay",
                    d,
                    Severity::Critical,
                    P85,
                ),
            );
        }
        if before > 0 && white == 0 {
            let mut d = "".to_string();
            append_decimal(&mut d, before);
            d.append(
                " instance(s) of filled rectangles followed by text operations - may indicate content overlay",
            );
            proof {
                reveal_strlit("");
                assert(""@ + decimal_text(before as nat) =~= decimal_text(before as nat));
            }
            findings.push(
                Finding::new(
                    "pdf_overlay",
                    "pdf_filled_rect_before_text",
                    d,
                    Severity::Medium,
                    P60,
                ),
            );
        }
        assert(values(findings@) =~= values(old(findings)@) + rectangle_findings(
            (white as nat, before as nat),
        ));
    }
}

proof fn lemma_stays_none(t: Seq<char>, k: nat, n: nat)
    requires
        k <= n,
        rectangles(t, k) is None,
    ensures
        rectangles(t, n) is None,
    decreases n,
{
    if k < n {
        lemma_stays_none(t, k, (n - 1) as nat);
    }
}

/// Whether some large image is on a page.
pub open spec fn large_image_on(images: Seq<PageImage>, page: int) -> bool {
    exists|i: int|
        0 <= i < images.len() && (#[trigger] images[i]).page == page && images[i].width > 500
            && images[i].height > 500
}

/// Whether a page has text beyond a few bytes.
pub open spec fn has_text(t: Seq<char>) -> bool {
    text_bytes(trimmed(t)) > 5
}

/// The numbers, from one on, of the first `n` pages that have a large image and text. The
/// pages of images are 32-bit numbers, with which pages are matched.
pub open spec fn mixed_pages(images: Seq<PageImage>, pages: Seq<Seq<char>>, n: nat) -> Seq<
    Seq<char>,
>
    decreases n,
{
    if n == 0 {
        seq![]
    } else if large_image_on(images, (n - 1) % 0x1_0000_0000) && has_text(pages[n - 1]) {
        mixed_pages(images, pages, (n - 1) as nat).push(decimal_text(n))
    } else {
        mixed_pages(images, pages, (n - 1) as nat)
    }
}

/// The finding of scanned pages with text.
pub open spec fn mixed_findings(images: Seq<PageImage>, pages: Seq<Seq<char>>) -> Seq<
    FindingView,
> {
    let mixed = mixed_pages(images, pages, pages.len());
    if mixed.len() > 0 {
        seq![
            plain_finding(
                "pdf_overlay"@,
                "pdf_mixed_scan_and_text"@,
                "Pages ["@ + joined(mixed, ", "@, mixed.len())
                    + "] contain both scanned images AND vector text - a genuine scan should not have selectable/vector text overlaid. Text may have been added to modify scanned content"@,
                Severity::High,
                P70,
            ),
        ]
    } else {
        seq![]
    }
}

fn byte_length(t: &Vec<char>) -> (r: u128)
    ensures
        r == text_bytes(t@),
{
    let mut n: u128 = 0;
    let mut i: usize = 0;
    assert(t@.take(0) =~= seq![]);
    while i < t.len()
        invariant
            i <= t@.len(),
            n == text_bytes(t@.take(i as int)),
            n <= 4 * i,
        decreases t@.len() - i,
    {
        n += char_len(t[i]) as u128;
        proof {
            assert(t@.take(i + 1).drop_last() =~= t@.take(i as int));
            assert(t@.take(i + 1).last() == t@[i as int]);
        }
        i += 1;
    }
    assert(t@.take(i as int) =~= t@);
    n
}

impl OverlayDetector {
    /// Whether some large image is on a page.
    fn has_large_image(&self, images: &Vec<PageImage>, page: u32) -> (r: bool)
        ensures
            r == large_image_on(images@, page as int),
    {
        let mut i: usize = 0;
        while i < images.len()
            invariant
                i <= images@.len(),
                forall|j: int|
                    0 <= j < i ==> !((#[trigger] images@[j]).page == page && images@[j].width > 500
                        && images@[j].height > 500),
            decreases images@.len() - i,
        {
            if images[i].page == page && images[i].width > 500 && images[i].height > 500 {
                return true;
            }
            i += 1;
        }
        false
    }

    /// Checks for scanned pages with text.
    pub fn check_mixed_content(
        &self,
        images: &Vec<PageImage>,
        text_pages: &Vec<String>,
        findings: &mut Vec<Finding>,
    )
        ensures
            values(final(findings)@) == values(old(findings)@) + mixed_findings(
                images@,
                strings(text_pages@),
            ),
    {
        broadcast use group_values;

        let mut mixed: Vec<String> = Vec::new();
        let mut i: usize = 0;
        let ghost pages = strings(text_pages@);
        assert(strings(mixed@) =~= mixed_pages(images@, pages, 0));
        while i < text_pages.len()
            invariant
                i <= text_pages@.len(),
                pages == strings(text_pages@),
                strings(mixed@) == mixed_pages(images@, pages, i as nat),
            decreases text_pages@.len() - i,
        {
            assert(pages[i as int] == text_pages@[i as int]@);
            let inner = trim(&chars_of(text_pages[i].as_str()));
            if self.has_large_image(images, (i as u64 % 0x1_0000_0000) as u32) && byte_length(&inner) > 5 {
                let ghost before = mixed@;
                let mut s = "".to_string();
                append_decimal(&mut s, i as u64 + 1);
                proof {
                    reveal_strlit("");
                    assert(""@ + decimal_text((i + 1) as nat) =~= decimal_text((i + 1) as nat));
                }
                mixed.push(s);
                assert(strings(mixed@) =~= strings(before).push(s@));
            }
            i += 1;
        }
        assert(strings(mixed@).len() == mixed@.len());
        if mixed.len() > 0 {
            let mut d = "Pages [".to_string();
            let list = join(&mixed, ", ", mixed.len());
            d.append(list.as_str());
            d.append(
                "] contain both scanned images AND vector text - a genuine scan should not have selectable/vector text overlaid. Text may have been added to modify scanned content",
            );
            findings.push(
                Finding::new("pdf_overlay", "pdf_mixed_scan_and_text", d, Severity::High, P70),
            );
        }
        assert(values(findings@) =~= values(old(findings)@) + mixed_findings(images@, pages));
    }
}

/// Whether a document has an image of the size of a scanned page.
pub open spec fn scan_like(images: Seq<PageImage>) -> bool {
    exists|i: int|
        0 <= i < images.len() && (#[trigger] images[i]).width > 1000 && images[i].height > 1000
}

/// The index behind exactly `n` bytes from index `i` on, where there is one.
pub open spec fn exactly_ahead(t: Seq<char>, i: int, n: int) -> Option<int>
    decreases t.len() - i,
{
    if n == 0 {
        Some(i)
    } else if i >= t.len() || char_bytes(t[i]) > n {
        None
    } else {
        exactly_ahead(t, i + 1, n - char_bytes(t[i]))
    }
}

/// Whether a character ends a name.
pub open spec fn ends_name(c: char) -> bool {
    white_space(c) || c == '/' || c == '>'
}

/// The first index from `i` on and before `e` of a character that ends a name.
pub open spec fn name_end(t: Seq<char>, i: int, e: int) -> Option<int>
    decreases e - i,
{
    if i >= e {
        None
    } else if ends_name(t[i]) {
        Some(i)
    } else {
        name_end(t, i + 1, e)
    }
}

/// The font that the key at index `i` names: what stands between ten bytes behind the key's
/// beginning and the first character that ends a name, within eighty bytes; it may be
/// missing. There is no answer where a window is cut inside a character or by the end of the
/// text.
pub open spec fn font_at(t: Seq<char>, i: int) -> Option<Option<Seq<char>>> {
    match (exactly_ahead(t, i, 10), ahead(t, i, 80)) {
        (Some(s), Some(e)) => match name_end(t, s, e) {
            Some(n) => if n > s {
                Some(Some(t.subrange(s, n)))
            } else {
                Some(None)
            },
            None => Some(None),
        },
        _ => None,
    }
}

/// The fonts that the keys before index `n` name, in alphabetical order.
pub open spec fn fonts(t: Seq<char>, n: nat) -> Option<Seq<Seq<char>>>
    decreases n,
{
    if n == 0 {
        Some(seq![])
    } else {
        match fonts(t, (n - 1) as nat) {
            None => None,
            Some(f) => if !occurs_at(t, "/BaseFont"@, n - 1) {
                Some(f)
            } else {
                match font_at(t, n - 1) {
                    None => None,
                    Some(None) => Some(f),
                    Some(Some(name)) => Some(with_text(f, name, 0)),
                }
            },
        }
    }
}

/// The findings of fonts in a scanned document.
pub open spec fn font_findings(f: Seq<Seq<char>>) -> Seq<FindingView> {
    let a = if f.len() > 0 {
        seq![
            plain_finding(
                "pdf_overlay"@,
                "pdf_fonts_in_scan"@,
                "Scanned document contains "@ + decimal_text(f.len()) + " embedded font(s): "@
                    + joined(f, ", "@, f.len())
                    + " - fonts should not be present in a pure scan. Text was likely added or modified using a PDF editor"@,
                Severity::High,
                P80,
            ),
        ]
    } else {
        seq![]
    };
    let b = if f.len() > 2 {
        seq![
            plain_finding(
                "pdf_overlay"@,
                "pdf_multiple_fonts_in_scan"@,
                "Scanned document uses "@ + decimal_text(f.len())
                    + " different fonts - multiple font families in an allegedly scanned document is highly suspicious"@,
                Severity::Critical,
                P85,
            ),
        ]
    } else {
        seq![]
    };
    a + b
}

/// The fonts of a document are listed in alphabetical order, each of them once.
pub proof fn law_fonts_sorted(t: Seq<char>, n: nat)
    requires
        n <= t.len(),
    ensures
        fonts(t, n) matches Some(f) ==> ascending_texts(f),
    decreases n,
{
    if n > 0 {
        law_fonts_sorted(t, (n - 1) as nat);
        if let Some(f) = fonts(t, (n - 1) as nat) {
            if let Some(Some(name)) = font_at(t, n - 1) {
                law_insert_keeps_order(f, name);
            }
        }
    }
}

proof fn lemma_fonts_stay_none(t: Seq<char>, k: nat, n: nat)
    requires
        k <= n,
        fonts(t, k) is None,
    ensures
        fonts(t, n) is None,
    decreases n,
{
    if k < n {
        lemma_fonts_stay_none(t, k, (n - 1) as nat);
    }
}

proof fn lemma_exactly_ahead(t: Seq<char>, i: int, n: int, m: int)
    requires
        0 <= i <= t.len(),
        0 <= n <= m,
    ensures
        exactly_ahead(t, i, n) matches Some(s) ==> i <= s <= t.len() && (ahead(t, i, m) matches Some(
            e,
        ) ==> s <= e),
    decreases t.len() - i,
{
    if n > 0 && i < t.len() && char_bytes(t[i]) <= n {
        lemma_exactly_ahead(t, i + 1, n - char_bytes(t[i]), m - char_bytes(t[i]));
    } else if n == 0 {
        lemma_ahead_forward(t, i, m);
    }
}

proof fn lemma_ahead_forward(t: Seq<char>, i: int, n: int)
    requires
        0 <= i <= t.len(),
        0 <= n,
    ensures
        ahead(t, i, n) matches Some(e) ==> i <= e <= t.len(),
    decreases t.len() - i,
{
    if i < t.len() && n > 0 && char_bytes(t[i]) <= n {
        lemma_ahead_forward(t, i + 1, n - char_bytes(t[i]));
    }
}

fn look_exactly_ahead(t: &Vec<char>, from: usize, n: usize) -> (r: Option<usize>)
    requires
        from <= t@.len(),
    ensures
        match r {
            Some(e) => exactly_ahead(t@, from as int, n as int) == Some(e as int) && from <= e
                <= t@.len(),
            None => exactly_ahead(t@, from as int, n as int) is None,
        },
{
    let mut i: usize = from;
    let mut left: usize = n;
    while left > 0
        invariant
            from <= i <= t@.len(),
            exactly_ahead(t@, from as int, n as int) == exactly_ahead(t@, i as int, left as int),
        decreases left,
    {
        if i >= t.len() {
            return None;
        }
        let c = char_len(t[i]);
        if c > left {
            return None;
        }
        left -= c;
        i += 1;
    }
    Some(i)
}

impl OverlayDetector {
    /// Whether a document has an image of the size of a scanned page.
    pub fn is_scan_like(&self, images: &Vec<PageImage>) -> (r: bool)
        ensures
            r == scan_like(images@),
    {
        let mut i: usize = 0;
        while i < images.len()
            invariant
                i <= images@.len(),
                forall|j: int|
                    0 <= j < i ==> !((#[trigger] images@[j]).width > 1000 && images@[j].height
                        > 1000),
            decreases images@.len() - i,
        {
            if images[i].width > 1000 && images[i].height > 1000 {
                return true;
            }
            i += 1;
        }
        false
    }

    /// The font that the key at index `i` names.
    fn font_name(&self, t: &Vec<char>, i: usize) -> (r: Option<Option<String>>)
        requires
            i <= t@.len(),
        ensures
            match r {
                Some(Some(s)) => font_at(t@, i as int) == Some(Some(s@)),
                Some(None) => font_at(t@, i as int) == Some(None::<Seq<char>>),
                None => font_at(t@, i as int) is None,
            },
    {
        let s = match look_exactly_ahead(t, i, 10) {
            Some(s) => s,
            None => return None,
        };
        let e = match look_ahead(t, i, 80) {
            Some(e) => e,
            None => return None,
        };
        proof {
            lemma_exactly_ahead(t@, i as int, 10, 80);
        }
        let mut name: String = String::new();
        let mut k: usize = s;
        assert(name@ =~= t@.subrange(s as int, s as int));
        while k < e
            invariant
                i <= t@.len(),
                s <= k <= e <= t@.len(),
                exactly_ahead(t@, i as int, 10) == Some(s as int),
                ahead(t@, i as int, 80) == Some(e as int),
                name_end(t@, s as int, e as int) == name_end(t@, k as int, e as int),
                name@ == t@.subrange(s as int, k as int),
            decreases e - k,
        {
            let c = t[k];
            if is_white(c) || c == '/' || c == '>' {
                if k > s {
                    return Some(Some(name));
                }
                return Some(None);
            }
            name.push(c);
            k += 1;
            assert(name@ =~= t@.subrange(s as int, k as int));
        }
        Some(None)
    }

    /// The fonts that a document names, in alphabetical order, each of them once.
    pub fn font_names(&self, t: &Vec<char>) -> (r: Option<Vec<String>>)
        ensures
            match r {
                Some(f) => fonts(t@, t@.len()) == Some(strings(f@)),
                None => fonts(t@, t@.len()) is None,
            },
    {
        let key = chars_of("/BaseFont");
        let mut list: Vec<String> = Vec::new();
        let mut i: usize = 0;
        assert(strings(list@) =~= seq![]);
        while i < t.len()
            invariant
                i <= t@.len(),
                key@ == "/BaseFont"@,
                fonts(t@, i as nat) == Some(strings(list@)),
            decreases t@.len() - i,
        {
            if chars_match_at(t, &key, i) {
                match self.font_name(t, i) {
                    Some(Some(name)) => {
                        insert_text(&mut list, &name);
                    },
                    Some(None) => {},
                    None => {
                        proof {
                            assert(fonts(t@, (i + 1) as nat) is None);
                            lemma_fonts_stay_none(t@, (i + 1) as nat, t@.len());
                        }
                        return None;
                    },
                }
            }
            i += 1;
        }
        Some(list)
    }

    /// Reports the fonts of a scanned document.
    pub fn report_fonts(&self, names: &Vec<String>, findings: &mut Vec<Finding>)
        ensures
            values(final(findings)@) == values(old(findings)@) + font_findings(strings(names@)),
    {
        broadcast use group_values;

        assert(strings(names@).len() == names@.len());
        if names.len() > 0 {
            let mut d = "Scanned document contains ".to_string();
            append_decimal(&mut d, names.len() as u64);
            d.append(" embedded font(s): ");
            let list = join(names, ", ", names.len());
            d.append(list.as_str());
            d.append(
                " - fonts should not be present in a pure scan. Text was likely added or modified using a PDF editor",
            );
            findings.push(Finding::new("pdf_overlay", "pdf_fonts_in_scan", d, Severity::High, P80));
        }
        if names.len() > 2 {
            let mut d = "Scanned document uses ".to_string();
            append_decimal(&mut d, names.len() as u64);
            d.append(
                " different fonts - multiple font families in an allegedly scanned document is highly suspicious",
            );
            findings.push(
                Finding::new(
                    "pdf_overlay",
                    "pdf_multiple_fonts_in_scan",
                    d,
                    Severity::Critical,
                    P85,
                ),
            );
        }
        assert(values(findings@) =~= values(old(findings)@) + font_findings(strings(names@)));
    }
}

/// The bytes ` 0 obj`.
pub open spec fn obj_key() -> Seq<u8> {
    seq![0x20u8, 0x30, 0x20, 0x6f, 0x62, 0x6a]
}

/// The bytes `/Image`.
pub open spec fn image_key() -> Seq<u8> {
    seq![0x2fu8, 0x49, 0x6d, 0x61, 0x67, 0x65]
}

/// The bytes `/Width `.
pub open spec fn width_key() -> Seq<u8> {
    seq![0x2fu8, 0x57, 0x69, 0x64, 0x74, 0x68, 0x20]
}

/// The bytes `/Height `.
pub open spec fn height_key() -> Seq<u8> {
    seq![0x2fu8, 0x48, 0x65, 0x69, 0x67, 0x68, 0x74, 0x20]
}

/// The bytes `/Length `.
pub open spec fn length_key() -> Seq<u8> {
    seq![0x2fu8, 0x4c, 0x65, 0x6e, 0x67, 0x74, 0x68, 0x20]
}

/// An image object of a PDF file: its number, its size in pixels and the length of its data.
#[derive(Clone, Copy, PartialEq, Eq, Structural, Debug)]
pub struct EncodedImage {
    pub number: u32,
    pub width: u32,
    pub height: u32,
    pub length: u32,
}

/// Where the word that ends before `at` begins: behind the last line end or space.
pub open spec fn word_start(raw: Seq<u8>, at: int) -> int
    decreases at,
{
    if at <= 0 {
        0
    } else if raw[at - 1] == 0x0a || raw[at - 1] == 0x0d || raw[at - 1] == 0x20 {
        at
    } else {
        word_start(raw, at - 1)
    }
}

/// The number that the word before `at` writes, or zero.
pub open spec fn number_before(raw: Seq<u8>, at: int) -> u32 {
    let word = raw.subrange(word_start(raw, at), at);
    if valid_utf8(word) {
        match number_in(trimmed(decode_utf8(word))) {
            Some(n) => n,
            None => 0,
        }
    } else {
        0
    }
}

/// The bytes of an object that are searched: at most a thousand from `at` on.
pub open spec fn object_bytes(raw: Seq<u8>, at: int) -> Seq<u8> {
    raw.subrange(
        at,
        if at + 1000 < raw.len() {
            at + 1000
        } else {
            raw.len() as int
        },
    )
}

/// The image that the object at `at` is, if it is one with a size and data.
pub open spec fn image_at(raw: Seq<u8>, at: int) -> Option<EncodedImage> {
    let d = object_bytes(raw, at);
    let width = integer_after(d, width_key());
    let height = integer_after(d, height_key());
    let length = integer_after(d, length_key());
    if occurs_in(d, image_key()) && width > 0 && height > 0 && length > 0 {
        Some(EncodedImage { number: number_before(raw, at), width, height, length })
    } else {
        None
    }
}

/// The image objects from position `pos` on. Objects that begin in the last twenty bytes
/// are not looked for.
pub open spec fn images_from(raw: Seq<u8>, pos: int) -> Seq<EncodedImage>
    decreases raw.len() - pos,
{
    if pos < 0 || pos + 20 >= raw.len() {
        seq![]
    } else {
        match first_from(raw, obj_key(), pos) {
            None => seq![],
            Some(at) => if at < pos || at + 6 > raw.len() {
                seq![]
            } else {
                let rest = images_from(raw, at + 6);
                match image_at(raw, at) {
                    Some(i) => seq![i] + rest,
                    None => rest,
                }
            },
        }
    }
}

fn start_of_word(raw: &[u8], at: usize) -> (r: usize)
    requires
        at <= raw@.len(),
    ensures
        r == word_start(raw@, at as int),
        r <= at,
{
    let mut i: usize = at;
    while i > 0 && raw[i - 1] != 0x0a && raw[i - 1] != 0x0d && raw[i - 1] != 0x20
        invariant
            i <= at <= raw@.len(),
            word_start(raw@, at as int) == word_start(raw@, i as int),
        decreases i,
    {
        i -= 1;
    }
    i
}

fn read_number_before(raw: &[u8], at: usize) -> (r: u32)
    requires
        at <= raw@.len(),
    ensures
        r == number_before(raw@, at as int),
{
    let from = start_of_word(raw, at);
    let word = copy_range(raw, from, at);
    match utf8_text(word.as_slice()) {
        Some(s) => match parse_number(&trim(&chars_of(s.as_str()))) {
            Some(n) => n,
            None => 0,
        },
        None => 0,
    }
}

fn read_image(raw: &[u8], at: usize) -> (r: Option<EncodedImage>)
    requires
        at <= raw@.len(),
    ensures
        r == image_at(raw@, at as int),
{
    let end: usize = if raw.len() - at > 1000 {
        at + 1000
    } else {
        raw.len()
    };
    let d = copy_range(raw, at, end);
    assert(d@ == object_bytes(raw@, at as int));
    let image: [u8; 6] = [0x2f, 0x49, 0x6d, 0x61, 0x67, 0x65];
    let wk: [u8; 7] = [0x2f, 0x57, 0x69, 0x64, 0x74, 0x68, 0x20];
    let hk: [u8; 8] = [0x2f, 0x48, 0x65, 0x69, 0x67, 0x68, 0x74, 0x20];
    let lk: [u8; 8] = [0x2f, 0x4c, 0x65, 0x6e, 0x67, 0x74, 0x68, 0x20];
    assert(image@ =~= image_key());
    assert(wk@ =~= width_key());
    assert(hk@ =~= height_key());
    assert(lk@ =~= length_key());
    if !contains_bytes(d.as_slice(), image.as_slice()) {
        return None;
    }
    let width = extract_int(d.as_slice(), wk.as_slice());
    let height = extract_int(d.as_slice(), hk.as_slice());
    let length = extract_int(d.as_slice(), lk.as_slice());
    if width > 0 && height > 0 && length > 0 {
        Some(EncodedImage { number: read_number_before(raw, at), width, height, length })
    } else {
        None
    }
}

/// An image object with what is computed of it: its bytes per pixel as text with four
/// decimals, and how many times smaller it is than the average strip, as a key and as text
/// without decimals.
pub struct MeasuredImage {
    pub image: EncodedImage,
    pub bytes_per_pixel: String,
    pub ratio: i64,
    pub ratio_text: String,
}

/// Above this ratio an image is far smaller than the strips, as a key: 10.0.
pub const SIZE_DISPARITY: i64 = 0x4024_0000_0000_0000;

/// An image of a full page.
pub open spec fn is_full_page(i: EncodedImage) -> bool {
    i.height > 500
}

/// A strip of a scanned page.
pub open spec fn is_strip(i: EncodedImage) -> bool {
    i.height <= 100 && i.width > 500
}

/// How many of the first `n` images are of full pages.
pub open spec fn full_pages(m: Seq<MeasuredImage>, n: nat) -> nat
    decreases n,
{
    if n == 0 {
        0
    } else {
        full_pages(m, (n - 1) as nat) + if is_full_page(m[n - 1].image) {
            1nat
        } else {
            0
        }
    }
}

/// How many of the first `n` images are strips.
pub open spec fn strips(m: Seq<MeasuredImage>, n: nat) -> nat
    decreases n,
{
    if n == 0 {
        0
    } else {
        strips(m, (n - 1) as nat) + if is_strip(m[n - 1].image) {
            1nat
        } else {
            0
        }
    }
}

/// The length of the data of the strips among the first `n` images.
pub open spec fn strip_bytes(m: Seq<MeasuredImage>, n: nat) -> nat
    decreases n,
{
    if n == 0 {
        0
    } else {
        strip_bytes(m, (n - 1) as nat) + if is_strip(m[n - 1].image) {
            m[n - 1].image.length as nat
        } else {
            0
        }
    }
}

/// Whether a full page has far too little data for its pixels.
pub open spec fn is_placeholder(i: EncodedImage) -> bool {
    is_full_page(i) && share_below(i.length as int, i.width * i.height, 5, 100) && i.width
        * i.height > 500_000
}

/// The finding of a placeholder.
pub open spec fn placeholder_finding(m: MeasuredImage) -> FindingView {
    let i = m.image;
    plain_finding(
        "pdf_overlay"@,
        "pdf_scan_replaced_with_placeholder"@,
        "Page image (obj "@ + decimal_text(i.number as nat) + ", "@ + decimal_text(
            i.width as nat,
        ) + "x"@ + decimal_text(i.height as nat)
            + ") has abnormally small data ("@ + decimal_text(i.length as nat)
            + " bytes, "@ + m.bytes_per_pixel@
            + " bytes/pixel) - a genuine scan at this resolution would be 100-500KB. This indicates the original scan was replaced with a heavily compressed placeholder by a PDF editor, which is a strong sign of page-level manipulation"@,
        Severity::Critical,
        P90,
    )
}

/// The findings of placeholders among the first `n` images.
pub open spec fn placeholder_findings(m: Seq<MeasuredImage>, n: nat) -> Seq<FindingView>
    decreases n,
{
    if n == 0 {
        seq![]
    } else {
        let i = m[n - 1].image;
        let before = placeholder_findings(m, (n - 1) as nat);
        if is_placeholder(i) {
            before.push(placeholder_finding(m[n - 1]))
        } else {
            before
        }
    }
}

/// The finding of strips beside full pages.
pub open spec fn encoding_findings(m: Seq<MeasuredImage>) -> Seq<FindingView> {
    let s = strips(m, m.len());
    let f = full_pages(m, m.len());
    if s > 0 && f > 0 {
        seq![
            plain_finding(
                "pdf_overlay"@,
                "pdf_mixed_image_encoding"@,
                "PDF contains "@ + decimal_text(s) + " strip-encoded scan images and "@
                    + decimal_text(f)
                    + " full-page images - genuine scanner output uses consistent encoding. Mixed encoding suggests some pages were re-processed by a PDF editor"@,
                Severity::High,
                P80,
            ),
        ]
    } else {
        seq![]
    }
}

/// The finding of a full page that is far smaller than the strips.
pub open spec fn disparity_finding(m: MeasuredImage, average: Seq<char>) -> FindingView {
    let i = m.image;
    plain_finding(
        "pdf_overlay"@,
        "pdf_page_image_size_disparity"@,
        "Page image (obj "@ + decimal_text(i.number as nat) + ", "@ + decimal_text(
            i.width as nat,
        ) + "x"@ + decimal_text(i.height as nat) + ", "@ + decimal_text(
            i.length as nat,
        ) + " bytes) is "@ + m.ratio_text@
            + "x smaller than average page scan ("@ + average
            + " bytes) - pages scanned together should have similar image sizes. This page was likely replaced or re-encoded by a PDF editor"@,
        Severity::High,
        P85,
    )
}

/// The findings of full pages among the first `n` images that are far smaller than the
/// strips. `average` is the average length of a strip without decimals.
pub open spec fn disparity_findings(m: Seq<MeasuredImage>, average: Seq<char>, n: nat) -> Seq<
    FindingView,
>
    decreases n,
{
    if n == 0 {
        seq![]
    } else {
        let i = m[n - 1].image;
        let before = disparity_findings(m, average, (n - 1) as nat);
        if i.length > 0 && is_full_page(i) && m[n - 1].ratio > SIZE_DISPARITY {
            before.push(disparity_finding(m[n - 1], average))
        } else {
            before
        }
    }
}

/// The findings on the sizes of page images.
pub open spec fn size_findings(m: Seq<MeasuredImage>, average: Seq<char>) -> Seq<FindingView> {
    placeholder_findings(m, m.len()) + encoding_findings(m) + if m.len() >= 2 && strip_bytes(
        m,
        m.len(),
    ) > 0 {
        disparity_findings(m, average, m.len())
    } else {
        seq![]
    }
}

fn append_image(d: &mut String, i: &EncodedImage)
    ensures
        final(d)@ == old(d)@ + decimal_text(i.number as nat) + ", "@ + decimal_text(i.width as nat)
            + "x"@ + decimal_text(i.height as nat),
{
    append_decimal(d, i.number as u64);
    d.append(", ");
    append_decimal(d, i.width as u64);
    d.append("x");
    append_decimal(d, i.height as u64);
}

impl OverlayDetector {
    /// The image objects of a file.
    pub fn page_images(&self, raw: &[u8]) -> (r: Vec<EncodedImage>)
        ensures
            r@ == images_from(raw@, 0),
    {
        let key: [u8; 6] = [0x20, 0x30, 0x20, 0x6f, 0x62, 0x6a];
        assert(key@ =~= obj_key());
        let mut r: Vec<EncodedImage> = Vec::new();
        let mut pos: usize = 0;
        assert(r@ + images_from(raw@, 0) =~= images_from(raw@, 0));
        while pos < raw.len() && raw.len() - pos > 20
            invariant
                key@ == obj_key(),
                r@ + images_from(raw@, pos as int) == images_from(raw@, 0),
            decreases raw@.len() - pos,
        {
            match find_bytes(raw, key.as_slice(), pos) {
                Some(at) => {
                    let ghost before = r@;
                    if let Some(i) = read_image(raw, at) {
                        r.push(i);
                        assert(r@ + images_from(raw@, at + 6) =~= before + (seq![i] + images_from(
                            raw@,
                            at + 6,
                        )));
                    }
                    pos = at + 6;
                },
                None => {
                    assert(r@ =~= r@ + images_from(raw@, pos as int));
                    return r;
                },
            }
        }
        assert(r@ =~= r@ + images_from(raw@, pos as int));
        r
    }

    fn placeholder(&self, m: &MeasuredImage) -> (r: Finding)
        ensures
            r@ == placeholder_finding(*m),
    {
        let mut d = "Page image (obj ".to_string();
        append_image(&mut d, &m.image);
        d.append(") has abnormally small data (");
        append_decimal(&mut d, m.image.length as u64);
        d.append(" bytes, ");
        d.append(m.bytes_per_pixel.as_str());
        d.append(
            " bytes/pixel) - a genuine scan at this resolution would be 100-500KB. This indicates the original scan was replaced with a heavily compressed placeholder by a PDF editor, which is a strong sign of page-level manipulation",
        );
        Finding::new(
            "pdf_overlay",
            "pdf_scan_replaced_with_placeholder",
            d,
            Severity::Critical,
            P90,
        )
    }

    fn disparity(&self, m: &MeasuredImage, average: &str) -> (r: Finding)
        ensures
            r@ == disparity_finding(*m, average@),
    {
        let mut d = "Page image (obj ".to_string();
        append_image(&mut d, &m.image);
        d.append(", ");
        append_decimal(&mut d, m.image.length as u64);
        d.append(" bytes) is ");
        d.append(m.ratio_text.as_str());
        d.append("x smaller than average page scan (");
        d.append(average);
        d.append(
            " bytes) - pages scanned together should have similar image sizes. This page was likely replaced or re-encoded by a PDF editor",
        );
        Finding::new("pdf_overlay", "pdf_page_image_size_disparity", d, Severity::High, P85)
    }

    /// Reports full pages with far too little data for their pixels.
    fn report_placeholders(&self, m: &Vec<MeasuredImage>, findings: &mut Vec<Finding>)
        ensures
            values(final(findings)@) == values(old(findings)@) + placeholder_findings(m@, m@.len()),
    {
        broadcast use group_values;

        let mut k: usize = 0;
        assert(values(findings@) =~= values(old(findings)@) + placeholder_findings(m@, 0));
        while k < m.len()
            invariant
                k <= m@.len(),
                values(findings@) == values(old(findings)@) + placeholder_findings(m@, k as nat),
            decreases m@.len() - k,
        {
            let i = m[k].image;
            let pixels: u64 = area(i.width, i.height);
            if i.height > 500 && is_share_below(i.length as u64, pixels, 5, 100) && pixels
                > 500_000 {
                let ghost before = findings@;
                let f = self.placeholder(&m[k]);
                findings.push(f);
                assert(values(findings@) == values(before).push(placeholder_finding(m@[k as int])));
            }
            k += 1;
            assert(values(findings@) =~= values(old(findings)@) + placeholder_findings(
                m@,
                k as nat,
            ));
        }
    }

    /// Reports full pages that are far smaller than the strips.
    fn report_disparities(&self, m: &Vec<MeasuredImage>, average: &str, findings: &mut Vec<Finding>)
        ensures
            values(final(findings)@) == values(old(findings)@) + disparity_findings(
                m@,
                average@,
                m@.len(),
            ),
    {
        broadcast use group_values;

        let mut k: usize = 0;
        assert(values(findings@) =~= values(old(findings)@) + disparity_findings(m@, average@, 0));
        while k < m.len()
            invariant
                k <= m@.len(),
                values(findings@) == values(old(findings)@) + disparity_findings(
                    m@,
                    average@,
                    k as nat,
                ),
            decreases m@.len() - k,
        {
            let i = m[k].image;
            if i.length > 0 && i.height > 500 && m[k].ratio > SIZE_DISPARITY {
                let ghost before = findings@;
                let f = self.disparity(&m[k], average);
                findings.push(f);
                assert(values(findings@) == values(before).push(
                    disparity_finding(m@[k as int], average@),
                ));
            }
            k += 1;
            assert(values(findings@) =~= values(old(findings)@) + disparity_findings(
                m@,
                average@,
                k as nat,
            ));
        }
    }

    /// The number of strips and the length of their data.
    pub fn strip_totals(&self, m: &Vec<MeasuredImage>) -> (r: (u64, u128))
        ensures
            r.0 == strips(m@, m@.len()),
            r.1 == strip_bytes(m@, m@.len()),
    {
        let mut n: u64 = 0;
        let mut total: u128 = 0;
        let mut k: usize = 0;
        while k < m.len()
            invariant
                k <= m@.len(),
                n <= k,
                n == strips(m@, k as nat),
                total == strip_bytes(m@, k as nat),
                total <= u32::MAX * k,
            decreases m@.len() - k,
        {
            let i = m[k].image;
            if i.height <= 100 && i.width > 500 {
                n += 1;
                total += i.length as u128;
            }
            k += 1;
        }
        (n, total)
    }

    /// Checks the sizes of page images.
    pub fn check_page_image_sizes(
        &self,
        m: &Vec<MeasuredImage>,
        average: &str,
        findings: &mut Vec<Finding>,
    )
        ensures
            values(final(findings)@) == values(old(findings)@) + size_findings(m@, average@),
    {
        broadcast use group_values;

        self.report_placeholders(m, findings);
        let (n, total) = self.strip_totals(m);
        let mut full: u64 = 0;
        let mut k: usize = 0;
        while k < m.len()
            invariant
                k <= m@.len(),
                full <= k,
                full == full_pages(m@, k as nat),
            decreases m@.len() - k,
        {
            if m[k].image.height > 500 {
                full += 1;
            }
            k += 1;
        }
        if n > 0 && full > 0 {
            let mut d = "PDF contains ".to_string();
            append_decimal(&mut d, n);
            d.append(" strip-encoded scan images and ");
            append_decimal(&mut d, full);
            d.append(
                " full-page images - genuine scanner output uses consistent encoding. Mixed encoding suggests some pages were re-processed by a PDF editor",
            );
            findings.push(
                Finding::new("pdf_overlay", "pdf_mixed_image_encoding", d, Severity::High, P80),
            );
        }
        assert(values(findings@) =~= values(old(findings)@) + placeholder_findings(m@, m@.len())
            + encoding_findings(m@));
        if m.len() >= 2 && total > 0 {
            self.report_disparities(m, average, findings);
        }
        assert(values(findings@) =~= values(old(findings)@) + size_findings(m@, average@));
    }
}

/// What a document reader found: annotations, page images and page texts, each where it
/// could be read.
pub struct DocumentParts {
    pub annotations: Option<Vec<Annotation>>,
    pub images: Option<Vec<PageImage>>,
    pub text_pages: Option<Vec<String>>,
}

/// The findings on annotations, where they could be read.
pub open spec fn part_annotations(d: DocumentParts) -> Seq<FindingView> {
    match d.annotations {
        Some(a) => annotation_findings(a@),
        None => seq![],
    }
}

/// The findings on scanned pages with text, where there are images.
pub open spec fn part_mixed(d: DocumentParts) -> Seq<FindingView> {
    match (d.images, d.text_pages) {
        (Some(i), Some(t)) => mixed_findings(i@, strings(t@)),
        _ => seq![],
    }
}

/// The fonts of a scanned document.
pub open spec fn part_fonts(d: DocumentParts, t: Seq<char>) -> Option<Seq<FindingView>> {
    match d.images {
        Some(i) => if scan_like(i@) {
            match fonts(t, t.len()) {
                Some(f) => Some(font_findings(f)),
                None => None,
            }
        } else {
            Some(seq![])
        },
        None => Some(seq![]),
    }
}

/// All findings on overlaid content. There are none where a window of the content is cut
/// inside a character.
pub open spec fn overlay_findings(
    raw: Seq<u8>,
    d: DocumentParts,
    m: Seq<MeasuredImage>,
    average: Seq<char>,
) -> Seq<FindingView> {
    let t = lossy_chars(raw);
    match (rectangles(t, t.len()), part_fonts(d, t)) {
        (Some(c), Some(f)) => part_annotations(d) + rectangle_findings(c) + part_mixed(d) + f
            + size_findings(m, average),
        _ => seq![],
    }
}

impl OverlayDetector {
    /// All findings on overlaid content. `m` holds the image objects of the file, measured;
    /// `average` is the average length of a strip without decimals.
    pub fn analyze(
        &self,
        raw: &[u8],
        d: &DocumentParts,
        m: &Vec<MeasuredImage>,
        average: &str,
    ) -> (r: Vec<Finding>)
        ensures
            values(r@) == overlay_findings(raw@, *d, m@, average@),
    {
        broadcast use group_values;

        let text = lossy(raw);
        let t = chars_of(text.as_str());
        let mut r: Vec<Finding> = Vec::new();
        let rects = match self.count_rectangles(&t) {
            Some(c) => c,
            None => {
                assert(values(r@) =~= overlay_findings(raw@, *d, m@, average@));
                return r;
            },
        };
        let mut names: Vec<String> = Vec::new();
        assert(strings(names@) =~= seq![]);
        if let Some(i) = &d.images {
            if self.is_scan_like(i) {
                match self.font_names(&t) {
                    Some(n) => {
                        names = n;
                    },
                    None => {
                        assert(values(r@) =~= overlay_findings(raw@, *d, m@, average@));
                        return r;
                    },
                }
            }
        }
        assert(part_fonts(*d, t@) == Some(font_findings(strings(names@)))) by {
            assert(font_findings(seq![]) =~= seq![]);
        }
        if let Some(a) = &d.annotations {
            self.check_suspicious_annotations(a, &mut r);
        }
        assert(values(r@) =~= part_annotations(*d));
        self.report_rectangles(rects.0, rects.1, &mut r);
        if let Some(i) = &d.images {
            if let Some(p) = &d.text_pages {
                self.check_mixed_content(i, p, &mut r);
            }
        }
        assert(values(r@) =~= part_annotations(*d) + rectangle_findings(
            (rects.0 as nat, rects.1 as nat),
        ) + part_mixed(*d));
        self.report_fonts(&names, &mut r);
        self.check_page_image_sizes(m, average, &mut r);
        assert(values(r@) =~= overlay_findings(raw@, *d, m@, average@));
        r
    }
}

/// Annotations are counted by their kind.
pub proof fn law_kinds_counted(a: Seq<Annotation>, kind: AnnotationKind, n: nat)
    requires
        n <= a.len(),
    ensures
        kind_count(a, kind, n) == how_many(n, |i: int| a[i].kind == kind),
    decreases n,
{
    let p = |i: int| a[i].kind == kind;
    lemma_which(0, p);
    if n > 0 {
        law_kinds_counted(a, kind, (n - 1) as nat);
        lemma_which((n - 1) as nat, p);
    }
}

/// Every free text is listed with its page, counted from one, and its place.
pub proof fn law_free_texts(a: Seq<Annotation>, n: nat)
    requires
        n <= a.len(),
    ensures
        free_texts(a, n) == which(n, |i: int| a[i].kind == AnnotationKind::FreeText).map_values(|i: int| "FreeText on page "@ + decimal_text((1 + a[i].page_index) as nat) + " at ["@ + a[i].rect@ + "]"@),
    decreases n,
{
    let p = |i: int| a[i].kind == AnnotationKind::FreeText;
    let f = |i: int| "FreeText on page "@ + decimal_text((1 + a[i].page_index) as nat) + " at ["@ + a[i].rect@ + "]"@;
    lemma_which(0, p);
    if n > 0 {
        let lower = (n - 1) as nat;
        law_free_texts(a, lower);
        lemma_which(lower, p);
        assert(which(n, p).map_values(f) =~= if p(lower as int) {
            which(lower, p).map_values(f).push(f(lower as int))
        } else {
            which(lower, p).map_values(f)
        });
    } else {
        assert(which(0, p).map_values(f) =~= Seq::<Seq<char>>::empty());
    }
}

/// Free texts are of high severity, redactions of medium and stamps of low severity; each kind
/// is reported where it occurs, in this order.
pub proof fn law_annotations_reported(a: Seq<Annotation>)
    ensures
        ({
            let f = annotation_findings(a);
            let x = kind_count(a, AnnotationKind::FreeText, a.len()) > 0;
            let y = kind_count(a, AnnotationKind::Redact, a.len()) > 0;
            let z = kind_count(a, AnnotationKind::Stamp, a.len()) > 0;
            let i = if x {
                1int
            } else {
                0
            };
            let j = if y {
                i + 1
            } else {
                i
            };
            &&& f.len() == if z {
                j + 1
            } else {
                j
            }
            &&& x ==> f[0].code == "pdf_freetext_overlay"@ && f[0].severity == Severity::High
            &&& y ==> f[i].code == "pdf_redaction_annotations"@ && f[i].severity == Severity::Medium
            &&& z ==> f[j].code == "pdf_stamp_overlay"@ && f[j].severity == Severity::Low
        }),
{
}

/// Looking ahead by a number of bytes ends where the characters passed take just so many, or
/// at the end of the text.
pub proof fn law_ahead(t: Seq<char>, i: int, n: int)
    requires
        0 <= i <= t.len(),
        0 <= n,
    ensures
        ahead(t, i, n) matches Some(e) ==> i <= e <= t.len() && ({
            let passed = total((e - i) as nat, |k: int| char_bytes(t[i + k]) as int);
            passed <= n && (e < t.len() ==> passed == n)
        }),
    decreases t.len() - i,
{
    if i < t.len() && n != 0 && char_bytes(t[i]) <= n {
        law_ahead(t, i + 1, n - char_bytes(t[i]));
        if ahead(t, i, n) is Some {
            let e = ahead(t, i, n)->Some_0;
            lemma_total_front(
                (e - i) as nat,
                |k: int| char_bytes(t[i + k]) as int,
                |k: int| char_bytes(t[i + 1 + k]) as int,
            );
        }
    }
}

/// Looking back by a number of bytes ends in the same way, or at the beginning.
pub proof fn law_back(t: Seq<char>, i: int, n: int)
    requires
        0 <= i <= t.len(),
        0 <= n,
    ensures
        back(t, i, n) matches Some(b) ==> 0 <= b <= i && ({
            let passed = total((i - b) as nat, |k: int| char_bytes(t[b + k]) as int);
            passed <= n && (b > 0 ==> passed == n)
        }),
    decreases i,
{
    if i > 0 && n != 0 && char_bytes(t[i - 1]) <= n {
        law_back(t, i - 1, n - char_bytes(t[i - 1]));
    }
}

/// A rectangle counts where a fill follows within a hundred bytes: as white where white is set
/// in the two hundred bytes before it, and as before text where text begins in the five
/// hundred bytes after it.
pub proof fn law_rectangle(t: Seq<char>, i: int)
    requires
        ahead(t, i, 100) is Some,
        back(t, i, 200) is Some,
        ahead(t, i, 500) is Some,
    ensures
        ({
            let near = t.subrange(i, ahead(t, i, 100)->Some_0);
            let before = t.subrange(back(t, i, 200)->Some_0, i);
            let after = t.subrange(i, ahead(t, i, 500)->Some_0);
            let filled = occurs_in(near, " f\n"@) || occurs_in(near, " f "@) || occurs_in(near, " f*"@)
                || occurs_in(near, " F\n"@);
            let white = occurs_in(before, "1 1 1 rg"@) || occurs_in(before, "1 1 1 RG"@)
                || occurs_in(before, "1.0 1.0 1.0 rg"@) || occurs_in(before, "1 g"@) || occurs_in(
                before,
                "1.0 g"@,
            );
            rectangle_at(t, i) == Some((filled && white, filled && occurs_in(after, "BT"@)))
        }),
{
    let a = fill_operators();
    let b = white_operators();
    assert(a[0] == " f\n"@ && a[1] == " f "@ && a[2] == " f*"@ && a[3] == " F\n"@);
    assert(b[0] == "1 1 1 rg"@ && b[1] == "1 1 1 RG"@ && b[2] == "1.0 1.0 1.0 rg"@ && b[3] == "1 g"@
        && b[4] == "1.0 g"@);
}

/// Every rectangle operator is looked at, and each kind is counted by itself.
pub proof fn law_rectangles_counted(t: Seq<char>, n: nat)
    requires
        rectangles(t, n) is Some,
    ensures
        rectangles(t, n) == Some(
            (
                how_many(
                    n,
                    |i: int| occurs_at(t, " re"@, i) && (rectangle_at(t, i) matches Some(r) && r.0),
                ),
                how_many(
                    n,
                    |i: int| occurs_at(t, " re"@, i) && (rectangle_at(t, i) matches Some(r) && r.1),
                ),
            ),
        ),
    decreases n,
{
    let p = |i: int| occurs_at(t, " re"@, i) && (rectangle_at(t, i) matches Some(r) && r.0);
    let q = |i: int| occurs_at(t, " re"@, i) && (rectangle_at(t, i) matches Some(r) && r.1);
    lemma_which(0, p);
    lemma_which(0, q);
    if n > 0 {
        law_rectangles_counted(t, (n - 1) as nat);
        lemma_which((n - 1) as nat, p);
        lemma_which((n - 1) as nat, q);
    }
}

/// White rectangles are critical; filled ones before text are told, as medium, only where none
/// is white.
pub proof fn law_rectangles_reported(c: (nat, nat))
    ensures
        ({
            let f = rectangle_findings(c);
            &&& f.len() == if c.0 == 0 && c.1 == 0 {
                0int
            } else {
                1
            }
            &&& c.0 != 0 ==> f[0].code == "pdf_white_rectangle_overlay"@ && f[0].severity
                == Severity::Critical
            &&& c.0 == 0 && c.1 != 0 ==> f[0].code == "pdf_filled_rect_before_text"@ && f[0].severity
                == Severity::Medium
        }),
{
}

/// A page is mixed where an image of more than 500 pixels on each side stands on it and its
/// text, trimmed, takes more than five bytes.
pub proof fn law_mixed_pages(images: Seq<PageImage>, pages: Seq<Seq<char>>, n: nat)
    requires
        n <= pages.len(),
    ensures
        mixed_pages(images, pages, n) == which(n, |i: int| (exists|k: int| 0 <= k < images.len() && (#[trigger] images[k]).page == i % 0x1_0000_0000 && images[k].width >= 501 && images[k].height >= 501) && text_bytes(trimmed(pages[i])) >= 6).map_values(|i: int| decimal_text((i + 1) as nat)),
    decreases n,
{
    let p = |i: int| (exists|k: int| 0 <= k < images.len() && (#[trigger] images[k]).page == i % 0x1_0000_0000 && images[k].width >= 501 && images[k].height >= 501) && text_bytes(trimmed(pages[i])) >= 6;
    let f = |i: int| decimal_text((i + 1) as nat);
    lemma_which(0, p);
    if n > 0 {
        let lower = (n - 1) as nat;
        law_mixed_pages(images, pages, lower);
        lemma_which(lower, p);
        assert(large_image_on(images, (n - 1) % 0x1_0000_0000) == (exists|k: int|
            0 <= k < images.len() && (#[trigger] images[k]).page == (n - 1) % 0x1_0000_0000
                && images[k].width >= 501 && images[k].height >= 501));
        assert(which(n, p).map_values(f) =~= if p(lower as int) {
            which(lower, p).map_values(f).push(f(lower as int))
        } else {
            which(lower, p).map_values(f)
        });
    } else {
        assert(which(0, p).map_values(f) =~= Seq::<Seq<char>>::empty());
    }
}

/// Scans with text are reported where a page is mixed.
pub proof fn law_when_mixed_is_reported(images: Seq<PageImage>, pages: Seq<Seq<char>>)
    ensures
        ({
            let f = mixed_findings(images, pages);
            let due = mixed_pages(images, pages, pages.len()).len() != 0;
            &&& f.len() == if due {
                1int
            } else {
                0
            }
            &&& due ==> f[0].analyzer == "pdf_overlay"@ && f[0].code == "pdf_mixed_scan_and_text"@ && f[0].severity == Severity::High
                && f[0].confidence == 0x3FE6_6666_6666_6666
        }),
{
}

/// Fonts are reported where there is one, and again as critical from three on.
pub proof fn law_fonts_reported(f: Seq<Seq<char>>)
    ensures
        font_findings(f).len() == if f.len() == 0 {
            0int
        } else if f.len() <= 2 {
            1
        } else {
            2
        },
        f.len() >= 1 ==> font_findings(f)[0].code == "pdf_fonts_in_scan"@ && font_findings(
            f,
        )[0].severity == Severity::High,
        f.len() >= 3 ==> font_findings(f)[1].code == "pdf_multiple_fonts_in_scan"@ && font_findings(
            f,
        )[1].severity == Severity::Critical,
{
}

/// The fonts are those that are named anywhere in the text, and no others.
pub proof fn law_fonts_complete(t: Seq<char>, n: nat, name: Seq<char>)
    requires
        fonts(t, n) is Some,
    ensures
        fonts(t, n)->Some_0.contains(name) <==> exists|i: int|
            0 <= i < n && occurs_at(t, "/BaseFont"@, i) && #[trigger] font_at(t, i) == Some(
                Some(name),
            ),
    decreases n,
{
    if n > 0 {
        let m = (n - 1) as nat;
        law_fonts_complete(t, m, name);
        let before = fonts(t, m)->Some_0;
        if occurs_at(t, "/BaseFont"@, n - 1) && font_at(t, n - 1) matches Some(Some(x)) {
            lemma_with_text(before, font_at(t, n - 1)->Some_0->Some_0, 0, name);
        }
        if exists|i: int|
            0 <= i < m && occurs_at(t, "/BaseFont"@, i) && #[trigger] font_at(t, i) == Some(
                Some(name),
            ) {
            let i = choose|i: int|
                0 <= i < m && occurs_at(t, "/BaseFont"@, i) && #[trigger] font_at(t, i) == Some(
                    Some(name),
                );
            assert(font_at(t, i) == Some(Some(name)));
        }
        assert(font_at(t, n - 1) == font_at(t, n - 1));
    }
}

/// Fonts are looked for where an image has more than a thousand pixels on each side.
pub proof fn law_scan_like(images: Seq<PageImage>)
    ensures
        scan_like(images) <==> exists|i: int|
            0 <= i < images.len() && (#[trigger] images[i]).width >= 1001 && images[i].height
                >= 1001,
{
    if exists|i: int|
        0 <= i < images.len() && (#[trigger] images[i]).width >= 1001 && images[i].height >= 1001 {
        let i = choose|i: int|
            0 <= i < images.len() && (#[trigger] images[i]).width >= 1001 && images[i].height
                >= 1001;
        assert(images[i].width > 1000);
    }
}

/// Full pages are the images higher than 500 pixels.
pub proof fn law_full_pages(m: Seq<MeasuredImage>, n: nat)
    requires
        n <= m.len(),
    ensures
        full_pages(m, n) == how_many(n, |i: int| m[i].image.height >= 501),
    decreases n,
{
    let p = |i: int| m[i].image.height >= 501;
    lemma_which(0, p);
    if n > 0 {
        law_full_pages(m, (n - 1) as nat);
        lemma_which((n - 1) as nat, p);
    }
}

/// Strips are the images at most a hundred pixels high and wider than 500.
pub proof fn law_strips(m: Seq<MeasuredImage>, n: nat)
    requires
        n <= m.len(),
    ensures
        strips(m, n) == how_many(n, |i: int| m[i].image.height < 101 && m[i].image.width >= 501),
    decreases n,
{
    let p = |i: int| m[i].image.height < 101 && m[i].image.width >= 501;
    lemma_which(0, p);
    if n > 0 {
        law_strips(m, (n - 1) as nat);
        lemma_which((n - 1) as nat, p);
    }
}

/// The bytes of the strips are added up.
pub proof fn law_strip_bytes(m: Seq<MeasuredImage>, n: nat)
    requires
        n <= m.len(),
    ensures
        strip_bytes(m, n) as int == total(n, |i: int| (if m[i].image.height < 101 && m[i].image.width >= 501 { m[i].image.length as int } else { 0 })),
    decreases n,
{
    if n > 0 {
        law_strip_bytes(m, (n - 1) as nat);
    }
}

/// A page image is a placeholder where it is higher than 500 pixels, has more than half a
/// million pixels and less than a byte for twenty of them.
pub proof fn law_placeholders(m: Seq<MeasuredImage>, n: nat)
    requires
        n <= m.len(),
    ensures
        placeholder_findings(m, n) == which(n, |i: int| m[i].image.height >= 501 && m[i].image.width * m[i].image.height >= 500_001 && 20 * m[i].image.length < m[i].image.width * m[i].image.height).map_values(|i: int| placeholder_finding(m[i])),
    decreases n,
{
    let p = |i: int| m[i].image.height >= 501 && m[i].image.width * m[i].image.height >= 500_001 && 20 * m[i].image.length < m[i].image.width * m[i].image.height;
    let f = |i: int| placeholder_finding(m[i]);
    lemma_which(0, p);
    if n > 0 {
        let lower = (n - 1) as nat;
        law_placeholders(m, lower);
        lemma_which(lower, p);
        assert(which(n, p).map_values(f) =~= if p(lower as int) {
            which(lower, p).map_values(f).push(f(lower as int))
        } else {
            which(lower, p).map_values(f)
        });
    } else {
        assert(which(0, p).map_values(f) =~= Seq::<FindingView>::empty());
    }
}

/// A full page is told for its size where the average strip is more than ten times as
/// large.
pub proof fn law_disparities(m: Seq<MeasuredImage>, average: Seq<char>, n: nat)
    requires
        n <= m.len(),
    ensures
        disparity_findings(m, average, n) == which(n, |i: int| m[i].image.length != 0 && m[i].image.height >= 501 && m[i].ratio >= 0x4024_0000_0000_0001).map_values(|i: int| disparity_finding(m[i], average)),
    decreases n,
{
    let p = |i: int| m[i].image.length != 0 && m[i].image.height >= 501 && m[i].ratio >= 0x4024_0000_0000_0001;
    let f = |i: int| disparity_finding(m[i], average);
    lemma_which(0, p);
    if n > 0 {
        let lower = (n - 1) as nat;
        law_disparities(m, average, lower);
        lemma_which(lower, p);
        assert(which(n, p).map_values(f) =~= if p(lower as int) {
            which(lower, p).map_values(f).push(f(lower as int))
        } else {
            which(lower, p).map_values(f)
        });
    } else {
        assert(which(0, p).map_values(f) =~= Seq::<FindingView>::empty());
    }
}

/// Mixed encodings are reported where both strips and full pages occur.
pub proof fn law_when_encodings_mix(m: Seq<MeasuredImage>)
    ensures
        ({
            let f = encoding_findings(m);
            let due = strips(m, m.len()) >= 1 && full_pages(m, m.len()) >= 1;
            &&& f.len() == if due {
                1int
            } else {
                0
            }
            &&& due ==> f[0].analyzer == "pdf_overlay"@ && f[0].code == "pdf_mixed_image_encoding"@ && f[0].severity == Severity::High
                && f[0].confidence == 0x3FE9_9999_9999_999A
        }),
{
}

/// Replaced scans are critical, and odd sizes high.
pub proof fn law_page_image_severities(m: MeasuredImage, average: Seq<char>)
    ensures
        placeholder_finding(m).code == "pdf_scan_replaced_with_placeholder"@,
        placeholder_finding(m).severity == Severity::Critical,
        disparity_finding(m, average).code == "pdf_page_image_size_disparity"@,
        disparity_finding(m, average).severity == Severity::High,
{
}

/// Sizes are compared where there are two images or more and a strip has bytes; the findings on
/// placeholders, on encodings and on sizes follow each other.
pub proof fn law_size_findings(m: Seq<MeasuredImage>, average: Seq<char>)
    ensures
        size_findings(m, average).len() == placeholder_findings(m, m.len()).len()
            + encoding_findings(m).len() + if m.len() > 1 && strip_bytes(m, m.len()) != 0 {
            disparity_findings(m, average, m.len()).len()
        } else {
            0
        },
        size_findings(m, average).take(placeholder_findings(m, m.len()).len() as int)
            == placeholder_findings(m, m.len()),
{
    let p = placeholder_findings(m, m.len());
    assert(size_findings(m, average).take(p.len() as int) =~= p);
}

/// The report begins with the annotations, and holds what every part tells.
pub proof fn law_overlay_report(
    raw: Seq<u8>,
    d: DocumentParts,
    m: Seq<MeasuredImage>,
    average: Seq<char>,
)
    ensures
        ({
            let t = lossy_chars(raw);
            let f = overlay_findings(raw, d, m, average);
            rectangles(t, t.len()) is Some && part_fonts(d, t) is Some ==> f.len()
                == part_annotations(d).len() + rectangle_findings(
                rectangles(t, t.len())->Some_0,
            ).len() + part_mixed(d).len() + part_fonts(d, t)->Some_0.len() + size_findings(
                m,
                average,
            ).len() && f.take(part_annotations(d).len() as int) == part_annotations(d)
        }),
{
    let t = lossy_chars(raw);
    if rectangles(t, t.len()) is Some && part_fonts(d, t) is Some {
        let a = part_annotations(d);
        assert(overlay_findings(raw, d, m, average).take(a.len() as int) =~= a);
    }
}

/// The number of an object is the word before it: it begins behind the last space or line end.
pub proof fn law_word_start(raw: Seq<u8>, at: int)
    requires
        0 <= at <= raw.len(),
    ensures
        ({
            let s = word_start(raw, at);
            &&& 0 <= s <= at
            &&& s > 0 ==> raw[s - 1] == 10 || raw[s - 1] == 13 || raw[s - 1] == 32
            &&& forall|k: int|
                s <= k < at ==> #[trigger] raw[k] != 10 && raw[k] != 13 && raw[k] != 32
        }),
    decreases at,
{
    if at > 0 {
        law_word_start(raw, at - 1);
    }
}

/// An image is told where the thousand bytes from its object on name one, and give it a width, a
/// height and a length that are not zero.
pub proof fn law_image_at(raw: Seq<u8>, at: int)
    requires
        0 <= at <= raw.len(),
    ensures
        ({
            let d = raw.subrange(
                at,
                if raw.len() - at > 1000 {
                    at + 1000
                } else {
                    raw.len() as int
                },
            );
            let width = integer_after(d, seq![47u8, 87, 105, 100, 116, 104, 32]);
            let height = integer_after(d, seq![47u8, 72, 101, 105, 103, 104, 116, 32]);
            let length = integer_after(d, seq![47u8, 76, 101, 110, 103, 116, 104, 32]);
            let due = occurs_in(d, seq![47u8, 73, 109, 97, 103, 101]) && width != 0 && height != 0
                && length != 0;
            &&& image_at(raw, at) is Some <==> due
            &&& due ==> image_at(raw, at)->Some_0.width == width && image_at(raw, at)->Some_0.height
                == height && image_at(raw, at)->Some_0.length == length && image_at(
                raw,
                at,
            )->Some_0.number == number_before(raw, at)
        }),
{
    assert(width_key() =~= seq![47u8, 87, 105, 100, 116, 104, 32]);
    assert(height_key() =~= seq![47u8, 72, 101, 105, 103, 104, 116, 32]);
    assert(length_key() =~= seq![47u8, 76, 101, 110, 103, 116, 104, 32]);
    assert(image_key() =~= seq![47u8, 73, 109, 97, 103, 101]);
    assert(object_bytes(raw, at) =~= raw.subrange(
        at,
        if raw.len() - at > 1000 {
            at + 1000
        } else {
            raw.len() as int
        },
    ));
}

/// The images are those of the objects in turn: of the first one from a place on, and those
/// behind it. The last twenty bytes begin none.
pub proof fn law_images_in_turn(raw: Seq<u8>, pos: int)
    requires
        0 <= pos,
    ensures
        pos + 20 >= raw.len() ==> images_from(raw, pos).len() == 0,
        pos + 20 < raw.len() ==> ({
            let key = seq![32u8, 48, 32, 111, 98, 106];
            match first_from(raw, key, pos) {
                None => images_from(raw, pos).len() == 0,
                Some(at) => pos <= at && at + 6 <= raw.len() ==> images_from(raw, pos) == (
                match image_at(raw, at) {
                    Some(i) => seq![i] + images_from(raw, at + 6),
                    None => images_from(raw, at + 6),
                }),
            }
        }),
{
    assert(obj_key() =~= seq![32u8, 48, 32, 111, 98, 106]);
}

/// The number of an object is the word in front of it; zero where that is no number.
pub proof fn law_number_before(raw: Seq<u8>, at: int)
    ensures
        ({
            let word = raw.subrange(word_start(raw, at), at);
            number_before(raw, at) != 0 ==> valid_utf8(word) && number_in(
                trimmed(decode_utf8(word)),
            ) == Some(number_before(raw, at))
        }),
{
}

/// Looking ahead by just a number of bytes passes characters that take so many.
pub proof fn law_exactly_ahead(t: Seq<char>, i: int, n: int)
    requires
        0 <= i <= t.len(),
        0 <= n,
    ensures
        exactly_ahead(t, i, n) matches Some(e) ==> i <= e <= t.len() && text_bytes(t.subrange(i, e))
            == n,
    decreases t.len() - i,
{
    if n > 0 && i < t.len() && char_bytes(t[i]) <= n {
        let m = n - char_bytes(t[i]);
        law_exactly_ahead(t, i + 1, m);
        if exactly_ahead(t, i + 1, m) is Some {
            let e = exactly_ahead(t, i + 1, m)->Some_0;
            lemma_bytes_in_front(t.subrange(i, e));
            assert(t.subrange(i, e).drop_first() =~= t.subrange(i + 1, e));
        }
    } else if n == 0 {
        assert(t.subrange(i, i) =~= Seq::<char>::empty());
    }
}

proof fn lemma_bytes_in_front(s: Seq<char>)
    requires
        s.len() > 0,
    ensures
        text_bytes(s) == char_bytes(s[0]) + text_bytes(s.drop_first()),
    decreases s.len(),
{
    if s.len() > 1 {
        lemma_bytes_in_front(s.drop_last());
        assert(s.drop_last().drop_first() =~= s.drop_first().drop_last());
        assert(s.drop_first().last() == s.last());
    } else {
        assert(s.drop_last() =~= Seq::<char>::empty());
        assert(s.drop_first() =~= Seq::<char>::empty());
    }
}

/// A name ends at the first white space, slash or closing bracket.
pub proof fn law_name_end(t: Seq<char>, i: int, e: int, j: int)
    requires
        0 <= i <= j < e <= t.len(),
    ensures
        name_end(t, i, e) matches Some(k) ==> i <= k < e && (white_space(t[k]) || t[k] == '/' || t[k]
            == '>') && (j < k ==> !white_space(t[j]) && t[j] != '/' && t[j] != '>'),
        white_space(t[j]) || t[j] == '/' || t[j] == '>' ==> (name_end(t, i, e) matches Some(k) && k
            <= j),
    decreases e - i,
{
    if !ends_name(t[i]) && i + 1 == e {
        assert(name_end(t, i + 1, e) is None);
    } else if !ends_name(t[i]) {
        law_name_end(t, i + 1, e, if j > i {
            j
        } else {
            i + 1
        });
    }
}

} // verus!
