//! Cross-validates EXIF claims against actual pixels: resolution, orientation, colour space
//! and bit depth.

use crate::bits::P45;
use crate::bits::P55;
use crate::bits::P60;
use crate::bits::P85;
use crate::context::Context;
use crate::context::Tag;
use crate::context::pdf_bytes;
use crate::finding::Finding;
use crate::finding::FindingView;
use crate::finding::Severity;
use crate::finding::group_values;
use crate::finding::plain_finding;
use crate::finding::values;
use crate::histogram::histogram;
use crate::histogram::histogram_of;
use crate::number::is_share_above;
use crate::number::share_above;
use crate::select::how_many;
use crate::select::lemma_which;
use crate::share::MAX_COUNT;
use crate::share::percent;
use crate::share::percent_text;
use crate::text::append_decimal;
use crate::text::chars_of;
use crate::text::contains;
use crate::text::decimal_text;
use crate::text::occurs_in;
use crate::text::same_text;
use crate::unicode::number_in;
use crate::unicode::parse_number;
use crate::unicode::trim;
use crate::unicode::trimmed;
use vstd::prelude::*;
use vstd::string::*;

verus! {

/// The EXIF and pixel analyzer.
pub struct ExifPixelAnalyzer;

/// The value of the first tag with a name, from tag `i` on.
pub open spec fn value_from(tags: Seq<Tag>, name: Seq<char>, i: int) -> Option<Seq<char>>
    decreases tags.len() - i,
{
    if i < 0 || i >= tags.len() {
        None
    } else if tags[i].name@ == name {
        Some(tags[i].value@)
    } else {
        value_from(tags, name, i + 1)
    }
}

/// The value of the first tag with a name.
pub open spec fn value_of(tags: Seq<Tag>, name: Seq<char>) -> Option<Seq<char>> {
    value_from(tags, name, 0)
}

/// The number in the first tag with a name.
pub open spec fn number_of(tags: Seq<Tag>, name: Seq<char>) -> Option<u32> {
    match value_of(tags, name) {
        Some(v) => number_in(trimmed(v)),
        None => None,
    }
}

/// The number in the first tag with a name, or else in the first tag with another name.
pub open spec fn number_or(tags: Seq<Tag>, name: Seq<char>, other: Seq<char>) -> Option<u32> {
    match number_of(tags, name) {
        Some(n) => Some(n),
        None => number_of(tags, other),
    }
}

/// The findings on the width and the height that the tags claim.
pub open spec fn resolution_findings(tags: Seq<Tag>, w: u32, h: u32) -> Seq<FindingView> {
    let a = match number_or(tags, "ImageWidth"@, "ExifImageWidth"@) {
        Some(ew) => if ew != w && ew != h {
            seq![
                plain_finding(
                    "exif_pixel"@,
                    "resolution_mismatch_width"@,
                    "EXIF width ("@ + decimal_text(ew as nat) + ") does not match actual width ("@
                        + decimal_text(w as nat) + ") or height ("@ + decimal_text(h as nat) + ")"@,
                    Severity::High,
                    P85,
                ),
            ]
        } else {
            seq![]
        },
        None => seq![],
    };
    let b = match number_or(tags, "ImageHeight"@, "ExifImageHeight"@) {
        Some(eh) => if eh != h && eh != w {
            seq![
                plain_finding(
                    "exif_pixel"@,
                    "resolution_mismatch_height"@,
                    "EXIF height ("@ + decimal_text(eh as nat) + ") does not match actual height ("@
                        + decimal_text(h as nat) + ") or width ("@ + decimal_text(w as nat) + ")"@,
                    Severity::High,
                    P85,
                ),
            ]
        } else {
            seq![]
        },
        None => seq![],
    };
    a + b
}

/// Whether the tags claim a rotation that the dimensions contradict.
pub open spec fn orientation_contradicted(
    orient: u32,
    ew: u32,
    eh: u32,
    w: u32,
    h: u32,
) -> bool {
    5 <= orient <= 8 && (ew > eh) == (w > h) && ew == w
}

/// The finding on the orientation that the tags claim.
pub open spec fn orientation_findings(tags: Seq<Tag>, w: u32, h: u32) -> Seq<FindingView> {
    match (
        number_of(tags, "Orientation"@),
        number_of(tags, "ImageWidth"@),
        number_of(tags, "ImageHeight"@),
    ) {
        (Some(orient), Some(ew), Some(eh)) => if orientation_contradicted(orient, ew, eh, w, h) {
            seq![
                plain_finding(
                    "exif_pixel"@,
                    "orientation_inconsistency"@,
                    "EXIF orientation tag ("@ + decimal_text(orient as nat)
                        + ") indicates rotation but dimensions are already in display orientation - metadata may have been manipulated"@,
                    Severity::Medium,
                    P60,
                ),
            ]
        } else {
            seq![]
        },
        _ => seq![],
    }
}

/// How many of the first `n` samples are at either end of the range.
pub open spec fn clipped(samples: Seq<u8>, n: nat) -> nat
    decreases n,
{
    if n == 0 {
        0
    } else {
        clipped(samples, (n - 1) as nat) + if samples[n - 1] == 0 || samples[n - 1] == 255 {
            1nat
        } else {
            0
        }
    }
}

/// Whether a colour space is sRGB.
pub open spec fn is_srgb(v: Seq<char>) -> bool {
    occurs_in(v, "sRGB"@) || v == "1"@
}

/// The finding on clipped samples of an image that claims sRGB.
pub open spec fn clipping_findings(tags: Seq<Tag>, rgb: Seq<u8>) -> Seq<
    FindingView,
> {
    match value_of(tags, "ColorSpace"@) {
        Some(v) => if is_srgb(v) && share_above(
            clipped(rgb, rgb.len()) as int,
            rgb.len() as int,
            15,
            100,
        ) {
            seq![
                plain_finding(
                    "exif_pixel"@,
                    "color_space_clipping"@,
                    "Image claims sRGB but "@ + percent_text(clipped(rgb, rgb.len()) as nat, rgb.len())
                        + "% of channel values are clipped - possible color space mismatch or manipulation"@,
                    Severity::Low,
                    P45,
                ),
            ]
        } else {
            seq![]
        },
        None => seq![],
    }
}

/// How many of the first `n` values of a histogram occur.
pub open spec fn levels(h: Seq<u64>, n: nat) -> nat
    decreases n,
{
    if n == 0 {
        0
    } else {
        levels(h, (n - 1) as nat) + if h[n - 1] > 0 {
            1nat
        } else {
            0
        }
    }
}

/// The finding on an image that claims 16 bits per sample and has few levels.
pub open spec fn depth_findings(tags: Seq<Tag>, gray: Seq<u8>) -> Seq<FindingView> {
    let n = levels(histogram_of(gray), 256);
    match value_of(tags, "BitsPerSample"@) {
        Some(v) => if occurs_in(v, "16"@) && n < 64 {
            seq![
                plain_finding(
                    "exif_pixel"@,
                    "bit_depth_inconsistency"@,
                    "EXIF claims "@ + v + " bits per sample but only "@ + decimal_text(n)
                        + " unique intensity values found - metadata may have been edited"@,
                    Severity::Medium,
                    P55,
                ),
            ]
        } else {
            seq![]
        },
        None => seq![],
    }
}

/// The value of the first tag with the name `name`.
pub fn tag_value(tags: &Vec<Tag>, name: &str) -> (r: Option<String>)
    ensures
        match r {
            Some(s) => value_of(tags@, name@) == Some(s@),
            None => value_of(tags@, name@) is None,
        },
{
    let mut i: usize = 0;
    while i < tags.len()
        invariant
            i <= tags@.len(),
            value_of(tags@, name@) == value_from(tags@, name@, i as int),
        decreases tags@.len() - i,
    {
        if same_text(tags[i].name.as_str(), name) {
            return Some(tags[i].value.as_str().to_string());
        }
        i += 1;
    }
    None
}

impl ExifPixelAnalyzer {
    /// The number in the first tag with a name, if it holds one.
    pub fn get_tag_u32(tags: &Vec<Tag>, name: &str) -> (r: Option<u32>)
        ensures
            r == number_of(tags@, name@),
    {
        match tag_value(tags, name) {
            Some(s) => {
                let chars = chars_of(s.as_str());
                let inner = trim(&chars);
                parse_number(&inner)
            },
            None => None,
        }
    }

    /// Checks the width and the height that the tags claim.
    pub fn check_resolution_consistency(
        tags: &Vec<Tag>,
        w: u32,
        h: u32,
        findings: &mut Vec<Finding>,
    )
        ensures
            values(final(findings)@) == values(old(findings)@) + resolution_findings(tags@, w, h),
    {
        broadcast use group_values;

        let ew = match Self::get_tag_u32(tags, "ImageWidth") {
            Some(n) => Some(n),
            None => Self::get_tag_u32(tags, "ExifImageWidth"),
        };
        let eh = match Self::get_tag_u32(tags, "ImageHeight") {
            Some(n) => Some(n),
            None => Self::get_tag_u32(tags, "ExifImageHeight"),
        };
        if let Some(ew) = ew {
            if ew != w && ew != h {
                let mut d = "EXIF width (".to_string();
                append_decimal(&mut d, ew as u64);
                d.append(") does not match actual width (");
                append_decimal(&mut d, w as u64);
                d.append(") or height (");
                append_decimal(&mut d, h as u64);
                d.append(")");
                findings.push(
                    Finding::new("exif_pixel", "resolution_mismatch_width", d, Severity::High, P85),
                );
            }
        }
        if let Some(eh) = eh {
            if eh != h && eh != w {
                let mut d = "EXIF height (".to_string();
                append_decimal(&mut d, eh as u64);
                d.append(") does not match actual height (");
                append_decimal(&mut d, h as u64);
                d.append(") or width (");
                append_decimal(&mut d, w as u64);
                d.append(")");
                findings.push(
                    Finding::new(
                        "exif_pixel",
                        "resolution_mismatch_height",
                        d,
                        Severity::High,
                        P85,
                    ),
                );
            }
        }
        assert(values(findings@) =~= values(old(findings)@) + resolution_findings(tags@, w, h));
    }

    /// Checks the orientation that the tags claim.
    pub fn check_orientation_consistency(
        tags: &Vec<Tag>,
        w: u32,
        h: u32,
        findings: &mut Vec<Finding>,
    )
        ensures
            values(final(findings)@) == values(old(findings)@) + orientation_findings(tags@, w, h),
    {
        broadcast use group_values;

        let orient = Self::get_tag_u32(tags, "Orientation");
        let ew = Self::get_tag_u32(tags, "ImageWidth");
        let eh = Self::get_tag_u32(tags, "ImageHeight");
        if let Some(orient) = orient {
            if let Some(ew) = ew {
                if let Some(eh) = eh {
                    if 5 <= orient && orient <= 8 && (ew > eh) == (w > h) && ew == w {
                        let mut d = "EXIF orientation tag (".to_string();
                        append_decimal(&mut d, orient as u64);
                        d.append(
                            ") indicates rotation but dimensions are already in display orientation - metadata may have been manipulated",
                        );
                        findings.push(
                            Finding::new(
                                "exif_pixel",
                                "orientation_inconsistency",
                                d,
                                Severity::Medium,
                                P60,
                            ),
                        );
                    }
                }
            }
        }
        assert(values(findings@) =~= values(old(findings)@) + orientation_findings(tags@, w, h));
    }

    /// Counts the samples at either end of the range.
    pub fn clipped_count(samples: &[u8]) -> (r: u64)
        ensures
            r == clipped(samples@, samples@.len()),
            r <= samples@.len(),
    {
        let mut c: u64 = 0;
        let mut i: usize = 0;
        while i < samples.len()
            invariant
                i <= samples@.len(),
                c == clipped(samples@, i as nat),
                c <= i,
            decreases samples@.len() - i,
        {
            if samples[i] == 0 || samples[i] == 255 {
                c += 1;
            }
            i += 1;
        }
        c
    }

    /// Checks the samples of an image that claims sRGB.
    pub fn check_color_space_consistency(
        tags: &Vec<Tag>,
        rgb: &[u8],
        findings: &mut Vec<Finding>,
    )
        requires
            rgb@.len() <= MAX_COUNT,
        ensures
            values(final(findings)@) == values(old(findings)@) + clipping_findings(
                tags@,
                rgb@,
            ),
    {
        broadcast use group_values;

        if let Some(v) = tag_value(tags, "ColorSpace") {
            if contains(v.as_str(), "sRGB") || same_text(v.as_str(), "1") {
                let c = Self::clipped_count(rgb);
                if is_share_above(c, rgb.len() as u64, 15, 100) {
                    let mut d = "Image claims sRGB but ".to_string();
                    let share = percent(c, rgb.len() as u64);
                    d.append(share.as_str());
                    d.append(
                        "% of channel values are clipped - possible color space mismatch or manipulation",
                    );
                    findings.push(
                        Finding::new("exif_pixel", "color_space_clipping", d, Severity::Low, P45),
                    );
                }
            }
        }
        assert(values(findings@) =~= values(old(findings)@) + clipping_findings(
            tags@,
            rgb@,
        ));
    }

    /// Checks the bit depth that the tags claim.
    pub fn check_bits_per_sample(tags: &Vec<Tag>, gray: &[u8], findings: &mut Vec<Finding>)
        ensures
            values(final(findings)@) == values(old(findings)@) + depth_findings(tags@, gray@),
    {
        broadcast use group_values;

        if let Some(v) = tag_value(tags, "BitsPerSample") {
            if contains(v.as_str(), "16") {
                let h = histogram(gray);
                let mut n: usize = 0;
                let mut i: usize = 0;
                while i < 256
                    invariant
                        i <= 256,
                        n <= i,
                        h@ == histogram_of(gray@),
                        h@.len() == 256,
                        n == levels(h@, i as nat),
                    decreases 256 - i,
                {
                    if h[i] > 0 {
                        n += 1;
                    }
                    i += 1;
                }
                if n < 64 {
                    let mut d = "EXIF claims ".to_string();
                    d.append(v.as_str());
                    d.append(" bits per sample but only ");
                    append_decimal(&mut d, n as u64);
                    d.append(" unique intensity values found - metadata may have been edited");
                    findings.push(
                        Finding::new(
                            "exif_pixel",
                            "bit_depth_inconsistency",
                            d,
                            Severity::Medium,
                            P55,
                        ),
                    );
                }
            }
        }
        assert(values(findings@) =~= values(old(findings)@) + depth_findings(tags@, gray@));
    }

    /// All findings on a file.
    pub fn analyze(&self, ctx: &Context) -> (r: Vec<Finding>)
        requires
            ctx.image.rgb@.len() <= MAX_COUNT,
        ensures
            values(r@) == resolution_findings(ctx.tags@, ctx.image.width, ctx.image.height)
                + orientation_findings(ctx.tags@, ctx.image.width, ctx.image.height)
                + clipping_findings(ctx.tags@, ctx.image.rgb@) + depth_findings(
                ctx.tags@,
                if pdf_bytes(ctx.raw_bytes@) {
                    seq![]
                } else {
                    ctx.image.gray@
                },
            ),
    {
        broadcast use group_values;

        let mut r: Vec<Finding> = Vec::new();
        let w: u32 = ctx.image.width;
        let h: u32 = ctx.image.height;
        Self::check_resolution_consistency(&ctx.tags, w, h, &mut r);
        Self::check_orientation_consistency(&ctx.tags, w, h, &mut r);
        Self::check_color_space_consistency(&ctx.tags, ctx.image.rgb.as_slice(), &mut r);
        Self::check_bits_per_sample(&ctx.tags, ctx.gray(), &mut r);
        assert(values(r@) =~= resolution_findings(ctx.tags@, w, h) + orientation_findings(
            ctx.tags@,
            w,
            h,
        ) + clipping_findings(ctx.tags@, ctx.image.rgb@) + depth_findings(
            ctx.tags@,
            if pdf_bytes(ctx.raw_bytes@) {
                seq![]
            } else {
                ctx.image.gray@
            },
        ));
        r
    }
}

/// Clipped samples are those at either end of the range.
pub proof fn law_clipped(samples: Seq<u8>, n: nat)
    requires
        n <= samples.len(),
    ensures
        clipped(samples, n) == how_many(n, |i: int| samples[i] < 1 || samples[i] > 254),
    decreases n,
{
    let p = |i: int| samples[i] < 1 || samples[i] > 254;
    lemma_which(0, p);
    if n > 0 {
        law_clipped(samples, (n - 1) as nat);
        lemma_which((n - 1) as nat, p);
    }
}

/// The levels that are counted are the values that occur.
pub proof fn law_levels_used(h: Seq<u64>, n: nat)
    requires
        n <= h.len(),
    ensures
        levels(h, n) == how_many(n, |i: int| h[i] != 0),
    decreases n,
{
    let p = |i: int| h[i] != 0;
    lemma_which(0, p);
    if n > 0 {
        law_levels_used(h, (n - 1) as nat);
        lemma_which((n - 1) as nat, p);
    }
}

/// A value is that of the first tag with its name.
pub proof fn law_first_value(tags: Seq<Tag>, name: Seq<char>, i: int)
    requires
        0 <= i <= tags.len(),
    ensures
        match value_from(tags, name, i) {
            Some(v) => exists|j: int|
                i <= j < tags.len() && (#[trigger] tags[j]).name@ == name && tags[j].value@ == v && (
                forall|k: int| i <= k < j ==> (#[trigger] tags[k]).name@ != name),
            None => forall|k: int| i <= k < tags.len() ==> (#[trigger] tags[k]).name@ != name,
        },
    decreases tags.len() - i,
{
    if i < tags.len() && tags[i].name@ != name {
        law_first_value(tags, name, i + 1);
        if value_from(tags, name, i + 1) is Some {
            let v = value_from(tags, name, i + 1)->Some_0;
            let j = choose|j: int|
                i + 1 <= j < tags.len() && (#[trigger] tags[j]).name@ == name && tags[j].value@ == v
                    && (forall|k: int| i + 1 <= k < j ==> (#[trigger] tags[k]).name@ != name);
            assert(tags[j].name@ == name && tags[j].value@ == v);
            assert forall|k: int| i <= k < j implies (#[trigger] tags[k]).name@ != name by {
                if k == i {
                }
            }
        }
    } else if i < tags.len() {
        assert(tags[i].name@ == name);
    }
}

/// A named width or height is reported where it is neither side of the picture; turning the
/// picture changes nothing.
pub proof fn law_when_resolution_is_reported(tags: Seq<Tag>, w: u32, h: u32)
    ensures
        ({
            let f = resolution_findings(tags, w, h);
            let ew = number_or(tags, "ImageWidth"@, "ExifImageWidth"@);
            let eh = number_or(tags, "ImageHeight"@, "ExifImageHeight"@);
            let a = ew is Some && ew != Some(w) && ew != Some(h);
            let b = eh is Some && eh != Some(w) && eh != Some(h);
            &&& f.len() == (if a {
                1int
            } else {
                0
            }) + (if b {
                1int
            } else {
                0
            })
            &&& a ==> f[0].code == "resolution_mismatch_width"@ && f[0].severity == Severity::High
            &&& b ==> f.last().code == "resolution_mismatch_height"@ && f.last().severity
                == Severity::High
            &&& resolution_findings(tags, h, w).len() == f.len()
        }),
{
}

/// An orientation that turns the picture by a right angle is reported where the named size
/// is that of the picture as it stands.
pub proof fn law_when_orientation_is_reported(tags: Seq<Tag>, w: u32, h: u32)
    ensures
        ({
            let f = orientation_findings(tags, w, h);
            let due = (number_of(tags, "Orientation"@) matches Some(o) && o >= 5 && o <= 8) && number_of(tags, "ImageWidth"@) == Some(w) && (number_of(tags, "ImageHeight"@) matches Some(eh) && ((w > eh) == (w > h)));
            &&& f.len() == if due {
                1int
            } else {
                0
            }
            &&& due ==> f[0].analyzer == "exif_pixel"@ && f[0].code == "orientation_inconsistency"@ && f[0].severity == Severity::Medium
                && f[0].confidence == 0x3FE3_3333_3333_3333
        }),
{
}

/// Clipping is reported, as minor, where the picture claims sRGB and more than fifteen
/// percent of its samples are clipped.
pub proof fn law_when_clipping_is_reported(tags: Seq<Tag>, rgb: Seq<u8>)
    ensures
        ({
            let f = clipping_findings(tags, rgb);
            let due = (value_of(tags, "ColorSpace"@) matches Some(v) && (v == "1"@ || occurs_in(v, "sRGB"@))) && 20 * clipped(rgb, rgb.len()) > 3 * rgb.len();
            &&& f.len() == if due {
                1int
            } else {
                0
            }
            &&& due ==> f[0].analyzer == "exif_pixel"@ && f[0].code == "color_space_clipping"@ && f[0].severity == Severity::Low
                && f[0].confidence == 0x3FDC_CCCC_CCCC_CCCD
        }),
{
}

/// A depth of sixteen bits is reported where fewer than 64 values occur.
pub proof fn law_when_depth_is_reported(tags: Seq<Tag>, gray: Seq<u8>)
    ensures
        ({
            let f = depth_findings(tags, gray);
            let due = (value_of(tags, "BitsPerSample"@) matches Some(v) && occurs_in(v, "16"@)) && !(levels(histogram_of(gray), 256) >= 64);
            &&& f.len() == if due {
                1int
            } else {
                0
            }
            &&& due ==> f[0].analyzer == "exif_pixel"@ && f[0].code == "bit_depth_inconsistency"@ && f[0].severity == Severity::Medium
                && f[0].confidence == 0x3FE1_9999_9999_999A
        }),
{
}

/// A turned picture contradicts its tags where it has their shape and their width.
pub proof fn law_orientation(orient: u32, ew: u32, eh: u32, w: u32, h: u32)
    ensures
        orient < 5 || orient > 8 ==> !orientation_contradicted(orient, ew, eh, w, h),
        orientation_contradicted(orient, ew, eh, w, h) ==> ew == w,
        4 < orient < 9 && ew == w && ew > eh && w > h ==> orientation_contradicted(
            orient,
            ew,
            eh,
            w,
            h,
        ),
        4 < orient < 9 && ew == w && ew <= eh && w <= h ==> orientation_contradicted(
            orient,
            ew,
            eh,
            w,
            h,
        ),
        ew > eh && w <= h ==> !orientation_contradicted(orient, ew, eh, w, h),
{
}

} // verus!
