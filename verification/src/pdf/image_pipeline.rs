//! Embedded images of a PDF: what is taken out of the document and handed to the pixel
//! analyzers, and how their findings are told apart.
//!
//! Each image gets Error Level Analysis on its original JPEG stream, which keeps its
//! quantization tables, and noise analysis on its pixels, losslessly encoded again.

use crate::bits::P100;
use crate::finding::group_values;
use crate::finding::plain_finding;
use crate::finding::values;
use crate::finding::Finding;
use crate::finding::FindingView;
use crate::finding::Severity;
use crate::jpeg::copy_range;
use crate::raster::decoded;
use crate::raster::holds_samples;
use crate::raster::png_copy;
use crate::raster::png_file;
use crate::raster::png_of_file;
use crate::raster::Frame;
use crate::raster::Picture;
use crate::text::append_decimal;
use crate::text::decimal_text;
use vstd::prelude::*;
use vstd::string::*;

verus! {

/// Cap on the embedded images that are analyzed.
pub const MAX_IMAGES: usize = 20;

/// The embedded-image pipeline.
pub struct PdfImagePipeline;

/// The data of an embedded image: a file, or raw samples.
pub enum ImageData {
    Jpeg(Vec<u8>),
    Jpeg2000(Vec<u8>),
    Pixels(Vec<u8>),
    Other,
}

/// An embedded image: its page from zero on, its size, its components and its data.
pub struct EmbeddedImage {
    pub page: u32,
    pub width: u32,
    pub height: u32,
    pub components: u8,
    pub data: ImageData,
}

/// What is analyzed of an embedded image: a file for Error Level Analysis and a file for
/// noise analysis, where there is one.
pub struct Extracted {
    pub ela: Option<Vec<u8>>,
    pub noise: Option<Vec<u8>>,
}

/// How many samples raw pixels need.
pub open spec fn needed(i: EmbeddedImage) -> int {
    i.width * i.height * i.components
}

/// Whether an image has enough raw samples of one or three components.
pub open spec fn raw_complete(i: EmbeddedImage, samples: Seq<u8>) -> bool {
    (i.components == 1 || i.components == 3) && samples.len() >= needed(i)
}

/// Whether an image can be decoded.
pub open spec fn decodable(i: EmbeddedImage) -> bool {
    match i.data {
        ImageData::Jpeg(b) => decoded(b@) is Ok,
        ImageData::Jpeg2000(b) => decoded(b@) is Ok,
        ImageData::Pixels(b) => raw_complete(i, b@),
        ImageData::Other => false,
    }
}

/// Whether an image is analyzed: it can be decoded and is large enough.
pub open spec fn analyzed(i: EmbeddedImage) -> bool {
    decodable(i) && i.width >= 100 && i.height >= 100
}

/// The value of an optional file.
pub open spec fn file_value(f: Option<Vec<u8>>) -> Option<Seq<u8>> {
    match f {
        Some(b) => Some(b@),
        None => None,
    }
}

/// The file that is handed to Error Level Analysis.
pub open spec fn ela_file(i: EmbeddedImage) -> Option<Seq<u8>> {
    match i.data {
        ImageData::Jpeg(b) => Some(b@),
        _ => None,
    }
}

/// The file that is handed to noise analysis: the pixels as PNG.
pub open spec fn noise_file(i: EmbeddedImage) -> Option<Seq<u8>> {
    match i.data {
        ImageData::Jpeg(b) => png_of_file(b@),
        ImageData::Jpeg2000(b) => png_of_file(b@),
        ImageData::Pixels(b) => png_file(b@, i.width, i.height, i.components == 1),
        ImageData::Other => None,
    }
}

/// A file for the noise pass that can be decoded holds the samples of an image of raw
/// pixels, unchanged.
pub open spec fn is_unperturbed(i: EmbeddedImage, file: Seq<u8>) -> bool {
    match i.data {
        ImageData::Pixels(b) => holds_samples(file, b@, i.width, i.height, i.components == 1),
        _ => true,
    }
}

/// Whether an image that is analyzed has more raw samples than pixels.
pub open spec fn oversized(i: EmbeddedImage) -> bool {
    match i.data {
        ImageData::Pixels(b) => (i.components == 1 || i.components == 3) && b@.len() > needed(i)
            && i.width >= 100 && i.height >= 100,
        _ => false,
    }
}

/// The findings on the number of embedded images.
pub open spec fn inventory_findings(n: nat) -> Seq<FindingView> {
    let a = if n > 0 {
        seq![
            plain_finding(
                "pdf_images"@,
                "pdf_image_inventory"@,
                "PDF contains "@ + decimal_text(n) + " embedded image(s) across pages"@,
                Severity::Info,
                P100,
            ),
        ]
    } else {
        seq![]
    };
    let b = if n > MAX_IMAGES {
        seq![
            plain_finding(
                "pdf_images"@,
                "pdf_image_limit"@,
                "PDF contains "@ + decimal_text(n) + " images - analyzing first 20 only"@,
                Severity::Info,
                P100,
            ),
        ]
    } else {
        seq![]
    };
    a + b
}

/// What is put before the descriptions of the findings on an image.
pub open spec fn image_label(i: EmbeddedImage, index: nat) -> Seq<char> {
    "[PDF image "@ + decimal_text(index) + " (page "@ + decimal_text((i.page + 1) as nat) + ", "@
        + decimal_text(i.width as nat) + "x"@ + decimal_text(i.height as nat) + ")] "@
}

/// A finding with a label before its description.
pub open spec fn labelled(f: FindingView, label: Seq<char>) -> FindingView {
    FindingView { description: label + f.description, ..f }
}

/// Findings with a label before their descriptions.
pub open spec fn all_labelled(s: Seq<FindingView>, label: Seq<char>) -> Seq<FindingView> {
    s.map_values(|f: FindingView| labelled(f, label))
}

/// The product of the size and the components of an image.
pub fn samples_needed(i: &EmbeddedImage) -> (r: u128)
    ensures
        r == needed(*i),
{
    proof {
        assert(i.width * i.height <= u32::MAX * u32::MAX) by (nonlinear_arith)
            requires
                0 <= i.width <= u32::MAX,
                0 <= i.height <= u32::MAX,
        ;
        assert(i.width * i.height * i.components <= u32::MAX * u32::MAX * 255) by (nonlinear_arith)
            requires
                0 <= i.width * i.height <= u32::MAX * u32::MAX,
                0 <= i.components <= 255,
        ;
    }
    i.width as u128 * i.height as u128 * i.components as u128
}

impl PdfImagePipeline {
    /// The findings on the number of embedded images.
    pub fn inventory(&self, n: usize) -> (r: Vec<Finding>)
        ensures
            values(r@) == inventory_findings(n as nat),
    {
        broadcast use group_values;

        let mut r: Vec<Finding> = Vec::new();
        if n > 0 {
            let mut d = "PDF contains ".to_string();
            append_decimal(&mut d, n as u64);
            d.append(" embedded image(s) across pages");
            r.push(Finding::new("pdf_images", "pdf_image_inventory", d, Severity::Info, P100));
        }
        if n > MAX_IMAGES {
            let mut d = "PDF contains ".to_string();
            append_decimal(&mut d, n as u64);
            d.append(" images - analyzing first 20 only");
            r.push(Finding::new("pdf_images", "pdf_image_limit", d, Severity::Info, P100));
        }
        assert(values(r@) =~= inventory_findings(n as nat));
        r
    }

    /// Whether an image that is analyzed has more raw samples than pixels.
    pub fn is_oversized(&self, i: &EmbeddedImage) -> (r: bool)
        ensures
            r == oversized(*i),
    {
        match &i.data {
            ImageData::Pixels(b) => (i.components == 1 || i.components == 3) && b.len() as u128
                > samples_needed(i) && i.width >= 100 && i.height >= 100,
            _ => false,
        }
    }

    /// Takes out of an embedded image what is analyzed of it. Images that cannot be decoded
    /// and small ones are not analyzed.
    pub fn extract(&self, i: &EmbeddedImage) -> (r: Option<Extracted>)
        requires
            !oversized(*i),
        ensures
            match r {
                Some(e) => analyzed(*i) && file_value(e.ela) == ela_file(*i) && file_value(e.noise)
                    == noise_file(*i),
                None => !analyzed(*i),
            },
            r matches Some(e) ==> (e.noise matches Some(file) ==> is_unperturbed(*i, file@)),
    {
        match &i.data {
            ImageData::Jpeg(b) => {
                if Picture::decode(b.as_slice()).is_err() || i.width < 100 || i.height < 100 {
                    return None;
                }
                let copy = copy_range(b.as_slice(), 0, b.len());
                assert(copy@ =~= b@);
                Some(Extracted { ela: Some(copy), noise: png_copy(b.as_slice()) })
            },
            ImageData::Jpeg2000(b) => {
                if Picture::decode(b.as_slice()).is_err() || i.width < 100 || i.height < 100 {
                    return None;
                }
                Some(Extracted { ela: None, noise: png_copy(b.as_slice()) })
            },
            ImageData::Pixels(b) => {
                if (i.components != 1 && i.components != 3) || (b.len() as u128) < samples_needed(i)
                    || i.width < 100 || i.height < 100 {
                    return None;
                }
                let copy = copy_range(b.as_slice(), 0, b.len());
                assert(copy@ =~= b@);
                let f = Frame {
                    width: i.width,
                    height: i.height,
                    samples: copy,
                    monochrome: i.components == 1,
                };
                Some(Extracted { ela: None, noise: f.to_png() })
            },
            ImageData::Other => None,
        }
    }

    /// Puts before the description of each finding which image it is on.
    pub fn label(&self, findings: Vec<Finding>, i: &EmbeddedImage, index: usize) -> (r: Vec<
        Finding,
    >)
        ensures
            values(r@) == all_labelled(values(findings@), image_label(*i, index as nat)),
    {
        let ghost label = image_label(*i, index as nat);
        let mut text = "[PDF image ".to_string();
        append_decimal(&mut text, index as u64);
        text.append(" (page ");
        append_decimal(&mut text, i.page as u64 + 1);
        text.append(", ");
        append_decimal(&mut text, i.width as u64);
        text.append("x");
        append_decimal(&mut text, i.height as u64);
        text.append(")] ");
        let mut r: Vec<Finding> = Vec::new();
        let mut k: usize = 0;
        while k < findings.len()
            invariant
                k <= findings@.len(),
                text@ == label,
                r@.len() == k,
                forall|j: int| 0 <= j < k ==> (#[trigger] r@[j])@ == labelled(findings@[j]@, label),
            decreases findings@.len() - k,
        {
            let mut f = findings[k].duplicate();
            let mut d = text.as_str().to_string();
            d.append(f.description.as_str());
            f.description = d;
            r.push(f);
            k += 1;
        }
        assert(values(r@) =~= all_labelled(values(findings@), label));
        r
    }
}

/// A label changes nothing of a finding but its description.
pub proof fn law_label_keeps_the_rest(f: FindingView, label: Seq<char>)
    ensures
        labelled(f, label).analyzer == f.analyzer,
        labelled(f, label).code == f.code,
        labelled(f, label).severity == f.severity,
        labelled(f, label).confidence == f.confidence,
        labelled(f, label).region == f.region,
        labelled(f, label).description == label + f.description,
{
}

/// An image is analyzed where it can be decoded and has at least a hundred pixels on each
/// side; raw samples can be where there is one component or three and they are complete.
pub proof fn law_analyzed_images(i: EmbeddedImage)
    ensures
        analyzed(i) ==> i.width > 99 && i.height > 99,
        i.data matches ImageData::Pixels(b) ==> (analyzed(i) <==> i.width > 99 && i.height > 99 && (
        i.components == 1 || i.components == 3) && b@.len() >= i.width * i.height * i.components),
        i.data matches ImageData::Jpeg(b) ==> (analyzed(i) <==> i.width > 99 && i.height > 99
            && decoded(b@) is Ok),
        i.data matches ImageData::Other ==> !analyzed(i),
{
}

/// Error levels are measured on the bytes of a JPEG stream as they are, and on nothing else.
pub proof fn law_error_levels_on_streams(i: EmbeddedImage)
    ensures
        ela_file(i) is Some <==> i.data is Jpeg,
        i.data matches ImageData::Jpeg(b) ==> ela_file(i) == Some(b@),
{
}

/// The inventory is told where there is an image, and the limit where there are more than
/// twenty.
pub proof fn law_inventory(n: nat)
    ensures
        inventory_findings(n).len() == if n == 0 {
            0int
        } else if n <= 20 {
            1
        } else {
            2
        },
        n > 0 ==> inventory_findings(n)[0].code == "pdf_image_inventory"@ && inventory_findings(
            n,
        )[0].severity == Severity::Info,
        n > 20 ==> inventory_findings(n)[1].code == "pdf_image_limit"@ && inventory_findings(
            n,
        )[1].severity == Severity::Info,
{
}

/// Every finding on an image is labelled, with the page counted from one; none is lost.
pub proof fn law_all_labelled(s: Seq<FindingView>, i: EmbeddedImage, index: nat, k: int)
    requires
        0 <= k < s.len(),
    ensures
        ({
            let r = all_labelled(s, image_label(i, index));
            &&& r.len() == s.len()
            &&& r[k].code == s[k].code && r[k].severity == s[k].severity && r[k].confidence
                == s[k].confidence && r[k].analyzer == s[k].analyzer && r[k].region == s[k].region
            &&& r[k].description == "[PDF image "@ + decimal_text(index) + " (page "@
                + decimal_text((1 + i.page) as nat) + ", "@ + decimal_text(i.width as nat) + "x"@
                + decimal_text(i.height as nat) + ")] "@ + s[k].description
        }),
{
}

/// Samples are whole where there are enough of one or three channels. What can be decoded is a
/// file that can be, or whole samples.
pub proof fn law_decodable(i: EmbeddedImage)
    ensures
        needed(i) == i.components * (i.width * i.height),
        i.data matches ImageData::Jpeg(b) ==> (decodable(i) <==> decoded(b@) is Ok),
        i.data matches ImageData::Jpeg2000(b) ==> (decodable(i) <==> decoded(b@) is Ok),
        i.data matches ImageData::Pixels(b) ==> (decodable(i) <==> (i.components == 1 || i.components
            == 3) && b@.len() >= i.components * (i.width * i.height)),
        i.data is Other ==> !decodable(i),
{
    let (a, c) = (i.width * i.height, i.components as int);
    assert(a * c == c * a) by (nonlinear_arith);
}

/// Samples are too many where they are whole, of a hundred pixels a side or more, and more than
/// needed; files never are.
pub proof fn law_oversized(i: EmbeddedImage)
    ensures
        i.data matches ImageData::Pixels(b) ==> (oversized(i) <==> (i.components == 1 || i.components
            == 3) && b@.len() > i.components * (i.width * i.height) && i.width > 99 && i.height > 99),
        !(i.data is Pixels) ==> !oversized(i),
        MAX_IMAGES == 20,
{
    let (a, c) = (i.width * i.height, i.components as int);
    assert(a * c == c * a) by (nonlinear_arith);
}

} // verus!
