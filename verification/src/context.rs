//! The shared analysis context: original bytes, decoded pixels and metadata.
//!
//! Forensics is byte-exact, so a [`Context`] keeps the original bytes alongside the decoded
//! picture and the metadata tags that a metadata reader took from the file.

use crate::histogram::{count_band, histogram, histogram_of, in_band, is_bimodal, max_in};
use crate::histogram::{range_max, two_peaks};
use crate::raster::{decoded, file_format, format_of, Format, Picture, MAX_PIXELS};
use crate::select::total;
use crate::share::MAX_COUNT;
use crate::text::{append_decimal, begins_with, decimal_text, occurs_at, same_text};
use vstd::prelude::*;

verus! {

/// 0.35, above which the document score makes a document.
pub const DOCUMENT_SCORE: i64 = 0x3FD6_6666_6666_6666;

/// -0.15, below which the document score makes a photo.
pub const PHOTO_SCORE: i64 = -0x3FC3_3333_3333_3333;

/// 0.5, as a share of background pixels.
pub const HALF: i64 = 0x3FE0_0000_0000_0000;

/// 0.6, as a share of background pixels.
pub const SIX_TENTHS: i64 = 0x3FE3_3333_3333_3333;

/// The bytes `%PDF-`.
pub open spec fn pdf_magic() -> Seq<u8> {
    seq![0x25u8, 0x50, 0x44, 0x46, 0x2d]
}

/// The bytes `ftyp`.
pub open spec fn ftyp() -> Seq<u8> {
    seq![0x66u8, 0x74, 0x79, 0x70]
}

/// The brands of the HEIF family: `heic`, `heix`, `mif1`, `msf1` and `avif`.
pub open spec fn heif_brands() -> Seq<Seq<u8>> {
    seq![
        seq![0x68u8, 0x65, 0x69, 0x63],
        seq![0x68u8, 0x65, 0x69, 0x78],
        seq![0x6du8, 0x69, 0x66, 0x31],
        seq![0x6du8, 0x73, 0x66, 0x31],
        seq![0x61u8, 0x76, 0x69, 0x66],
    ]
}

/// A PDF file begins with `%PDF-`.
pub open spec fn pdf_bytes(b: Seq<u8>) -> bool {
    begins_with(b, pdf_magic())
}

/// A HEIF file holds, after four bytes, the box type `ftyp` and a brand of the family.
pub open spec fn heic_bytes(b: Seq<u8>) -> bool {
    occurs_at(b, ftyp(), 4) && exists|k: int|
        0 <= k < heif_brands().len() && #[trigger] occurs_at(b, heif_brands()[k], 8)
}

/// A JPEG file begins with a start-of-image marker and the first byte of another marker.
pub open spec fn jpeg_bytes(b: Seq<u8>) -> bool {
    b.len() >= 3 && b[0] == 0xff && b[1] == 0xd8 && b[2] == 0xff
}

/// Tells whether four bytes stand at `at`.
fn four_at(b: &[u8], at: usize, q: [u8; 4]) -> (r: bool)
    requires
        at <= 8,
    ensures
        r == occurs_at(b@, q@, at as int),
{
    let r = b.len() >= at + 4 && b[at] == q[0] && b[at + 1] == q[1] && b[at + 2] == q[2] && b[at
        + 3] == q[3];
    proof {
        if r {
            assert(b@.subrange(at as int, at + 4) =~= q@);
        } else if occurs_at(b@, q@, at as int) {
            let s = b@.subrange(at as int, at + 4);
            assert(s[0] == b@[at as int] && s[1] == b@[at + 1] && s[2] == b@[at + 2] && s[3]
                == b@[at + 3]);
        }
    }
    r
}

/// Whether the bytes begin with the PDF magic (`%PDF-`).
pub fn is_pdf_bytes(b: &[u8]) -> (r: bool)
    ensures
        r == pdf_bytes(b@),
{
    let r = b.len() >= 5 && b[0] == 0x25 && b[1] == 0x50 && b[2] == 0x44 && b[3] == 0x46 && b[4]
        == 0x2d;
    proof {
        let s = b@.subrange(0, 5);
        if r {
            assert(s =~= pdf_magic());
        } else if pdf_bytes(b@) {
            assert(s[0] == b@[0] && s[1] == b@[1] && s[2] == b@[2] && s[3] == b@[3] && s[4]
                == b@[4]);
        }
    }
    r
}

/// HEIC/HEIF/AVIF detection: an ISO-BMFF `ftyp` box with a HEIF-family brand.
pub fn is_heic_bytes(b: &[u8]) -> (r: bool)
    ensures
        r == heic_bytes(b@),
{
    let heic: [u8; 4] = [0x68, 0x65, 0x69, 0x63];
    let heix: [u8; 4] = [0x68, 0x65, 0x69, 0x78];
    let mif1: [u8; 4] = [0x6d, 0x69, 0x66, 0x31];
    let msf1: [u8; 4] = [0x6d, 0x73, 0x66, 0x31];
    let avif: [u8; 4] = [0x61, 0x76, 0x69, 0x66];
    let ftyp_box: [u8; 4] = [0x66, 0x74, 0x79, 0x70];
    proof {
        assert(ftyp_box@ =~= ftyp());
        assert(heic@ =~= heif_brands()[0]);
        assert(heix@ =~= heif_brands()[1]);
        assert(mif1@ =~= heif_brands()[2]);
        assert(msf1@ =~= heif_brands()[3]);
        assert(avif@ =~= heif_brands()[4]);
    }
    four_at(b, 4, ftyp_box) && (four_at(b, 8, heic) || four_at(b, 8, heix) || four_at(b, 8, mif1)
        || four_at(b, 8, msf1) || four_at(b, 8, avif))
}

/// Content classification. Many analyzers gate on this: document-specific ones run only on
/// documents, camera and sensor ones skip them.
#[derive(Clone, Copy, PartialEq, Eq, Structural, Debug)]
pub enum ContentType {
    Photo,
    Document,
    Mixed,
    Unknown,
}

/// Failure building a [`Context`] from bytes.
pub enum ContextError {
    Decode(String),
    TooSmall { width: u32, height: u32 },
}

impl ContextError {
    /// What the error says.
    pub open spec fn says(&self) -> Seq<char> {
        match *self {
            ContextError::Decode(e) => "unsupported or undecodable image: "@ + e@,
            ContextError::TooSmall { width, height } => "image too small: "@ + decimal_text(
                width as nat,
            ) + "x"@ + decimal_text(height as nat),
        }
    }

    /// The text of the error.
    pub fn message(&self) -> (r: String)
        ensures
            r@ == self.says(),
    {
        match self {
            ContextError::Decode(e) => {
                let mut s = "unsupported or undecodable image: ".to_string();
                s.append(e.as_str());
                s
            },
            ContextError::TooSmall { width, height } => {
                let mut s = "image too small: ".to_string();
                append_decimal(&mut s, *width as u64);
                s.append("x");
                append_decimal(&mut s, *height as u64);
                s
            },
        }
    }
}

/// One metadata tag: the group that it belongs to, its name and its value as text.
pub struct Tag {
    pub group: String,
    pub name: String,
    pub value: String,
}

/// Whether some tag belongs to a group.
pub open spec fn group_present(tags: Seq<Tag>, group: Seq<char>) -> bool {
    exists|i: int| 0 <= i < tags.len() && (#[trigger] tags[i]).group@ == group
}

/// Whether some tag of a group has a name.
pub open spec fn tag_present(tags: Seq<Tag>, group: Seq<char>, name: Seq<char>) -> bool {
    exists|i: int|
        0 <= i < tags.len() && (#[trigger] tags[i]).group@ == group && tags[i].name@ == name
}

/// Tells whether some tag belongs to `group`.
pub fn has_group(tags: &Vec<Tag>, group: &str) -> (r: bool)
    ensures
        r == group_present(tags@, group@),
{
    let mut i: usize = 0;
    while i < tags.len()
        invariant
            0 <= i <= tags@.len(),
            forall|j: int| 0 <= j < i ==> (#[trigger] tags@[j]).group@ != group@,
        decreases tags@.len() - i,
    {
        if same_text(tags[i].group.as_str(), group) {
            return true;
        }
        i += 1;
    }
    false
}

/// Tells whether some tag of `group` has the name `name`.
pub fn has_tag(tags: &Vec<Tag>, group: &str, name: &str) -> (r: bool)
    ensures
        r == tag_present(tags@, group@, name@),
{
    let mut i: usize = 0;
    while i < tags.len()
        invariant
            0 <= i <= tags@.len(),
            forall|j: int|
                0 <= j < i ==> !((#[trigger] tags@[j]).group@ == group@ && tags@[j].name@ == name@),
        decreases tags@.len() - i,
    {
        if same_text(tags[i].group.as_str(), group) && same_text(tags[i].name.as_str(), name) {
            return true;
        }
        i += 1;
    }
    false
}

/// Whether the EXIF tags tell of a camera.
pub open spec fn camera_tagged(tags: Seq<Tag>) -> bool {
    tag_present(tags, "EXIF"@, "Make"@) || tag_present(tags, "EXIF"@, "Model"@) || tag_present(
        tags,
        "EXIF"@,
        "LensModel"@,
    ) || tag_present(tags, "EXIF"@, "FocalLength"@)
}

/// Tells whether the EXIF tags tell of a camera.
pub fn has_camera(tags: &Vec<Tag>) -> (r: bool)
    ensures
        r == camera_tagged(tags@),
{
    has_tag(tags, "EXIF", "Make") || has_tag(tags, "EXIF", "Model") || has_tag(
        tags,
        "EXIF",
        "LensModel",
    ) || has_tag(tags, "EXIF", "FocalLength")
}

/// The metadata signal in tenths, from -10 (photo) to 10 (document).
pub open spec fn metadata_tenths(tags: Seq<Tag>) -> int {
    let camera = camera_tagged(tags);
    let software = tag_present(tags, "EXIF"@, "Software"@);
    if group_present(tags, "PDF"@) {
        10
    } else if camera && !software {
        -10
    } else if camera {
        -3
    } else if software {
        5
    } else {
        3
    }
}

/// The format signal in tenths.
pub open spec fn format_tenths(format: Format, camera: bool) -> int {
    match format {
        Format::Png => 5,
        Format::Bmp => 3,
        Format::Jpeg => if camera {
            -5
        } else {
            0
        },
        Format::Other => 0,
    }
}

/// The histogram signal in tenths. `background` is the key of the share of near-white
/// pixels plus that of near-black pixels.
pub open spec fn histogram_tenths(gray: Seq<u8>, background: i64) -> int {
    let h = histogram_of(gray);
    if range_max(h, 0, 80) > 0 && range_max(h, 180, 76) > 0 {
        if two_peaks(h, 80, 180, 80, 180) {
            10
        } else if background > HALF {
            6
        } else {
            0
        }
    } else if background > SIX_TENTHS {
        7
    } else {
        0
    }
}

/// The sum of the first `n` samples of row `y`.
pub open spec fn row_total(gray: Seq<u8>, w: int, y: int, n: nat) -> nat
    decreases n,
{
    if n == 0 {
        0
    } else {
        row_total(gray, w, y, (n - 1) as nat) + gray[y * w + n - 1] as nat
    }
}

/// The original bytes, the decoded picture and the metadata of one file.
pub struct Context {
    /// The original, undecoded bytes. Never re-encoded.
    pub raw_bytes: Vec<u8>,
    /// The decoded picture (one black pixel for PDFs, which have no single image).
    pub image: Picture,
    /// The raster format, by the file's first bytes.
    pub format: Format,
    /// EXIF, XMP, IPTC and PDF tags.
    pub tags: Vec<Tag>,
    /// The embedded EXIF thumbnail, if there is one.
    pub thumbnail_bytes: Option<Vec<u8>>,
    pub content_type: ContentType,
}

/// What a file that is not a PDF decodes to: a picture with pixels, or an error.
pub open spec fn raster_of(b: Seq<u8>) -> Result<(u32, u32, Seq<u8>, Option<Seq<u8>>), Seq<char>> {
    if heic_bytes(b) {
        Err("HEIC/HEIF input requires the `heic` cargo feature (libheif)"@)
    } else {
        decoded(b)
    }
}

/// A picture is the one that stands for a PDF.
pub open spec fn is_placeholder(p: Picture) -> bool {
    &&& p.width == 1
    &&& p.height == 1
    &&& p.gray@ == seq![0u8]
    &&& p.rgb@ == seq![0u8, 0, 0]
    &&& !p.monochrome
}

/// The content type that a document score makes.
pub open spec fn content_of(score: i64) -> ContentType {
    if score > DOCUMENT_SCORE {
        ContentType::Document
    } else if score < PHOTO_SCORE {
        ContentType::Photo
    } else {
        ContentType::Unknown
    }
}

/// Makes the picture that stands for a PDF.
fn single_pixel() -> (r: Picture)
    ensures
        is_placeholder(r),
        r.wf(),
{
    let gray: Vec<u8> = vec![0];
    let rgb: Vec<u8> = vec![0, 0, 0];
    assert(gray@ =~= seq![0u8]);
    assert(rgb@ =~= seq![0u8, 0, 0]);
    Picture { width: 1, height: 1, gray, rgb, monochrome: false }
}

/// The sizes of an opened file are within the bounds that the analyses need for their sums
/// and counts.
pub proof fn law_sizes_bounded(c: Context)
    requires
        c.wf(),
    ensures
        c.image.gray@.len() <= u32::MAX,
        c.image.rgb@.len() <= MAX_COUNT,
        255 * (c.image.width * c.image.height) <= u64::MAX,
        c.image.width <= usize::MAX / 3,
        c.image.height <= 0x7FFF_FFFF,
{
    let (w, h) = (c.image.width as int, c.image.height as int);
    assert(w <= w * h && h <= w * h) by (nonlinear_arith)
        requires
            w > 0,
            h > 0,
    ;
}

impl Context {
    /// The picture has its samples, at least one pixel and no more than can be decoded.
    pub open spec fn wf(&self) -> bool {
        &&& self.image.wf()
        &&& self.image.width * self.image.height <= MAX_PIXELS
        &&& self.image.width > 0
        &&& self.image.height > 0
    }

    /// Decodes raster bytes (JPEG, PNG, WebP, GIF, TIFF, BMP) or accepts a PDF. The tags and
    /// the thumbnail are what a metadata reader found. A PDF is a document; what a raster
    /// shows is not known before [`Context::classify_content`].
    pub fn from_bytes(
        raw_bytes: Vec<u8>,
        tags: Vec<Tag>,
        thumbnail_bytes: Option<Vec<u8>>,
    ) -> (r: Result<Context, ContextError>)
        ensures
            pdf_bytes(raw_bytes@) ==> (r matches Ok(c) && is_placeholder(c.image)
                && c.thumbnail_bytes is None && c.content_type == ContentType::Document
                && c.format == Format::Other),
            !pdf_bytes(raw_bytes@) ==> match raster_of(raw_bytes@) {
                Err(e) => r matches Err(ContextError::Decode(t)) && t@ == e,
                Ok(p) => if p.0 == 0 || p.1 == 0 {
                    r == Err::<Context, ContextError>(
                        ContextError::TooSmall { width: p.0, height: p.1 },
                    )
                } else {
                    r matches Ok(c) && c.image.value() == p && c.thumbnail_bytes == thumbnail_bytes
                        && c.content_type == ContentType::Unknown && c.format == format_of(
                        raw_bytes@,
                    )
                },
            },
            r matches Ok(c) ==> c.wf() && c.raw_bytes == raw_bytes && c.tags == tags,
    {
        if is_pdf_bytes(raw_bytes.as_slice()) {
            return Ok(
                Context {
                    raw_bytes,
                    image: single_pixel(),
                    format: Format::Other,
                    tags,
                    thumbnail_bytes: None,
                    content_type: ContentType::Document,
                },
            );
        }
        if is_heic_bytes(raw_bytes.as_slice()) {
            let text = "HEIC/HEIF input requires the `heic` cargo feature (libheif)".to_string();
            return Err(ContextError::Decode(text));
        }
        let image = match Picture::decode(raw_bytes.as_slice()) {
            Ok(p) => p,
            Err(e) => return Err(ContextError::Decode(e)),
        };
        if image.width == 0 || image.height == 0 {
            return Err(ContextError::TooSmall { width: image.width, height: image.height });
        }
        let format = file_format(raw_bytes.as_slice());
        Ok(
            Context {
                raw_bytes,
                image,
                format,
                tags,
                thumbnail_bytes,
                content_type: ContentType::Unknown,
            },
        )
    }

    /// Whether the original bytes are a PDF (`%PDF-`).
    pub fn is_pdf(&self) -> (r: bool)
        ensures
            r == pdf_bytes(self.raw_bytes@),
    {
        is_pdf_bytes(self.raw_bytes.as_slice())
    }

    /// Whether the original bytes are a JPEG (SOI marker).
    pub fn is_jpeg(&self) -> (r: bool)
        ensures
            r == jpeg_bytes(self.raw_bytes@),
    {
        self.raw_bytes.len() >= 3 && self.raw_bytes[0] == 0xff && self.raw_bytes[1] == 0xd8
            && self.raw_bytes[2] == 0xff
    }

    /// The row-major 8-bit luminance of the picture; nothing for a PDF.
    pub fn gray(&self) -> (r: &[u8])
        ensures
            r@ == if pdf_bytes(self.raw_bytes@) {
                seq![]
            } else {
                self.image.gray@
            },
    {
        if self.is_pdf() {
            let none: &[u8] = &[];
            assert(none@ =~= seq![]);
            none
        } else {
            self.image.gray.as_slice()
        }
    }

    /// The metadata signal of the content type, in tenths.
    pub fn metadata_signal(&self) -> (r: i8)
        ensures
            r == metadata_tenths(self.tags@),
    {
        let camera = has_camera(&self.tags);
        let software = has_tag(&self.tags, "EXIF", "Software");
        if has_group(&self.tags, "PDF") {
            10
        } else if camera && !software {
            -10
        } else if camera {
            -3
        } else if software {
            5
        } else {
            3
        }
    }

    /// The format signal of the content type, in tenths.
    pub fn format_signal(&self) -> (r: i8)
        ensures
            r == format_tenths(self.format, camera_tagged(self.tags@)),
    {
        match self.format {
            Format::Png => 5,
            Format::Bmp => 3,
            Format::Jpeg => if has_camera(&self.tags) {
                -5
            } else {
                0
            },
            Format::Other => 0,
        }
    }

    /// Counts the near-white and the near-black pixels.
    pub fn background_counts(&self) -> (r: (usize, usize))
        ensures
            r.0 == in_band(self.image.gray@, 230, 256, self.image.gray@.len()),
            r.1 == in_band(self.image.gray@, 0, 25, self.image.gray@.len()),
    {
        (
            count_band(self.image.gray.as_slice(), 230, 256),
            count_band(self.image.gray.as_slice(), 0, 25),
        )
    }

    /// The histogram signal of the content type, in tenths; `background` is the key of the
    /// share of near-white pixels plus that of near-black pixels.
    pub fn histogram_signal(&self, background: i64) -> (r: i8)
        ensures
            r == histogram_tenths(self.image.gray@, background),
    {
        let h = histogram(self.image.gray.as_slice());
        if max_in(&h, 0, 80) > 0 && max_in(&h, 180, 76) > 0 {
            if is_bimodal(&h, 80, 180, 80, 180) {
                10
            } else if background > HALF {
                6
            } else {
                0
            }
        } else if background > SIX_TENTHS {
            7
        } else {
            0
        }
    }

    /// The sum of every row of the luminance plane.
    pub fn row_sums(&self) -> (r: Vec<u64>)
        requires
            self.wf(),
        ensures
            r@.len() == self.image.height,
            forall|y: int|
                0 <= y < r@.len() ==> #[trigger] r@[y] == row_total(
                    self.image.gray@,
                    self.image.width as int,
                    y,
                    self.image.width as nat,
                ),
    {
        let g = &self.image.gray;
        let w = self.image.width as usize;
        let h = self.image.height as usize;
        let mut r: Vec<u64> = Vec::new();
        let mut y: usize = 0;
        while y < h
            invariant
                0 <= y <= h,
                g@.len() == w * h,
                w <= u32::MAX,
                r@.len() == y,
                forall|j: int| 0 <= j < y ==> #[trigger] r@[j] == row_total(g@, w as int, j, w as nat),
            decreases h - y,
        {
            let mut sum: u64 = 0;
            let mut x: usize = 0;
            while x < w
                invariant
                    0 <= x <= w,
                    0 <= y < h,
                    g@.len() == w * h,
                    w <= u32::MAX,
                    sum == row_total(g@, w as int, y as int, x as nat),
                    sum <= 255 * x,
                decreases w - x,
            {
                assert(g.len() == w * h);
                assert(y * w + x < w * h) by (nonlinear_arith)
                    requires
                        0 <= y < h,
                        0 <= x < w,
                ;
                assert(0 <= y * w) by (nonlinear_arith)
                    requires
                        0 <= y,
                        0 <= w,
                ;
                sum += g[y * w + x] as u64;
                x += 1;
            }
            r.push(sum);
            y += 1;
        }
        r
    }

    /// Settles the content type of a raster by the key of its weighted document score. The
    /// type of a PDF stays.
    pub fn classify_content(&mut self, score: i64)
        ensures
            final(self).content_type == if pdf_bytes(old(self).raw_bytes@) {
                old(self).content_type
            } else {
                content_of(score)
            },
            final(self).raw_bytes == old(self).raw_bytes,
            final(self).image == old(self).image,
            final(self).format == old(self).format,
            final(self).tags == old(self).tags,
            final(self).thumbnail_bytes == old(self).thumbnail_bytes,
    {
        if self.is_pdf() {
            return;
        }
        self.content_type = if score > DOCUMENT_SCORE {
            ContentType::Document
        } else if score < PHOTO_SCORE {
            ContentType::Photo
        } else {
            ContentType::Unknown
        };
    }
}

/// A file is a PDF where its first five bytes read `%PDF-`.
pub proof fn law_pdf_files(b: Seq<u8>)
    ensures
        pdf_bytes(b) <==> b.len() >= 5 && b[0] == 37 && b[1] == 80 && b[2] == 68 && b[3] == 70 && b[4]
            == 45,
{
    if b.len() >= 5 {
        let t = b.subrange(0, 5);
        assert(t[0] == b[0] && t[1] == b[1] && t[2] == b[2] && t[3] == b[3] && t[4] == b[4]);
        if b[0] == 37 && b[1] == 80 && b[2] == 68 && b[3] == 70 && b[4] == 45 {
            assert(t =~= pdf_magic());
        }
    }
}

/// Four bytes read a word of four letters.
pub open spec fn reads(b: Seq<u8>, at: int, q: u8, r: u8, s: u8, t: u8) -> bool {
    b.len() >= at + 4 && b[at] == q && b[at + 1] == r && b[at + 2] == s && b[at + 3] == t
}

proof fn lemma_reads(b: Seq<u8>, at: int, w: Seq<u8>)
    requires
        at >= 0,
        w.len() == 4,
    ensures
        occurs_at(b, w, at) == reads(b, at, w[0], w[1], w[2], w[3]),
{
    if b.len() >= at + 4 {
        let t = b.subrange(at, at + 4);
        assert(t[0] == b[at] && t[1] == b[at + 1] && t[2] == b[at + 2] && t[3] == b[at + 3]);
        if reads(b, at, w[0], w[1], w[2], w[3]) {
            assert(t =~= w);
        }
    }
}

/// A file is HEIC where `ftyp` stands at its fifth byte and a brand of that family at its
/// ninth: `heic`, `heix`, `mif1`, `msf1` or `avif`.
pub proof fn law_heic_files(b: Seq<u8>)
    ensures
        heic_bytes(b) <==> reads(b, 4, 102, 116, 121, 112) && (reads(b, 8, 104, 101, 105, 99)
            || reads(b, 8, 104, 101, 105, 120) || reads(b, 8, 109, 105, 102, 49) || reads(
            b,
            8,
            109,
            115,
            102,
            49,
        ) || reads(b, 8, 97, 118, 105, 102)),
{
    lemma_reads(b, 4, ftyp());
    let h = heif_brands();
    lemma_reads(b, 8, h[0]);
    lemma_reads(b, 8, h[1]);
    lemma_reads(b, 8, h[2]);
    lemma_reads(b, 8, h[3]);
    lemma_reads(b, 8, h[4]);
    assert(h.len() == 5);
}

/// A file is a JPEG where it begins with the bytes of a start and a marker.
pub proof fn law_jpeg_files(b: Seq<u8>)
    ensures
        jpeg_bytes(b) <==> b.len() > 2 && b[0] == 255 && b[1] == 216 && b[2] == 255,
        jpeg_bytes(b) ==> !pdf_bytes(b),
{
    law_pdf_files(b);
}

/// Tags of a PDF speak for a document most; a camera without software speaks against one
/// most, and with software less; software alone speaks for one more than nothing does.
pub proof fn law_metadata_signal(tags: Seq<Tag>)
    ensures
        ({
            let m = metadata_tenths(tags);
            let pdf = group_present(tags, "PDF"@);
            let software = tag_present(tags, "EXIF"@, "Software"@);
            &&& m == 10 <==> pdf
            &&& m == -10 <==> !pdf && camera_tagged(tags) && !software
            &&& m == -3 <==> !pdf && camera_tagged(tags) && software
            &&& m == 5 <==> !pdf && !camera_tagged(tags) && software
            &&& m == 3 <==> !pdf && !camera_tagged(tags) && !software
        }),
{
}

/// A camera is known by its make, its model, its lens or its focal length among the EXIF tags.
pub proof fn law_camera_tags(tags: Seq<Tag>, i: int)
    requires
        0 <= i < tags.len(),
        tags[i].group@ == "EXIF"@,
        tags[i].name@ == "Make"@ || tags[i].name@ == "Model"@ || tags[i].name@ == "LensModel"@
            || tags[i].name@ == "FocalLength"@,
    ensures
        camera_tagged(tags),
{
}

/// A lossless format speaks for a document, PNG more than BMP; a JPEG speaks against one where
/// it names a camera.
pub proof fn law_format_signal(format: Format, camera: bool)
    ensures
        format_tenths(format, camera) == (if format == Format::Png {
            5int
        } else if format == Format::Bmp {
            3
        } else if format == Format::Jpeg && camera {
            -5
        } else {
            0
        }),
{
}

/// Two peaks of the histogram speak for a document most. Without them a bright or dark
/// background does: over a half of the image where both dark and light values occur, over six
/// tenths where they do not.
pub proof fn law_histogram_signal(gray: Seq<u8>, background: i64)
    ensures
        ({
            let h = histogram_of(gray);
            let both = range_max(h, 0, 80) > 0 && range_max(h, 180, 76) > 0;
            let r = histogram_tenths(gray, background);
            &&& r == 10 <==> both && two_peaks(h, 80, 180, 80, 180)
            &&& r == 6 <==> both && !two_peaks(h, 80, 180, 80, 180) && background
                > 0x3FE0_0000_0000_0000
            &&& r == 7 <==> !both && background > 0x3FE3_3333_3333_3333
            &&& r == 10 || r == 7 || r == 6 || r == 0
        }),
{
}

/// The sum of a row is that of its samples.
pub proof fn law_row_sums(gray: Seq<u8>, w: int, y: int, n: nat)
    ensures
        row_total(gray, w, y, n) == total(n, |i: int| gray[y * w + i] as int),
    decreases n,
{
    if n > 0 {
        law_row_sums(gray, w, y, (n - 1) as nat);
    }
}

/// A score above 0.35 makes a document, one below -0.15 a photo; in between nothing is known.
pub proof fn law_content_of_score(score: i64)
    ensures
        content_of(score) == ContentType::Document <==> score >= 0x3FD6_6666_6666_6667,
        content_of(score) == ContentType::Photo <==> score <= -0x3FC3_3333_3333_3334,
        content_of(score) != ContentType::Mixed,
{
}

/// A file in a HEIF format is refused, and any other decoded.
pub proof fn law_rasters(b: Seq<u8>)
    ensures
        heic_bytes(b) ==> raster_of(b) is Err,
        !heic_bytes(b) ==> raster_of(b) == decoded(b),
{
}

} // verus!
