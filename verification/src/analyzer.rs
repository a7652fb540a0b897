//! Which analyzers there are and when they run, the dispatch policy, and reports.
//!
//! An analyzer runs on the fast path first, where there is one, and on the reference path if
//! the fast path fails. A panic on either path yields no findings and stops nothing else.

use crate::bits::P95;
use crate::context::jpeg_bytes;
use crate::context::pdf_bytes;
use crate::context::ContentType;
use crate::context::Context;
use crate::finding::group_values;
use crate::finding::plain_finding;
use crate::finding::values;
use crate::finding::Finding;
use crate::finding::FindingView;
use crate::finding::Severity;
use crate::raster::area;
use crate::risk::score::report_of;
use crate::risk::score::score;
use crate::risk::score::RiskReport;
use crate::share::fraction;
use crate::share::fraction_text;
use crate::text::append_decimal;
use crate::text::decimal_text;
use vstd::prelude::*;
use vstd::string::*;

verus! {

/// The analyzers.
#[derive(Clone, Copy, PartialEq, Eq, Structural, Debug)]
pub enum AnalyzerKind {
    Metadata,
    ExifPixel,
    C2pa,
    Ela,
    Noise,
    JpegGhost,
    DoubleJpeg,
    Thumbnail,
    QtableFingerprint,
    HistogramGaps,
    Resampling,
    Upscaling,
    Screenshot,
    TextAlignment,
    FontConsistency,
    DofConsistency,
    PrnuCrossRegion,
    JpegForensics,
    VanishingPoint,
    PasteRectangle,
    DocumentForensics,
    EdgeSharpness,
    ChannelCorrelation,
    WaveletConsistency,
    TextureConsistency,
    ColorConsistency,
    AntiForensics,
    LightingConsistency,
    ShadowConsistency,
    GeometricConsistency,
    Cfa,
    CopyMove,
    SpliceBoundary,
    Frequency,
    ChromaticAberration,
    Illumination,
    Prnu,
    PdfStructure,
    PdfOverlay,
    PdfImages,
}

/// When an analyzer runs.
#[derive(Clone, Copy, PartialEq, Eq, Structural, Debug)]
pub enum Gate {
    /// On every file.
    Always,
    /// On PDF files.
    Pdf,
    /// On files that are no PDF.
    Raster,
    /// On JPEG files.
    Jpeg,
    /// On anything but documents.
    Scene,
    /// On documents and mixed content.
    Text,
}

/// Whether a gate is open for a file.
pub open spec fn opens(g: Gate, raw: Seq<u8>, content: ContentType) -> bool {
    match g {
        Gate::Always => true,
        Gate::Pdf => pdf_bytes(raw),
        Gate::Raster => !pdf_bytes(raw),
        Gate::Jpeg => jpeg_bytes(raw),
        Gate::Scene => content != ContentType::Document,
        Gate::Text => content == ContentType::Document || content == ContentType::Mixed,
    }
}

impl AnalyzerKind {
    /// When an analyzer runs.
    pub open spec fn gate_spec(self) -> Gate {
        match self {
            AnalyzerKind::Metadata
            | AnalyzerKind::ExifPixel
            | AnalyzerKind::C2pa
            | AnalyzerKind::Thumbnail => Gate::Always,
            AnalyzerKind::PdfStructure
            | AnalyzerKind::PdfOverlay
            | AnalyzerKind::PdfImages => Gate::Pdf,
            AnalyzerKind::Noise
            | AnalyzerKind::HistogramGaps
            | AnalyzerKind::Resampling
            | AnalyzerKind::Upscaling
            | AnalyzerKind::Screenshot
            | AnalyzerKind::PasteRectangle
            | AnalyzerKind::DocumentForensics
            | AnalyzerKind::ChannelCorrelation
            | AnalyzerKind::WaveletConsistency
            | AnalyzerKind::TextureConsistency
            | AnalyzerKind::ColorConsistency
            | AnalyzerKind::AntiForensics
            | AnalyzerKind::CopyMove
            | AnalyzerKind::SpliceBoundary
            | AnalyzerKind::Frequency => Gate::Raster,
            AnalyzerKind::Ela
            | AnalyzerKind::JpegGhost
            | AnalyzerKind::DoubleJpeg
            | AnalyzerKind::QtableFingerprint
            | AnalyzerKind::JpegForensics => Gate::Jpeg,
            AnalyzerKind::TextAlignment
            | AnalyzerKind::FontConsistency => Gate::Text,
            AnalyzerKind::DofConsistency
            | AnalyzerKind::PrnuCrossRegion
            | AnalyzerKind::VanishingPoint
            | AnalyzerKind::EdgeSharpness
            | AnalyzerKind::LightingConsistency
            | AnalyzerKind::ShadowConsistency
            | AnalyzerKind::GeometricConsistency
            | AnalyzerKind::Cfa
            | AnalyzerKind::ChromaticAberration
            | AnalyzerKind::Illumination
            | AnalyzerKind::Prnu => Gate::Scene,
        }
    }

    /// When an analyzer runs.
    pub fn gate(self) -> (r: Gate)
        ensures
            r == self.gate_spec(),
    {
        match self {
            AnalyzerKind::Metadata
            | AnalyzerKind::ExifPixel
            | AnalyzerKind::C2pa
            | AnalyzerKind::Thumbnail => Gate::Always,
            AnalyzerKind::PdfStructure
            | AnalyzerKind::PdfOverlay
            | AnalyzerKind::PdfImages => Gate::Pdf,
            AnalyzerKind::Noise
            | AnalyzerKind::HistogramGaps
            | AnalyzerKind::Resampling
            | AnalyzerKind::Upscaling
            | AnalyzerKind::Screenshot
            | AnalyzerKind::PasteRectangle
            | AnalyzerKind::DocumentForensics
            | AnalyzerKind::ChannelCorrelation
            | AnalyzerKind::WaveletConsistency
            | AnalyzerKind::TextureConsistency
            | AnalyzerKind::ColorConsistency
            | AnalyzerKind::AntiForensics
            | AnalyzerKind::CopyMove
            | AnalyzerKind::SpliceBoundary
            | AnalyzerKind::Frequency => Gate::Raster,
            AnalyzerKind::Ela
            | AnalyzerKind::JpegGhost
            | AnalyzerKind::DoubleJpeg
            | AnalyzerKind::QtableFingerprint
            | AnalyzerKind::JpegForensics => Gate::Jpeg,
            AnalyzerKind::TextAlignment
            | AnalyzerKind::FontConsistency => Gate::Text,
            AnalyzerKind::DofConsistency
            | AnalyzerKind::PrnuCrossRegion
            | AnalyzerKind::VanishingPoint
            | AnalyzerKind::EdgeSharpness
            | AnalyzerKind::LightingConsistency
            | AnalyzerKind::ShadowConsistency
            | AnalyzerKind::GeometricConsistency
            | AnalyzerKind::Cfa
            | AnalyzerKind::ChromaticAberration
            | AnalyzerKind::Illumination
            | AnalyzerKind::Prnu => Gate::Scene,
        }
    }

    /// The stable short name of an analyzer.
    pub open spec fn label(self) -> Seq<char> {
        match self {
            AnalyzerKind::Metadata => "metadata"@,
            AnalyzerKind::ExifPixel => "exif_pixel"@,
            AnalyzerKind::C2pa => "c2pa"@,
            AnalyzerKind::Ela => "ela"@,
            AnalyzerKind::Noise => "noise"@,
            AnalyzerKind::JpegGhost => "jpeg_ghost"@,
            AnalyzerKind::DoubleJpeg => "double_jpeg"@,
            AnalyzerKind::Thumbnail => "thumbnail_check"@,
            AnalyzerKind::QtableFingerprint => "qtable_fingerprint"@,
            AnalyzerKind::HistogramGaps => "histogram_gaps"@,
            AnalyzerKind::Resampling => "resampling"@,
            AnalyzerKind::Upscaling => "upscaling_detection"@,
            AnalyzerKind::Screenshot => "screenshot_detection"@,
            AnalyzerKind::TextAlignment => "text_alignment"@,
            AnalyzerKind::FontConsistency => "font_consistency"@,
            AnalyzerKind::DofConsistency => "dof_consistency"@,
            AnalyzerKind::PrnuCrossRegion => "prnu_cross_region"@,
            AnalyzerKind::JpegForensics => "jpeg_forensics"@,
            AnalyzerKind::VanishingPoint => "vanishing_point"@,
            AnalyzerKind::PasteRectangle => "paste_rectangle"@,
            AnalyzerKind::DocumentForensics => "document_forensics"@,
            AnalyzerKind::EdgeSharpness => "edge_sharpness"@,
            AnalyzerKind::ChannelCorrelation => "channel_correlation"@,
            AnalyzerKind::WaveletConsistency => "wavelet_consistency"@,
            AnalyzerKind::TextureConsistency => "texture_consistency"@,
            AnalyzerKind::ColorConsistency => "color_consistency"@,
            AnalyzerKind::AntiForensics => "anti_forensics"@,
            AnalyzerKind::LightingConsistency => "lighting_consistency"@,
            AnalyzerKind::ShadowConsistency => "shadow_consistency"@,
            AnalyzerKind::GeometricConsistency => "geometric_consistency"@,
            AnalyzerKind::Cfa => "cfa"@,
            AnalyzerKind::CopyMove => "copy_move"@,
            AnalyzerKind::SpliceBoundary => "splice_boundary"@,
            AnalyzerKind::Frequency => "frequency"@,
            AnalyzerKind::ChromaticAberration => "chromatic_aberration"@,
            AnalyzerKind::Illumination => "illumination"@,
            AnalyzerKind::Prnu => "prnu"@,
            AnalyzerKind::PdfStructure => "pdf_structure"@,
            AnalyzerKind::PdfOverlay => "pdf_overlay"@,
            AnalyzerKind::PdfImages => "pdf_images"@,
        }
    }

    /// The stable short name of an analyzer.
    pub fn name(self) -> (r: &'static str)
        ensures
            r@ == self.label(),
    {
        match self {
            AnalyzerKind::Metadata => "metadata",
            AnalyzerKind::ExifPixel => "exif_pixel",
            AnalyzerKind::C2pa => "c2pa",
            AnalyzerKind::Ela => "ela",
            AnalyzerKind::Noise => "noise",
            AnalyzerKind::JpegGhost => "jpeg_ghost",
            AnalyzerKind::DoubleJpeg => "double_jpeg",
            AnalyzerKind::Thumbnail => "thumbnail_check",
            AnalyzerKind::QtableFingerprint => "qtable_fingerprint",
            AnalyzerKind::HistogramGaps => "histogram_gaps",
            AnalyzerKind::Resampling => "resampling",
            AnalyzerKind::Upscaling => "upscaling_detection",
            AnalyzerKind::Screenshot => "screenshot_detection",
            AnalyzerKind::TextAlignment => "text_alignment",
            AnalyzerKind::FontConsistency => "font_consistency",
            AnalyzerKind::DofConsistency => "dof_consistency",
            AnalyzerKind::PrnuCrossRegion => "prnu_cross_region",
            AnalyzerKind::JpegForensics => "jpeg_forensics",
            AnalyzerKind::VanishingPoint => "vanishing_point",
            AnalyzerKind::PasteRectangle => "paste_rectangle",
            AnalyzerKind::DocumentForensics => "document_forensics",
            AnalyzerKind::EdgeSharpness => "edge_sharpness",
            AnalyzerKind::ChannelCorrelation => "channel_correlation",
            AnalyzerKind::WaveletConsistency => "wavelet_consistency",
            AnalyzerKind::TextureConsistency => "texture_consistency",
            AnalyzerKind::ColorConsistency => "color_consistency",
            AnalyzerKind::AntiForensics => "anti_forensics",
            AnalyzerKind::LightingConsistency => "lighting_consistency",
            AnalyzerKind::ShadowConsistency => "shadow_consistency",
            AnalyzerKind::GeometricConsistency => "geometric_consistency",
            AnalyzerKind::Cfa => "cfa",
            AnalyzerKind::CopyMove => "copy_move",
            AnalyzerKind::SpliceBoundary => "splice_boundary",
            AnalyzerKind::Frequency => "frequency",
            AnalyzerKind::ChromaticAberration => "chromatic_aberration",
            AnalyzerKind::Illumination => "illumination",
            AnalyzerKind::Prnu => "prnu",
            AnalyzerKind::PdfStructure => "pdf_structure",
            AnalyzerKind::PdfOverlay => "pdf_overlay",
            AnalyzerKind::PdfImages => "pdf_images",
        }
    }

    /// Whether an analyzer runs on a file.
    pub fn applies_to(self, ctx: &Context) -> (r: bool)
        ensures
            r == opens(self.gate_spec(), ctx.raw_bytes@, ctx.content_type),
    {
        match self.gate() {
            Gate::Always => true,
            Gate::Pdf => ctx.is_pdf(),
            Gate::Raster => !ctx.is_pdf(),
            Gate::Jpeg => ctx.is_jpeg(),
            Gate::Scene => ctx.content_type != ContentType::Document,
            Gate::Text => ctx.content_type == ContentType::Document || ctx.content_type
                == ContentType::Mixed,
        }
    }
}

/// The analyzers in the order in which they run.
pub open spec fn default_order() -> Seq<AnalyzerKind> {
    seq![
        AnalyzerKind::Metadata,
        AnalyzerKind::ExifPixel,
        AnalyzerKind::C2pa,
        AnalyzerKind::Ela,
        AnalyzerKind::Noise,
        AnalyzerKind::JpegGhost,
        AnalyzerKind::DoubleJpeg,
        AnalyzerKind::Thumbnail,
        AnalyzerKind::QtableFingerprint,
        AnalyzerKind::HistogramGaps,
        AnalyzerKind::Resampling,
        AnalyzerKind::Upscaling,
        AnalyzerKind::Screenshot,
        AnalyzerKind::TextAlignment,
        AnalyzerKind::FontConsistency,
        AnalyzerKind::DofConsistency,
        AnalyzerKind::PrnuCrossRegion,
        AnalyzerKind::JpegForensics,
        AnalyzerKind::VanishingPoint,
        AnalyzerKind::PasteRectangle,
        AnalyzerKind::DocumentForensics,
        AnalyzerKind::EdgeSharpness,
        AnalyzerKind::ChannelCorrelation,
        AnalyzerKind::WaveletConsistency,
        AnalyzerKind::TextureConsistency,
        AnalyzerKind::ColorConsistency,
        AnalyzerKind::AntiForensics,
        AnalyzerKind::LightingConsistency,
        AnalyzerKind::ShadowConsistency,
        AnalyzerKind::GeometricConsistency,
        AnalyzerKind::Cfa,
        AnalyzerKind::CopyMove,
        AnalyzerKind::SpliceBoundary,
        AnalyzerKind::Frequency,
        AnalyzerKind::ChromaticAberration,
        AnalyzerKind::Illumination,
        AnalyzerKind::Prnu,
        AnalyzerKind::PdfStructure,
        AnalyzerKind::PdfOverlay,
        AnalyzerKind::PdfImages,
    ]
}

/// The default analyzer set.
pub fn default_analyzers() -> (r: Vec<AnalyzerKind>)
    ensures
        r@ == default_order(),
        r@.len() == 40,
        forall|i: int, j: int|
            0 <= i < j < r@.len() ==> (#[trigger] r@[i]).label() != (#[trigger] r@[j]).label(),
{
    let r: Vec<AnalyzerKind> = vec![
        AnalyzerKind::Metadata,
        AnalyzerKind::ExifPixel,
        AnalyzerKind::C2pa,
        AnalyzerKind::Ela,
        AnalyzerKind::Noise,
        AnalyzerKind::JpegGhost,
        AnalyzerKind::DoubleJpeg,
        AnalyzerKind::Thumbnail,
        AnalyzerKind::QtableFingerprint,
        AnalyzerKind::HistogramGaps,
        AnalyzerKind::Resampling,
        AnalyzerKind::Upscaling,
        AnalyzerKind::Screenshot,
        AnalyzerKind::TextAlignment,
        AnalyzerKind::FontConsistency,
        AnalyzerKind::DofConsistency,
        AnalyzerKind::PrnuCrossRegion,
        AnalyzerKind::JpegForensics,
        AnalyzerKind::VanishingPoint,
        AnalyzerKind::PasteRectangle,
        AnalyzerKind::DocumentForensics,
        AnalyzerKind::EdgeSharpness,
        AnalyzerKind::ChannelCorrelation,
        AnalyzerKind::WaveletConsistency,
        AnalyzerKind::TextureConsistency,
        AnalyzerKind::ColorConsistency,
        AnalyzerKind::AntiForensics,
        AnalyzerKind::LightingConsistency,
        AnalyzerKind::ShadowConsistency,
        AnalyzerKind::GeometricConsistency,
        AnalyzerKind::Cfa,
        AnalyzerKind::CopyMove,
        AnalyzerKind::SpliceBoundary,
        AnalyzerKind::Frequency,
        AnalyzerKind::ChromaticAberration,
        AnalyzerKind::Illumination,
        AnalyzerKind::Prnu,
        AnalyzerKind::PdfStructure,
        AnalyzerKind::PdfOverlay,
        AnalyzerKind::PdfImages,
    ];
    proof {
        assert(r@ =~= default_order());
        law_default_complete(AnalyzerKind::Metadata);
        assert forall|i: int, j: int| 0 <= i < j < r@.len() implies (#[trigger] r@[i]).label() != (
        #[trigger] r@[j]).label() by {
            law_names_distinct(r@[i], r@[j]);
        }
    }
    r
}

/// The place of an analyzer in the default set.
spec fn place(k: AnalyzerKind) -> int {
    match k {
        AnalyzerKind::Metadata => 0,
        AnalyzerKind::ExifPixel => 1,
        AnalyzerKind::C2pa => 2,
        AnalyzerKind::Ela => 3,
        AnalyzerKind::Noise => 4,
        AnalyzerKind::JpegGhost => 5,
        AnalyzerKind::DoubleJpeg => 6,
        AnalyzerKind::Thumbnail => 7,
        AnalyzerKind::QtableFingerprint => 8,
        AnalyzerKind::HistogramGaps => 9,
        AnalyzerKind::Resampling => 10,
        AnalyzerKind::Upscaling => 11,
        AnalyzerKind::Screenshot => 12,
        AnalyzerKind::TextAlignment => 13,
        AnalyzerKind::FontConsistency => 14,
        AnalyzerKind::DofConsistency => 15,
        AnalyzerKind::PrnuCrossRegion => 16,
        AnalyzerKind::JpegForensics => 17,
        AnalyzerKind::VanishingPoint => 18,
        AnalyzerKind::PasteRectangle => 19,
        AnalyzerKind::DocumentForensics => 20,
        AnalyzerKind::EdgeSharpness => 21,
        AnalyzerKind::ChannelCorrelation => 22,
        AnalyzerKind::WaveletConsistency => 23,
        AnalyzerKind::TextureConsistency => 24,
        AnalyzerKind::ColorConsistency => 25,
        AnalyzerKind::AntiForensics => 26,
        AnalyzerKind::LightingConsistency => 27,
        AnalyzerKind::ShadowConsistency => 28,
        AnalyzerKind::GeometricConsistency => 29,
        AnalyzerKind::Cfa => 30,
        AnalyzerKind::CopyMove => 31,
        AnalyzerKind::SpliceBoundary => 32,
        AnalyzerKind::Frequency => 33,
        AnalyzerKind::ChromaticAberration => 34,
        AnalyzerKind::Illumination => 35,
        AnalyzerKind::Prnu => 36,
        AnalyzerKind::PdfStructure => 37,
        AnalyzerKind::PdfOverlay => 38,
        AnalyzerKind::PdfImages => 39,
    }
}

proof fn lemma_place(i: int)
    requires
        0 <= i < default_order().len(),
    ensures
        place(default_order()[i]) == i,
{
}

/// The analyzers have distinct names.
pub proof fn law_names_distinct(a: AnalyzerKind, b: AnalyzerKind)
    requires
        a != b,
    ensures
        a.label() != b.label(),
{
    reveal_strlit("metadata");
    reveal_strlit("exif_pixel");
    reveal_strlit("c2pa");
    reveal_strlit("ela");
    reveal_strlit("noise");
    reveal_strlit("jpeg_ghost");
    reveal_strlit("double_jpeg");
    reveal_strlit("thumbnail_check");
    reveal_strlit("qtable_fingerprint");
    reveal_strlit("histogram_gaps");
    reveal_strlit("resampling");
    reveal_strlit("upscaling_detection");
    reveal_strlit("screenshot_detection");
    reveal_strlit("text_alignment");
    reveal_strlit("font_consistency");
    reveal_strlit("dof_consistency");
    reveal_strlit("prnu_cross_region");
    reveal_strlit("jpeg_forensics");
    reveal_strlit("vanishing_point");
    reveal_strlit("paste_rectangle");
    reveal_strlit("document_forensics");
    reveal_strlit("edge_sharpness");
    reveal_strlit("channel_correlation");
    reveal_strlit("wavelet_consistency");
    reveal_strlit("texture_consistency");
    reveal_strlit("color_consistency");
    reveal_strlit("anti_forensics");
    reveal_strlit("lighting_consistency");
    reveal_strlit("shadow_consistency");
    reveal_strlit("geometric_consistency");
    reveal_strlit("cfa");
    reveal_strlit("copy_move");
    reveal_strlit("splice_boundary");
    reveal_strlit("frequency");
    reveal_strlit("chromatic_aberration");
    reveal_strlit("illumination");
    reveal_strlit("prnu");
    reveal_strlit("pdf_structure");
    reveal_strlit("pdf_overlay");
    reveal_strlit("pdf_images");
    assert(a.label().len() != b.label().len() || a.label()[0] != b.label()[0]);
}

/// The default set holds every analyzer, and none of them twice.
pub proof fn law_default_complete(k: AnalyzerKind)
    ensures
        default_order().len() == 40,
        default_order().no_duplicates(),
        default_order().contains(k),
{
    let o = default_order();
    assert forall|i: int, j: int| 0 <= i < o.len() && 0 <= j < o.len() && i != j implies o[i]
        != o[j] by {
        lemma_place(i);
        lemma_place(j);
    }
    assert(o[place(k)] == k);
}

/// The path on which an analyzer runs.
#[derive(Clone, Copy, PartialEq, Eq, Structural, Debug)]
pub enum Path {
    Fast,
    Reference,
}

/// What came of running an analyzer.
pub enum Outcome {
    Findings(Vec<Finding>),
    Failed,
    Panicked,
}

/// What happens next: the analyzer runs on a path, or is done with its findings.
pub enum Next {
    Run(Path),
    Done(Vec<Finding>),
}

/// The value of a [`Next`].
pub ghost enum NextView {
    Run(Path),
    Done(Seq<FindingView>),
}

impl View for Next {
    type V = NextView;

    open spec fn view(&self) -> NextView {
        match *self {
            Next::Run(p) => NextView::Run(p),
            Next::Done(f) => NextView::Done(values(f@)),
        }
    }
}

/// How an analyzer begins: not at all where it does not apply, else on the fast path where
/// there is one.
pub open spec fn first_step(applies: bool, fast: bool) -> NextView {
    if !applies {
        NextView::Done(seq![])
    } else if fast {
        NextView::Run(Path::Fast)
    } else {
        NextView::Run(Path::Reference)
    }
}

/// How an analyzer goes on after it ran on a path.
pub open spec fn next_step(path: Path, outcome: Outcome) -> NextView {
    match outcome {
        Outcome::Findings(f) => NextView::Done(values(f@)),
        Outcome::Failed => if path == Path::Fast {
            NextView::Run(Path::Reference)
        } else {
            NextView::Done(seq![])
        },
        Outcome::Panicked => NextView::Done(seq![]),
    }
}

fn nothing() -> (r: Vec<Finding>)
    ensures
        values(r@) == Seq::<FindingView>::empty(),
{
    let r: Vec<Finding> = Vec::new();
    assert(values(r@) =~= Seq::<FindingView>::empty());
    r
}

/// How an analyzer begins.
pub fn begin(applies: bool, fast: bool) -> (r: Next)
    ensures
        r@ == first_step(applies, fast),
{
    if !applies {
        Next::Done(nothing())
    } else if fast {
        Next::Run(Path::Fast)
    } else {
        Next::Run(Path::Reference)
    }
}

/// How an analyzer goes on after it ran on a path.
pub fn advance(path: Path, outcome: Outcome) -> (r: Next)
    ensures
        r@ == next_step(path, outcome),
{
    match outcome {
        Outcome::Findings(f) => Next::Done(f),
        Outcome::Failed => match path {
            Path::Fast => Next::Run(Path::Reference),
            Path::Reference => Next::Done(nothing()),
        },
        Outcome::Panicked => Next::Done(nothing()),
    }
}

/// An analyzer that panics yields no findings, on whichever path.
pub proof fn law_panic_isolated(path: Path)
    ensures
        next_step(path, Outcome::Panicked) == NextView::Done(Seq::<FindingView>::empty()),
{
}

/// An analyzer that fails on the fast path runs on the reference path and yields what it
/// finds there.
pub proof fn law_fallback(f: Vec<Finding>)
    ensures
        next_step(Path::Fast, Outcome::Failed) == NextView::Run(Path::Reference),
        next_step(Path::Reference, Outcome::Findings(f)) == NextView::Done(values(f@)),
{
}

/// On a PDF, which counts as a document, no analyzer runs but those of PDFs, those that
/// always do and those of documents; those of PDFs run on nothing else.
pub proof fn law_pdfs_and_images(raw: Seq<u8>, content: ContentType, k: AnalyzerKind)
    ensures
        pdf_bytes(raw) && opens(k.gate_spec(), raw, ContentType::Document) ==> k.gate_spec()
            == Gate::Pdf || k.gate_spec() == Gate::Always || k.gate_spec() == Gate::Text,
        !pdf_bytes(raw) && k.gate_spec() == Gate::Pdf ==> !opens(k.gate_spec(), raw, content),
{
    law_gates_apart(raw, ContentType::Document);
}

/// No analyzer of rasters runs on a PDF, and no analyzer of PDFs on anything else.
pub proof fn law_gates_apart(raw: Seq<u8>, content: ContentType)
    ensures
        !(opens(Gate::Pdf, raw, content) && opens(Gate::Raster, raw, content)),
        !(opens(Gate::Pdf, raw, content) && opens(Gate::Jpeg, raw, content)),
{
    if pdf_bytes(raw) {
        assert(raw.subrange(0, 5)[0] == raw[0]);
    }
}

/// A report begins with the warning of too few pixels on just the documents that call for
/// it, and is the findings of the analyzers after it.
pub proof fn law_resolution_first(ctx: &Context, found: Seq<Vec<Finding>>)
    requires
        found.len() == default_order().len(),
    ensures
        ({
            let g = gathered(ctx, found, default_order().len());
            let low = ctx.content_type == ContentType::Document && !pdf_bytes(ctx.raw_bytes@)
                && ctx.image.width * ctx.image.height < 1_000_000;
            let r = resolution_findings(ctx) + g;
            &&& r.len() == g.len() + if low { 1int } else { 0 }
            &&& r.skip(r.len() - g.len()) == g
            &&& low ==> r[0].analyzer == "metadata"@ && r[0].code == "low_resolution_document"@
                && r[0].severity == Severity::Medium && r[0].confidence == P95
        }),
{
    let g = gathered(ctx, found, default_order().len());
    let r = resolution_findings(ctx) + g;
    assert(r.skip(r.len() - g.len()) =~= g);
}

/// An analyzer that yields nothing, as one that panics does, takes nothing from the report
/// but its own findings.
pub proof fn law_run_isolated(
    ctx: &Context,
    found: Seq<Vec<Finding>>,
    i: int,
    nothing: Vec<Finding>,
    n: nat,
)
    requires
        0 <= i < n <= found.len(),
        found.len() == default_order().len(),
        nothing@.len() == 0,
    ensures
        ({
            let before = gathered(ctx, found, i as nat);
            let own = contribution(ctx, found, i);
            let whole = gathered(ctx, found, n);
            &&& whole.len() >= before.len() + own.len()
            &&& whole.take(before.len() as int) == before
            &&& whole.subrange(before.len() as int, (before.len() + own.len()) as int) == own
            &&& gathered(ctx, found.update(i, nothing), n) == before + whole.skip(
                (before.len() + own.len()) as int,
            )
        }),
    decreases n,
{
    let before = gathered(ctx, found, i as nat);
    let own = contribution(ctx, found, i);
    let whole = gathered(ctx, found, n);
    let other = found.update(i, nothing);
    if n == i + 1 {
        lemma_gathered_same(ctx, found, other, i as nat);
        assert(values(nothing@) =~= seq![]);
        assert(contribution(ctx, other, i) =~= seq![]);
        assert(whole == before + own);
        assert(whole.take(before.len() as int) =~= before);
        assert(whole.subrange(before.len() as int, (before.len() + own.len()) as int) =~= own);
        assert(gathered(ctx, other, n) =~= before + whole.skip((before.len() + own.len()) as int));
    } else {
        let m = (n - 1) as nat;
        law_run_isolated(ctx, found, i, nothing, m);
        let part = gathered(ctx, found, m);
        assert(whole == part + contribution(ctx, found, m as int));
        assert(contribution(ctx, other, m as int) == contribution(ctx, found, m as int));
        assert(whole.take(before.len() as int) =~= part.take(before.len() as int));
        let (from, to) = (before.len() as int, (before.len() + own.len()) as int);
        assert(whole.subrange(from, to) =~= part.subrange(from, to));
        assert(gathered(ctx, other, n) =~= before + whole.skip((before.len() + own.len()) as int));
    }
}

proof fn lemma_gathered_same(ctx: &Context, a: Seq<Vec<Finding>>, b: Seq<Vec<Finding>>, n: nat)
    requires
        n <= a.len(),
        n <= b.len(),
        forall|j: int| 0 <= j < n ==> a[j] == b[j],
    ensures
        gathered(ctx, a, n) == gathered(ctx, b, n),
    decreases n,
{
    if n > 0 {
        lemma_gathered_same(ctx, a, b, (n - 1) as nat);
    }
}

/// The least number of pixels of a document for reliable detection of changed text.
pub const DOCUMENT_QUALITY_MIN: u64 = 1_000_000;

/// Whether a file is a document raster of too few pixels.
pub open spec fn low_resolution(raw: Seq<u8>, content: ContentType, w: int, h: int) -> bool {
    content == ContentType::Document && !pdf_bytes(raw) && w * h < DOCUMENT_QUALITY_MIN
}

/// The finding of a document of too few pixels, with their number in millions
/// with two decimals.
pub open spec fn low_resolution_finding(w: u32, h: u32) -> FindingView {
    plain_finding(
        "metadata"@,
        "low_resolution_document"@,
        "Document is "@ + decimal_text(w as nat) + "x"@ + decimal_text(h as nat) + " ("@
            + fraction_text((w * h) as nat, DOCUMENT_QUALITY_MIN as nat)
            + " MP), below the recommended 1 MP for reliable text-tampering detection. Splice boundaries, font anomalies, and baseline evidence may be missed or imprecise. Submit a higher-resolution capture for best results."@,
        Severity::Medium,
        P95,
    )
}

/// Warns of a document of too few pixels.
pub fn check_resolution(ctx: &Context) -> (r: Vec<Finding>)
    ensures
        values(r@) == resolution_findings(ctx),
{
    broadcast use group_values;

    let mut r: Vec<Finding> = Vec::new();
    let pixels: u64 = area(ctx.image.width, ctx.image.height);
    if ctx.content_type == ContentType::Document && !ctx.is_pdf() && pixels < DOCUMENT_QUALITY_MIN {
        let mut d = "Document is ".to_string();
        append_decimal(&mut d, ctx.image.width as u64);
        d.append("x");
        append_decimal(&mut d, ctx.image.height as u64);
        d.append(" (");
        let megapixels = fraction(pixels, DOCUMENT_QUALITY_MIN);
        d.append(megapixels.as_str());
        d.append(
            " MP), below the recommended 1 MP for reliable text-tampering detection. Splice boundaries, font anomalies, and baseline evidence may be missed or imprecise. Submit a higher-resolution capture for best results.",
        );
        r.push(Finding::new("metadata", "low_resolution_document", d, Severity::Medium, P95));
        assert(values(r@) =~= seq![
            low_resolution_finding(ctx.image.width, ctx.image.height),
        ]);
    } else {
        assert(values(r@) =~= seq![]);
    }
    r
}

/// The warning of a document of too few pixels, where there is one.
pub open spec fn resolution_findings(ctx: &Context) -> Seq<FindingView> {
    if low_resolution(
        ctx.raw_bytes@,
        ctx.content_type,
        ctx.image.width as int,
        ctx.image.height as int,
    ) {
        seq![low_resolution_finding(ctx.image.width, ctx.image.height)]
    } else {
        seq![]
    }
}

/// What the `i`th of the default analyzers contributes to a report: what it found, or
/// nothing where it does not apply.
pub open spec fn contribution(ctx: &Context, found: Seq<Vec<Finding>>, i: int) -> Seq<FindingView> {
    if opens(default_order()[i].gate_spec(), ctx.raw_bytes@, ctx.content_type) {
        values(found[i]@)
    } else {
        seq![]
    }
}

/// The findings of the first `n` default analyzers, in the order of the analyzers.
pub open spec fn gathered(ctx: &Context, found: Seq<Vec<Finding>>, n: nat) -> Seq<FindingView>
    decreases n,
{
    if n == 0 {
        seq![]
    } else {
        gathered(ctx, found, (n - 1) as nat) + contribution(ctx, found, n - 1)
    }
}

/// The full forensic report for one file.
pub struct Report {
    pub findings: Vec<Finding>,
}

impl Report {
    /// The report of a run: the warning of too few pixels, and after it what each of the
    /// default analyzers found, in their order. What is given for an analyzer that does not
    /// apply is left out.
    pub fn of_run(ctx: &Context, found: Vec<Vec<Finding>>) -> (r: Report)
        requires
            found@.len() == default_order().len(),
        ensures
            values(r.findings@) == resolution_findings(ctx) + gathered(
                ctx,
                found@,
                default_order().len(),
            ),
    {
        let kinds = default_analyzers();
        let mut report = Report { findings: check_resolution(ctx) };
        let mut found = found;
        let ghost all = found@;
        let ghost head = resolution_findings(ctx);
        let mut i: usize = 0;
        assert(values(report.findings@) =~= head + gathered(ctx, all, 0));
        while i < kinds.len()
            invariant
                i <= kinds.len(),
                kinds@ == default_order(),
                all.len() == kinds.len(),
                found@ == all.skip(i as int),
                values(report.findings@) == head + gathered(ctx, all, i as nat),
            decreases kinds.len() - i,
        {
            let own = found.remove(0);
            if kinds[i].applies_to(ctx) {
                report.extend(own);
            }
            i += 1;
            assert(found@ =~= all.skip(i as int));
            assert(values(report.findings@) =~= head + gathered(ctx, all, i as nat));
        }
        report
    }

    /// Adds the findings of one analyzer after those that are there.
    pub fn extend(&mut self, more: Vec<Finding>)
        ensures
            values(final(self).findings@) == values(old(self).findings@) + values(more@),
    {
        broadcast use group_values;

        let mut more = more;
        self.findings.append(&mut more);
    }

    /// Scores and deduplicates the findings. `tenths` is the risk score in tenths.
    pub fn risk(&self, tenths: u32) -> (r: RiskReport)
        requires
            tenths <= 1000,
        ensures
            r@ == report_of(values(self.findings@), tenths as int),
    {
        score(&self.findings, tenths)
    }
}

} // verus!
