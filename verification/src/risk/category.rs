//! The semantic categories that raw findings are collapsed into.

use crate::text::contains;
use crate::text::occurs_in;
use crate::text::texts;
use vstd::prelude::*;

verus! {

/// The number of categories.
pub const CATEGORY_COUNT: usize = 17;

/// The title of a category.
pub open spec fn title_of(i: int) -> Seq<char> {
    if i == 0 {
        "Copy-move forgery"@
    } else if i == 1 {
        "Splice boundary detection"@
    } else if i == 2 {
        "Document text manipulation"@
    } else if i == 3 {
        "Noise inconsistency"@
    } else if i == 4 {
        "Compression history anomaly"@
    } else if i == 5 {
        "Texture/color anomaly"@
    } else if i == 6 {
        "Edge/resampling anomaly"@
    } else if i == 7 {
        "Shadow/lighting inconsistency"@
    } else if i == 8 {
        "Sensor/optics anomaly"@
    } else if i == 9 {
        "Frequency / AI-generation signature"@
    } else if i == 10 {
        "Geometric inconsistency"@
    } else if i == 11 {
        "Depth-of-field inconsistency"@
    } else if i == 12 {
        "Screenshot / synthetic capture"@
    } else if i == 13 {
        "Histogram manipulation"@
    } else if i == 14 {
        "Anti-forensics detected"@
    } else if i == 15 {
        "Metadata / provenance anomaly"@
    } else {
        "PDF structure / overlay anomaly"@
    }
}

/// The parts of a code that put a finding into a category.
pub open spec fn patterns_of(i: int) -> Seq<Seq<char>> {
    if i == 0 {
        seq!["copy_move"@]
    } else if i == 1 {
        seq!["splice_boundary"@]
    } else if i == 2 {
        seq!["document_paste_corner"@, "document_block_anomaly"@, "font_stroke"@, "text_baseline"@, "paste_rectangle"@, "document_detected"@]
    } else if i == 3 {
        seq!["noise_inconsistency"@, "unnaturally_low_noise"@, "noise_distribution"@]
    } else if i == 4 {
        seq!["double_jpeg"@, "jpeg_ghost"@, "benford"@, "bimodal_quantization"@, "quantization_inconsistency"@, "qtable"@, "artifact_free"@, "ela_"@, "shifted_jpeg_grid"@, "non_standard_quantization"@, "jpeg_quality_estimate"@]
    } else if i == 5 {
        seq!["texture_"@, "color_histogram"@, "channel_correlation"@]
    } else if i == 6 {
        seq!["edge_sharpness"@, "resampling"@, "upscaling"@]
    } else if i == 7 {
        seq!["shadow_"@, "lighting_"@, "illumination_"@]
    } else if i == 8 {
        seq!["prnu"@, "cfa_"@, "no_cfa"@, "chromatic"@, "no_chromatic"@, "ca_model"@, "low_pce"@]
    } else if i == 9 {
        seq!["spectral_"@, "flat_spectrum"@, "gan_"@, "mid_freq"@, "low_high_freq"@, "wavelet_"@]
    } else if i == 10 {
        seq!["geometric_"@, "vanishing_point"@]
    } else if i == 11 {
        seq!["dof_"@]
    } else if i == 12 {
        seq!["screenshot_"@]
    } else if i == 13 {
        seq!["histogram_"@]
    } else if i == 14 {
        seq!["anti_forensics"@]
    } else if i == 15 {
        seq!["ai_generator_tag"@, "editing_software_tag"@, "no_camera_metadata"@, "timestamp_inconsistency"@, "resolution_mismatch"@, "orientation_inconsistency"@, "color_space_clipping"@, "bit_depth_inconsistency"@, "c2pa_"@, "thumbnail_"@, "low_resolution_document"@]
    } else {
        seq!["pdf_"@]
    }
}

/// A code belongs to a category: it contains one of the category's patterns.
pub open spec fn code_in(code: Seq<char>, i: int) -> bool {
    exists|p: int| 0 <= p < patterns_of(i).len() && occurs_in(code, #[trigger] patterns_of(i)[p])
}

/// The title of a category.
pub fn title(i: usize) -> (r: &'static str)
    requires
        i < CATEGORY_COUNT,
    ensures
        r@ == title_of(i as int),
{
    if i == 0 {
        "Copy-move forgery"
    } else if i == 1 {
        "Splice boundary detection"
    } else if i == 2 {
        "Document text manipulation"
    } else if i == 3 {
        "Noise inconsistency"
    } else if i == 4 {
        "Compression history anomaly"
    } else if i == 5 {
        "Texture/color anomaly"
    } else if i == 6 {
        "Edge/resampling anomaly"
    } else if i == 7 {
        "Shadow/lighting inconsistency"
    } else if i == 8 {
        "Sensor/optics anomaly"
    } else if i == 9 {
        "Frequency / AI-generation signature"
    } else if i == 10 {
        "Geometric inconsistency"
    } else if i == 11 {
        "Depth-of-field inconsistency"
    } else if i == 12 {
        "Screenshot / synthetic capture"
    } else if i == 13 {
        "Histogram manipulation"
    } else if i == 14 {
        "Anti-forensics detected"
    } else if i == 15 {
        "Metadata / provenance anomaly"
    } else {
        "PDF structure / overlay anomaly"
    }
}

fn patterns(i: usize) -> (r: Vec<&'static str>)
    requires
        i < CATEGORY_COUNT,
    ensures
        texts(r@) == patterns_of(i as int),
{
    let r: Vec<&'static str> = if i == 0 {
        vec!["copy_move"]
    } else if i == 1 {
        vec!["splice_boundary"]
    } else if i == 2 {
        vec!["document_paste_corner", "document_block_anomaly", "font_stroke", "text_baseline", "paste_rectangle", "document_detected"]
    } else if i == 3 {
        vec!["noise_inconsistency", "unnaturally_low_noise", "noise_distribution"]
    } else if i == 4 {
        vec!["double_jpeg", "jpeg_ghost", "benford", "bimodal_quantization", "quantization_inconsistency", "qtable", "artifact_free", "ela_", "shifted_jpeg_grid", "non_standard_quantization", "jpeg_quality_estimate"]
    } else if i == 5 {
        vec!["texture_", "color_histogram", "channel_correlation"]
    } else if i == 6 {
        vec!["edge_sharpness", "resampling", "upscaling"]
    } else if i == 7 {
        vec!["shadow_", "lighting_", "illumination_"]
    } else if i == 8 {
        vec!["prnu", "cfa_", "no_cfa", "chromatic", "no_chromatic", "ca_model", "low_pce"]
    } else if i == 9 {
        vec!["spectral_", "flat_spectrum", "gan_", "mid_freq", "low_high_freq", "wavelet_"]
    } else if i == 10 {
        vec!["geometric_", "vanishing_point"]
    } else if i == 11 {
        vec!["dof_"]
    } else if i == 12 {
        vec!["screenshot_"]
    } else if i == 13 {
        vec!["histogram_"]
    } else if i == 14 {
        vec!["anti_forensics"]
    } else if i == 15 {
        vec!["ai_generator_tag", "editing_software_tag", "no_camera_metadata", "timestamp_inconsistency", "resolution_mismatch", "orientation_inconsistency", "color_space_clipping", "bit_depth_inconsistency", "c2pa_", "thumbnail_", "low_resolution_document"]
    } else {
        vec!["pdf_"]
    }
    ;
    proof {
        assert(texts(r@) =~= patterns_of(i as int));
    }
    r
}

/// Tells whether a code belongs to a category.
pub fn matches_category(code: &str, i: usize) -> (r: bool)
    requires
        i < CATEGORY_COUNT,
    ensures
        r == code_in(code@, i as int),
{
    let list = patterns(i);
    let mut p: usize = 0;
    while p < list.len()
        invariant
            p <= list.len(),
            texts(list@) == patterns_of(i as int),
            forall|q: int| 0 <= q < p ==> !occurs_in(code@, #[trigger] patterns_of(i as int)[q]),
        decreases list.len() - p,
    {
        proof {
            assert(texts(list@)[p as int] == list@[p as int]@);
        }
        if contains(code, list[p]) {
            return true;
        }
        p += 1;
    }
    false
}

proof fn lemma_belongs(code: Seq<char>, i: int)
    ensures
        code_in(code, i) == (exists|p: int|
            0 <= p < patterns_of(i).len() && occurs_in(code, #[trigger] patterns_of(i)[p])),
{
}

/// Which codes mean copied, spliced or changed content, foreign noise, an odd compression
/// history, or odd textures and colours.
pub proof fn law_content_categories(code: Seq<char>)
    ensures
        title_of(0) == "Copy-move forgery"@,
        code_in(code, 0) <==> occurs_in(code, "copy_move"@),
        title_of(1) == "Splice boundary detection"@,
        code_in(code, 1) <==> occurs_in(code, "splice_boundary"@),
        title_of(2) == "Document text manipulation"@,
        code_in(code, 2) <==> occurs_in(code, "document_paste_corner"@) || occurs_in(code, "document_block_anomaly"@) || occurs_in(code, "font_stroke"@) || occurs_in(code, "text_baseline"@) || occurs_in(code, "paste_rectangle"@) || occurs_in(code, "document_detected"@),
        title_of(3) == "Noise inconsistency"@,
        code_in(code, 3) <==> occurs_in(code, "noise_inconsistency"@) || occurs_in(code, "unnaturally_low_noise"@) || occurs_in(code, "noise_distribution"@),
        title_of(4) == "Compression history anomaly"@,
        code_in(code, 4) <==> occurs_in(code, "double_jpeg"@) || occurs_in(code, "jpeg_ghost"@) || occurs_in(code, "benford"@) || occurs_in(code, "bimodal_quantization"@) || occurs_in(code, "quantization_inconsistency"@) || occurs_in(code, "qtable"@) || occurs_in(code, "artifact_free"@) || occurs_in(code, "ela_"@) || occurs_in(code, "shifted_jpeg_grid"@) || occurs_in(code, "non_standard_quantization"@) || occurs_in(code, "jpeg_quality_estimate"@),
        title_of(5) == "Texture/color anomaly"@,
        code_in(code, 5) <==> occurs_in(code, "texture_"@) || occurs_in(code, "color_histogram"@) || occurs_in(code, "channel_correlation"@),
{
    lemma_belongs(code, 0);
    assert(patterns_of(0)[0] == "copy_move"@);
    lemma_belongs(code, 1);
    assert(patterns_of(1)[0] == "splice_boundary"@);
    lemma_belongs(code, 2);
    assert(patterns_of(2)[0] == "document_paste_corner"@);
    assert(patterns_of(2)[1] == "document_block_anomaly"@);
    assert(patterns_of(2)[2] == "font_stroke"@);
    assert(patterns_of(2)[3] == "text_baseline"@);
    assert(patterns_of(2)[4] == "paste_rectangle"@);
    assert(patterns_of(2)[5] == "document_detected"@);
    lemma_belongs(code, 3);
    assert(patterns_of(3)[0] == "noise_inconsistency"@);
    assert(patterns_of(3)[1] == "unnaturally_low_noise"@);
    assert(patterns_of(3)[2] == "noise_distribution"@);
    lemma_belongs(code, 4);
    assert(patterns_of(4)[0] == "double_jpeg"@);
    assert(patterns_of(4)[1] == "jpeg_ghost"@);
    assert(patterns_of(4)[2] == "benford"@);
    assert(patterns_of(4)[3] == "bimodal_quantization"@);
    assert(patterns_of(4)[4] == "quantization_inconsistency"@);
    assert(patterns_of(4)[5] == "qtable"@);
    assert(patterns_of(4)[6] == "artifact_free"@);
    assert(patterns_of(4)[7] == "ela_"@);
    assert(patterns_of(4)[8] == "shifted_jpeg_grid"@);
    assert(patterns_of(4)[9] == "non_standard_quantization"@);
    assert(patterns_of(4)[10] == "jpeg_quality_estimate"@);
    lemma_belongs(code, 5);
    assert(patterns_of(5)[0] == "texture_"@);
    assert(patterns_of(5)[1] == "color_histogram"@);
    assert(patterns_of(5)[2] == "channel_correlation"@);
}

/// Which codes mean resampling, odd light, an odd sensor, a generated picture, odd lines,
/// or an odd focus.
pub proof fn law_capture_categories(code: Seq<char>)
    ensures
        title_of(6) == "Edge/resampling anomaly"@,
        code_in(code, 6) <==> occurs_in(code, "edge_sharpness"@) || occurs_in(code, "resampling"@) || occurs_in(code, "upscaling"@),
        title_of(7) == "Shadow/lighting inconsistency"@,
        code_in(code, 7) <==> occurs_in(code, "shadow_"@) || occurs_in(code, "lighting_"@) || occurs_in(code, "illumination_"@),
        title_of(8) == "Sensor/optics anomaly"@,
        code_in(code, 8) <==> occurs_in(code, "prnu"@) || occurs_in(code, "cfa_"@) || occurs_in(code, "no_cfa"@) || occurs_in(code, "chromatic"@) || occurs_in(code, "no_chromatic"@) || occurs_in(code, "ca_model"@) || occurs_in(code, "low_pce"@),
        title_of(9) == "Frequency / AI-generation signature"@,
        code_in(code, 9) <==> occurs_in(code, "spectral_"@) || occurs_in(code, "flat_spectrum"@) || occurs_in(code, "gan_"@) || occurs_in(code, "mid_freq"@) || occurs_in(code, "low_high_freq"@) || occurs_in(code, "wavelet_"@),
        title_of(10) == "Geometric inconsistency"@,
        code_in(code, 10) <==> occurs_in(code, "geometric_"@) || occurs_in(code, "vanishing_point"@),
        title_of(11) == "Depth-of-field inconsistency"@,
        code_in(code, 11) <==> occurs_in(code, "dof_"@),
{
    lemma_belongs(code, 6);
    assert(patterns_of(6)[0] == "edge_sharpness"@);
    assert(patterns_of(6)[1] == "resampling"@);
    assert(patterns_of(6)[2] == "upscaling"@);
    lemma_belongs(code, 7);
    assert(patterns_of(7)[0] == "shadow_"@);
    assert(patterns_of(7)[1] == "lighting_"@);
    assert(patterns_of(7)[2] == "illumination_"@);
    lemma_belongs(code, 8);
    assert(patterns_of(8)[0] == "prnu"@);
    assert(patterns_of(8)[1] == "cfa_"@);
    assert(patterns_of(8)[2] == "no_cfa"@);
    assert(patterns_of(8)[3] == "chromatic"@);
    assert(patterns_of(8)[4] == "no_chromatic"@);
    assert(patterns_of(8)[5] == "ca_model"@);
    assert(patterns_of(8)[6] == "low_pce"@);
    lemma_belongs(code, 9);
    assert(patterns_of(9)[0] == "spectral_"@);
    assert(patterns_of(9)[1] == "flat_spectrum"@);
    assert(patterns_of(9)[2] == "gan_"@);
    assert(patterns_of(9)[3] == "mid_freq"@);
    assert(patterns_of(9)[4] == "low_high_freq"@);
    assert(patterns_of(9)[5] == "wavelet_"@);
    lemma_belongs(code, 10);
    assert(patterns_of(10)[0] == "geometric_"@);
    assert(patterns_of(10)[1] == "vanishing_point"@);
    lemma_belongs(code, 11);
    assert(patterns_of(11)[0] == "dof_"@);
}

/// Which codes mean a screenshot, a changed histogram, concealment, odd metadata, or a
/// changed PDF.
pub proof fn law_origin_categories(code: Seq<char>)
    ensures
        title_of(12) == "Screenshot / synthetic capture"@,
        code_in(code, 12) <==> occurs_in(code, "screenshot_"@),
        title_of(13) == "Histogram manipulation"@,
        code_in(code, 13) <==> occurs_in(code, "histogram_"@),
        title_of(14) == "Anti-forensics detected"@,
        code_in(code, 14) <==> occurs_in(code, "anti_forensics"@),
        title_of(15) == "Metadata / provenance anomaly"@,
        code_in(code, 15) <==> occurs_in(code, "ai_generator_tag"@) || occurs_in(code, "editing_software_tag"@) || occurs_in(code, "no_camera_metadata"@) || occurs_in(code, "timestamp_inconsistency"@) || occurs_in(code, "resolution_mismatch"@) || occurs_in(code, "orientation_inconsistency"@) || occurs_in(code, "color_space_clipping"@) || occurs_in(code, "bit_depth_inconsistency"@) || occurs_in(code, "c2pa_"@) || occurs_in(code, "thumbnail_"@) || occurs_in(code, "low_resolution_document"@),
        title_of(16) == "PDF structure / overlay anomaly"@,
        code_in(code, 16) <==> occurs_in(code, "pdf_"@),
{
    lemma_belongs(code, 12);
    assert(patterns_of(12)[0] == "screenshot_"@);
    lemma_belongs(code, 13);
    assert(patterns_of(13)[0] == "histogram_"@);
    lemma_belongs(code, 14);
    assert(patterns_of(14)[0] == "anti_forensics"@);
    lemma_belongs(code, 15);
    assert(patterns_of(15)[0] == "ai_generator_tag"@);
    assert(patterns_of(15)[1] == "editing_software_tag"@);
    assert(patterns_of(15)[2] == "no_camera_metadata"@);
    assert(patterns_of(15)[3] == "timestamp_inconsistency"@);
    assert(patterns_of(15)[4] == "resolution_mismatch"@);
    assert(patterns_of(15)[5] == "orientation_inconsistency"@);
    assert(patterns_of(15)[6] == "color_space_clipping"@);
    assert(patterns_of(15)[7] == "bit_depth_inconsistency"@);
    assert(patterns_of(15)[8] == "c2pa_"@);
    assert(patterns_of(15)[9] == "thumbnail_"@);
    assert(patterns_of(15)[10] == "low_resolution_document"@);
    lemma_belongs(code, 16);
    assert(patterns_of(16)[0] == "pdf_"@);
}

} // verus!

