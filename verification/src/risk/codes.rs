//! The codes that the analyzers give their findings, and that each belongs to a category.

use crate::risk::category::code_in;
use crate::risk::category::patterns_of;
use crate::risk::category::CATEGORY_COUNT;
use crate::text::begins_with;
use crate::text::occurs_at;
use crate::text::occurs_in;
use vstd::prelude::*;

verus! {

/// The codes of page content: copies, splices, text and noise.
pub open spec fn page_codes() -> Seq<Seq<char>> {
    seq![
        "copy_move_detected"@,
        "splice_boundary_detected"@,
        "text_baseline_misalignment"@,
        "font_stroke_width_inconsistency"@,
        "paste_rectangle_detected"@,
        "document_detected"@,
        "document_paste_corner"@,
        "document_block_anomaly"@,
        "noise_inconsistency"@,
        "unnaturally_low_noise"@,
        "noise_distribution_anomaly"@,
    ]
}

/// The codes of compression histories.
pub open spec fn compression_codes() -> Seq<Seq<char>> {
    seq![
        "ela_block_outliers"@,
        "ela_high_mean_error"@,
        "ela_hotspot_regions"@,
        "ela_uneven_error"@,
        "jpeg_ghost_detected"@,
        "jpeg_quality_estimate"@,
        "double_jpeg_periodicity"@,
        "benfords_law_violation"@,
        "shifted_jpeg_grid"@,
        "non_standard_quantization"@,
        "qtable_non_standard"@,
        "qtable_editor_signature"@,
        "qtable_unusual_chroma_ratio"@,
        "jpeg_artifact_free_regions"@,
        "quantization_inconsistency"@,
        "bimodal_quantization_residual"@,
    ]
}

/// The codes of texture, colour, edges and light.
pub open spec fn appearance_codes() -> Seq<Seq<char>> {
    seq![
        "channel_correlation_anomaly"@,
        "color_histogram_inconsistency"@,
        "global_resampling"@,
        "resampling_inconsistency"@,
        "upscaling_interpolation_periodicity"@,
        "upscaling_hf_suppression"@,
        "edge_sharpness_unnaturally_sharp"@,
        "edge_sharpness_unnaturally_blurred"@,
        "edge_sharpness_bimodal"@,
        "lighting_direction_inconsistency"@,
        "shadow_direction_inconsistency"@,
        "shadow_bimodal_direction"@,
        "illumination_inconsistency"@,
        "illumination_band_inconsistency"@,
    ]
}

/// The codes of sensors, lenses and spectra.
pub open spec fn capture_codes() -> Seq<Seq<char>> {
    seq![
        "prnu_cross_region_mismatch"@,
        "cfa_peak_absent"@,
        "cfa_pattern_mismatch"@,
        "no_cfa_artifacts"@,
        "no_chromatic_aberration"@,
        "chromatic_aberration_inconsistency"@,
        "ca_model_poor_fit"@,
        "prnu_inconsistency"@,
        "prnu_absent"@,
        "low_pce"@,
        "wavelet_hh_suppression"@,
        "wavelet_detail_anomaly"@,
        "wavelet_directional_anomaly"@,
        "spectral_exponent_anomaly"@,
        "flat_spectrum"@,
        "gan_spectral_peaks"@,
        "mid_freq_anomaly"@,
        "low_high_freq_energy"@,
    ]
}

/// The codes of geometry, focus, captures, histograms and concealment.
pub open spec fn scene_codes() -> Seq<Seq<char>> {
    seq![
        "vanishing_point_inconsistency"@,
        "vanishing_point_vertical_inconsistency"@,
        "geometric_line_break"@,
        "geometric_multiple_line_breaks"@,
        "geometric_orientation_inconsistency"@,
        "dof_abrupt_transition"@,
        "screenshot_color_quantization"@,
        "screenshot_low_color_depth"@,
        "screenshot_pixel_grid"@,
        "screenshot_moire_pattern"@,
        "histogram_global_gaps"@,
        "histogram_localized_gaps"@,
        "anti_forensics_histogram_equalization"@,
        "anti_forensics_median_filter"@,
        "anti_forensics_noise_injection"@,
    ]
}

/// The codes of metadata and provenance.
pub open spec fn origin_codes() -> Seq<Seq<char>> {
    seq![
        "ai_generator_tag"@,
        "editing_software_tag"@,
        "no_camera_metadata"@,
        "timestamp_inconsistency"@,
        "low_resolution_document"@,
        "resolution_mismatch_width"@,
        "resolution_mismatch_height"@,
        "orientation_inconsistency"@,
        "color_space_clipping"@,
        "bit_depth_inconsistency"@,
        "c2pa_malformed"@,
        "c2pa_manifest_present"@,
        "c2pa_removed"@,
        "thumbnail_mismatch"@,
        "thumbnail_minor_mismatch"@,
    ]
}

/// The codes of PDF files.
pub open spec fn pdf_codes() -> Seq<Seq<char>> {
    seq![
        "pdf_incremental_saves"@,
        "pdf_rebuilt_xref"@,
        "pdf_dates_differ"@,
        "pdf_scanner_then_editor"@,
        "pdf_contains_javascript"@,
        "pdf_open_action"@,
        "pdf_filled_form_fields"@,
        "pdf_editable_forms"@,
        "pdf_editing_tool"@,
        "pdf_freetext_overlay"@,
        "pdf_redaction_annotations"@,
        "pdf_stamp_overlay"@,
        "pdf_white_rectangle_overlay"@,
        "pdf_filled_rect_before_text"@,
        "pdf_mixed_scan_and_text"@,
        "pdf_fonts_in_scan"@,
        "pdf_multiple_fonts_in_scan"@,
        "pdf_scan_replaced_with_placeholder"@,
        "pdf_mixed_image_encoding"@,
        "pdf_page_image_size_disparity"@,
        "pdf_image_inventory"@,
        "pdf_image_limit"@,
        "pdf_overlay_content_detected"@,
        "pdf_overlay_region"@,
        "pdf_render_compare_limit"@,
    ]
}

/// Whether one of the analyzers gives a finding this code. Those on texture begin alike.
pub open spec fn is_emitted(code: Seq<char>) -> bool {
    page_codes().contains(code)
        || compression_codes().contains(code)
        || appearance_codes().contains(code)
        || capture_codes().contains(code)
        || scene_codes().contains(code)
        || origin_codes().contains(code)
        || pdf_codes().contains(code) || begins_with(code, "texture_"@)
}

/// Whether a code belongs to some category.
pub open spec fn has_category(code: Seq<char>) -> bool {
    exists|i: int| 0 <= i < CATEGORY_COUNT && code_in(code, i)
}

proof fn lemma_in(code: Seq<char>, cat: int, p: int, at: int)
    requires
        0 <= cat < CATEGORY_COUNT,
        0 <= p < patterns_of(cat).len(),
        0 <= at,
        at + patterns_of(cat)[p].len() <= code.len(),
        forall|j: int|
            0 <= j < patterns_of(cat)[p].len() ==> code[at + j] == #[trigger] patterns_of(cat)[p][j],
    ensures
        has_category(code),
{
    let needle = patterns_of(cat)[p];
    assert(code.subrange(at, at + needle.len()) =~= needle);
    assert(occurs_at(code, needle, at));
    assert(occurs_in(code, patterns_of(cat)[p]));
    assert(code_in(code, cat));
}

proof fn lemma_page_codes(k: int)
    requires
        0 <= k < page_codes().len(),
    ensures
        has_category(page_codes()[k]),
{
    reveal_strlit("copy_move");
    reveal_strlit("splice_boundary");
    reveal_strlit("text_baseline");
    reveal_strlit("font_stroke");
    reveal_strlit("paste_rectangle");
    reveal_strlit("noise_distribution");
    if k == 0 {
        reveal_strlit("copy_move_detected");
        lemma_in("copy_move_detected"@, 0, 0, 0);
    } else if k == 1 {
        reveal_strlit("splice_boundary_detected");
        lemma_in("splice_boundary_detected"@, 1, 0, 0);
    } else if k == 2 {
        reveal_strlit("text_baseline_misalignment");
        lemma_in("text_baseline_misalignment"@, 2, 3, 0);
    } else if k == 3 {
        reveal_strlit("font_stroke_width_inconsistency");
        lemma_in("font_stroke_width_inconsistency"@, 2, 2, 0);
    } else if k == 4 {
        reveal_strlit("paste_rectangle_detected");
        lemma_in("paste_rectangle_detected"@, 2, 4, 0);
    } else if k == 5 {
        reveal_strlit("document_detected");
        lemma_in("document_detected"@, 2, 5, 0);
    } else if k == 6 {
        reveal_strlit("document_paste_corner");
        lemma_in("document_paste_corner"@, 2, 0, 0);
    } else if k == 7 {
        reveal_strlit("document_block_anomaly");
        lemma_in("document_block_anomaly"@, 2, 1, 0);
    } else if k == 8 {
        reveal_strlit("noise_inconsistency");
        lemma_in("noise_inconsistency"@, 3, 0, 0);
    } else if k == 9 {
        reveal_strlit("unnaturally_low_noise");
        lemma_in("unnaturally_low_noise"@, 3, 1, 0);
    } else {
        reveal_strlit("noise_distribution_anomaly");
        lemma_in("noise_distribution_anomaly"@, 3, 2, 0);
    }
}

proof fn lemma_compression_codes(k: int)
    requires
        0 <= k < compression_codes().len(),
    ensures
        has_category(compression_codes()[k]),
{
    reveal_strlit("ela_");
    reveal_strlit("jpeg_ghost");
    reveal_strlit("double_jpeg");
    reveal_strlit("benford");
    reveal_strlit("qtable");
    reveal_strlit("artifact_free");
    reveal_strlit("bimodal_quantization");
    if k == 0 {
        reveal_strlit("ela_block_outliers");
        lemma_in("ela_block_outliers"@, 4, 7, 0);
    } else if k == 1 {
        reveal_strlit("ela_high_mean_error");
        lemma_in("ela_high_mean_error"@, 4, 7, 0);
    } else if k == 2 {
        reveal_strlit("ela_hotspot_regions");
        lemma_in("ela_hotspot_regions"@, 4, 7, 0);
    } else if k == 3 {
        reveal_strlit("ela_uneven_error");
        lemma_in("ela_uneven_error"@, 4, 7, 0);
    } else if k == 4 {
        reveal_strlit("jpeg_ghost_detected");
        lemma_in("jpeg_ghost_detected"@, 4, 1, 0);
    } else if k == 5 {
        reveal_strlit("jpeg_quality_estimate");
        lemma_in("jpeg_quality_estimate"@, 4, 10, 0);
    } else if k == 6 {
        reveal_strlit("double_jpeg_periodicity");
        lemma_in("double_jpeg_periodicity"@, 4, 0, 0);
    } else if k == 7 {
        reveal_strlit("benfords_law_violation");
        lemma_in("benfords_law_violation"@, 4, 2, 0);
    } else if k == 8 {
        reveal_strlit("shifted_jpeg_grid");
        lemma_in("shifted_jpeg_grid"@, 4, 8, 0);
    } else if k == 9 {
        reveal_strlit("non_standard_quantization");
        lemma_in("non_standard_quantization"@, 4, 9, 0);
    } else if k == 10 {
        reveal_strlit("qtable_non_standard");
        lemma_in("qtable_non_standard"@, 4, 5, 0);
    } else if k == 11 {
        reveal_strlit("qtable_editor_signature");
        lemma_in("qtable_editor_signature"@, 4, 5, 0);
    } else if k == 12 {
        reveal_strlit("qtable_unusual_chroma_ratio");
        lemma_in("qtable_unusual_chroma_ratio"@, 4, 5, 0);
    } else if k == 13 {
        reveal_strlit("jpeg_artifact_free_regions");
        lemma_in("jpeg_artifact_free_regions"@, 4, 6, 5);
    } else if k == 14 {
        reveal_strlit("quantization_inconsistency");
        lemma_in("quantization_inconsistency"@, 4, 4, 0);
    } else {
        reveal_strlit("bimodal_quantization_residual");
        lemma_in("bimodal_quantization_residual"@, 4, 3, 0);
    }
}

proof fn lemma_appearance_codes(k: int)
    requires
        0 <= k < appearance_codes().len(),
    ensures
        has_category(appearance_codes()[k]),
{
    reveal_strlit("channel_correlation");
    reveal_strlit("color_histogram");
    reveal_strlit("resampling");
    reveal_strlit("upscaling");
    reveal_strlit("edge_sharpness");
    reveal_strlit("lighting_");
    reveal_strlit("shadow_");
    reveal_strlit("illumination_");
    if k == 0 {
        reveal_strlit("channel_correlation_anomaly");
        lemma_in("channel_correlation_anomaly"@, 5, 2, 0);
    } else if k == 1 {
        reveal_strlit("color_histogram_inconsistency");
        lemma_in("color_histogram_inconsistency"@, 5, 1, 0);
    } else if k == 2 {
        reveal_strlit("global_resampling");
        lemma_in("global_resampling"@, 6, 1, 7);
    } else if k == 3 {
        reveal_strlit("resampling_inconsistency");
        lemma_in("resampling_inconsistency"@, 6, 1, 0);
    } else if k == 4 {
        reveal_strlit("upscaling_interpolation_periodicity");
        lemma_in("upscaling_interpolation_periodicity"@, 6, 2, 0);
    } else if k == 5 {
        reveal_strlit("upscaling_hf_suppression");
        lemma_in("upscaling_hf_suppression"@, 6, 2, 0);
    } else if k == 6 {
        reveal_strlit("edge_sharpness_unnaturally_sharp");
        lemma_in("edge_sharpness_unnaturally_sharp"@, 6, 0, 0);
    } else if k == 7 {
        reveal_strlit("edge_sharpness_unnaturally_blurred");
        lemma_in("edge_sharpness_unnaturally_blurred"@, 6, 0, 0);
    } else if k == 8 {
        reveal_strlit("edge_sharpness_bimodal");
        lemma_in("edge_sharpness_bimodal"@, 6, 0, 0);
    } else if k == 9 {
        reveal_strlit("lighting_direction_inconsistency");
        lemma_in("lighting_direction_inconsistency"@, 7, 1, 0);
    } else if k == 10 {
        reveal_strlit("shadow_direction_inconsistency");
        lemma_in("shadow_direction_inconsistency"@, 7, 0, 0);
    } else if k == 11 {
        reveal_strlit("shadow_bimodal_direction");
        lemma_in("shadow_bimodal_direction"@, 7, 0, 0);
    } else if k == 12 {
        reveal_strlit("illumination_inconsistency");
        lemma_in("illumination_inconsistency"@, 7, 2, 0);
    } else {
        reveal_strlit("illumination_band_inconsistency");
        lemma_in("illumination_band_inconsistency"@, 7, 2, 0);
    }
}

proof fn lemma_capture_codes(k: int)
    requires
        0 <= k < capture_codes().len(),
    ensures
        has_category(capture_codes()[k]),
{
    reveal_strlit("prnu");
    reveal_strlit("cfa_");
    reveal_strlit("chromatic");
    reveal_strlit("ca_model");
    reveal_strlit("wavelet_");
    reveal_strlit("spectral_");
    reveal_strlit("mid_freq");
    reveal_strlit("low_high_freq");
    if k == 0 {
        reveal_strlit("prnu_cross_region_mismatch");
        lemma_in("prnu_cross_region_mismatch"@, 8, 0, 0);
    } else if k == 1 {
        reveal_strlit("cfa_peak_absent");
        lemma_in("cfa_peak_absent"@, 8, 1, 0);
    } else if k == 2 {
        reveal_strlit("cfa_pattern_mismatch");
        lemma_in("cfa_pattern_mismatch"@, 8, 1, 0);
    } else if k == 3 {
        reveal_strlit("no_cfa_artifacts");
        lemma_in("no_cfa_artifacts"@, 8, 1, 3);
    } else if k == 4 {
        reveal_strlit("no_chromatic_aberration");
        lemma_in("no_chromatic_aberration"@, 8, 3, 3);
    } else if k == 5 {
        reveal_strlit("chromatic_aberration_inconsistency");
        lemma_in("chromatic_aberration_inconsistency"@, 8, 3, 0);
    } else if k == 6 {
        reveal_strlit("ca_model_poor_fit");
        lemma_in("ca_model_poor_fit"@, 8, 5, 0);
    } else if k == 7 {
        reveal_strlit("prnu_inconsistency");
        lemma_in("prnu_inconsistency"@, 8, 0, 0);
    } else if k == 8 {
        reveal_strlit("prnu_absent");
        lemma_in("prnu_absent"@, 8, 0, 0);
    } else if k == 9 {
        reveal_strlit("low_pce");
        lemma_in("low_pce"@, 8, 6, 0);
    } else if k == 10 {
        reveal_strlit("wavelet_hh_suppression");
        lemma_in("wavelet_hh_suppression"@, 9, 5, 0);
    } else if k == 11 {
        reveal_strlit("wavelet_detail_anomaly");
        lemma_in("wavelet_detail_anomaly"@, 9, 5, 0);
    } else if k == 12 {
        reveal_strlit("wavelet_directional_anomaly");
        lemma_in("wavelet_directional_anomaly"@, 9, 5, 0);
    } else if k == 13 {
        reveal_strlit("spectral_exponent_anomaly");
        lemma_in("spectral_exponent_anomaly"@, 9, 0, 0);
    } else if k == 14 {
        reveal_strlit("flat_spectrum");
        lemma_in("flat_spectrum"@, 9, 1, 0);
    } else if k == 15 {
        reveal_strlit("gan_spectral_peaks");
        lemma_in("gan_spectral_peaks"@, 9, 0, 4);
    } else if k == 16 {
        reveal_strlit("mid_freq_anomaly");
        lemma_in("mid_freq_anomaly"@, 9, 3, 0);
    } else {
        reveal_strlit("low_high_freq_energy");
        lemma_in("low_high_freq_energy"@, 9, 4, 0);
    }
}

proof fn lemma_scene_codes(k: int)
    requires
        0 <= k < scene_codes().len(),
    ensures
        has_category(scene_codes()[k]),
{
    reveal_strlit("vanishing_point");
    reveal_strlit("geometric_");
    reveal_strlit("dof_");
    reveal_strlit("screenshot_");
    reveal_strlit("histogram_");
    reveal_strlit("anti_forensics");
    if k == 0 {
        reveal_strlit("vanishing_point_inconsistency");
        lemma_in("vanishing_point_inconsistency"@, 10, 1, 0);
    } else if k == 1 {
        reveal_strlit("vanishing_point_vertical_inconsistency");
        lemma_in("vanishing_point_vertical_inconsistency"@, 10, 1, 0);
    } else if k == 2 {
        reveal_strlit("geometric_line_break");
        lemma_in("geometric_line_break"@, 10, 0, 0);
    } else if k == 3 {
        reveal_strlit("geometric_multiple_line_breaks");
        lemma_in("geometric_multiple_line_breaks"@, 10, 0, 0);
    } else if k == 4 {
        reveal_strlit("geometric_orientation_inconsistency");
        lemma_in("geometric_orientation_inconsistency"@, 10, 0, 0);
    } else if k == 5 {
        reveal_strlit("dof_abrupt_transition");
        lemma_in("dof_abrupt_transition"@, 11, 0, 0);
    } else if k == 6 {
        reveal_strlit("screenshot_color_quantization");
        lemma_in("screenshot_color_quantization"@, 12, 0, 0);
    } else if k == 7 {
        reveal_strlit("screenshot_low_color_depth");
        lemma_in("screenshot_low_color_depth"@, 12, 0, 0);
    } else if k == 8 {
        reveal_strlit("screenshot_pixel_grid");
        lemma_in("screenshot_pixel_grid"@, 12, 0, 0);
    } else if k == 9 {
        reveal_strlit("screenshot_moire_pattern");
        lemma_in("screenshot_moire_pattern"@, 12, 0, 0);
    } else if k == 10 {
        reveal_strlit("histogram_global_gaps");
        lemma_in("histogram_global_gaps"@, 13, 0, 0);
    } else if k == 11 {
        reveal_strlit("histogram_localized_gaps");
        lemma_in("histogram_localized_gaps"@, 13, 0, 0);
    } else if k == 12 {
        reveal_strlit("anti_forensics_histogram_equalization");
        lemma_in("anti_forensics_histogram_equalization"@, 13, 0, 15);
    } else if k == 13 {
        reveal_strlit("anti_forensics_median_filter");
        lemma_in("anti_forensics_median_filter"@, 14, 0, 0);
    } else {
        reveal_strlit("anti_forensics_noise_injection");
        lemma_in("anti_forensics_noise_injection"@, 14, 0, 0);
    }
}

proof fn lemma_origin_codes(k: int)
    requires
        0 <= k < origin_codes().len(),
    ensures
        has_category(origin_codes()[k]),
{
    reveal_strlit("resolution_mismatch");
    reveal_strlit("c2pa_");
    reveal_strlit("thumbnail_");
    if k == 0 {
        reveal_strlit("ai_generator_tag");
        lemma_in("ai_generator_tag"@, 15, 0, 0);
    } else if k == 1 {
        reveal_strlit("editing_software_tag");
        lemma_in("editing_software_tag"@, 15, 1, 0);
    } else if k == 2 {
        reveal_strlit("no_camera_metadata");
        lemma_in("no_camera_metadata"@, 15, 2, 0);
    } else if k == 3 {
        reveal_strlit("timestamp_inconsistency");
        lemma_in("timestamp_inconsistency"@, 15, 3, 0);
    } else if k == 4 {
        reveal_strlit("low_resolution_document");
        lemma_in("low_resolution_document"@, 15, 10, 0);
    } else if k == 5 {
        reveal_strlit("resolution_mismatch_width");
        lemma_in("resolution_mismatch_width"@, 15, 4, 0);
    } else if k == 6 {
        reveal_strlit("resolution_mismatch_height");
        lemma_in("resolution_mismatch_height"@, 15, 4, 0);
    } else if k == 7 {
        reveal_strlit("orientation_inconsistency");
        lemma_in("orientation_inconsistency"@, 15, 5, 0);
    } else if k == 8 {
        reveal_strlit("color_space_clipping");
        lemma_in("color_space_clipping"@, 15, 6, 0);
    } else if k == 9 {
        reveal_strlit("bit_depth_inconsistency");
        lemma_in("bit_depth_inconsistency"@, 15, 7, 0);
    } else if k == 10 {
        reveal_strlit("c2pa_malformed");
        lemma_in("c2pa_malformed"@, 15, 8, 0);
    } else if k == 11 {
        reveal_strlit("c2pa_manifest_present");
        lemma_in("c2pa_manifest_present"@, 15, 8, 0);
    } else if k == 12 {
        reveal_strlit("c2pa_removed");
        lemma_in("c2pa_removed"@, 15, 8, 0);
    } else if k == 13 {
        reveal_strlit("thumbnail_mismatch");
        lemma_in("thumbnail_mismatch"@, 15, 9, 0);
    } else {
        reveal_strlit("thumbnail_minor_mismatch");
        lemma_in("thumbnail_minor_mismatch"@, 15, 9, 0);
    }
}

proof fn lemma_pdf_codes(k: int)
    requires
        0 <= k < pdf_codes().len(),
    ensures
        has_category(pdf_codes()[k]),
{
    reveal_strlit("pdf_");
    if k == 0 {
        reveal_strlit("pdf_incremental_saves");
        lemma_in("pdf_incremental_saves"@, 16, 0, 0);
    } else if k == 1 {
        reveal_strlit("pdf_rebuilt_xref");
        lemma_in("pdf_rebuilt_xref"@, 16, 0, 0);
    } else if k == 2 {
        reveal_strlit("pdf_dates_differ");
        lemma_in("pdf_dates_differ"@, 16, 0, 0);
    } else if k == 3 {
        reveal_strlit("pdf_scanner_then_editor");
        lemma_in("pdf_scanner_then_editor"@, 16, 0, 0);
    } else if k == 4 {
        reveal_strlit("pdf_contains_javascript");
        lemma_in("pdf_contains_javascript"@, 16, 0, 0);
    } else if k == 5 {
        reveal_strlit("pdf_open_action");
        lemma_in("pdf_open_action"@, 16, 0, 0);
    } else if k == 6 {
        reveal_strlit("pdf_filled_form_fields");
        lemma_in("pdf_filled_form_fields"@, 16, 0, 0);
    } else if k == 7 {
        reveal_strlit("pdf_editable_forms");
        lemma_in("pdf_editable_forms"@, 16, 0, 0);
    } else if k == 8 {
        reveal_strlit("pdf_editing_tool");
        lemma_in("pdf_editing_tool"@, 16, 0, 0);
    } else if k == 9 {
        reveal_strlit("pdf_freetext_overlay");
        lemma_in("pdf_freetext_overlay"@, 16, 0, 0);
    } else if k == 10 {
        reveal_strlit("pdf_redaction_annotations");
        lemma_in("pdf_redaction_annotations"@, 16, 0, 0);
    } else if k == 11 {
        reveal_strlit("pdf_stamp_overlay");
        lemma_in("pdf_stamp_overlay"@, 16, 0, 0);
    } else if k == 12 {
        reveal_strlit("pdf_white_rectangle_overlay");
        lemma_in("pdf_white_rectangle_overlay"@, 16, 0, 0);
    } else if k == 13 {
        reveal_strlit("pdf_filled_rect_before_text");
        lemma_in("pdf_filled_rect_before_text"@, 16, 0, 0);
    } else if k == 14 {
        reveal_strlit("pdf_mixed_scan_and_text");
        lemma_in("pdf_mixed_scan_and_text"@, 16, 0, 0);
    } else if k == 15 {
        reveal_strlit("pdf_fonts_in_scan");
        lemma_in("pdf_fonts_in_scan"@, 16, 0, 0);
    } else if k == 16 {
        reveal_strlit("pdf_multiple_fonts_in_scan");
        lemma_in("pdf_multiple_fonts_in_scan"@, 16, 0, 0);
    } else if k == 17 {
        reveal_strlit("pdf_scan_replaced_with_placeholder");
        lemma_in("pdf_scan_replaced_with_placeholder"@, 16, 0, 0);
    } else if k == 18 {
        reveal_strlit("pdf_mixed_image_encoding");
        lemma_in("pdf_mixed_image_encoding"@, 16, 0, 0);
    } else if k == 19 {
        reveal_strlit("pdf_page_image_size_disparity");
        lemma_in("pdf_page_image_size_disparity"@, 16, 0, 0);
    } else if k == 20 {
        reveal_strlit("pdf_image_inventory");
        lemma_in("pdf_image_inventory"@, 16, 0, 0);
    } else if k == 21 {
        reveal_strlit("pdf_image_limit");
        lemma_in("pdf_image_limit"@, 16, 0, 0);
    } else if k == 22 {
        reveal_strlit("pdf_overlay_content_detected");
        lemma_in("pdf_overlay_content_detected"@, 16, 0, 0);
    } else if k == 23 {
        reveal_strlit("pdf_overlay_region");
        lemma_in("pdf_overlay_region"@, 16, 0, 0);
    } else {
        reveal_strlit("pdf_render_compare_limit");
        lemma_in("pdf_render_compare_limit"@, 16, 0, 0);
    }
}

/// Every code that an analyzer gives a finding belongs to a category.
pub proof fn law_codes_covered(code: Seq<char>)
    requires
        is_emitted(code),
    ensures
        has_category(code),
{
    if page_codes().contains(code) {
        lemma_page_codes(page_codes().index_of(code));
    } else if compression_codes().contains(code) {
        lemma_compression_codes(compression_codes().index_of(code));
    } else if appearance_codes().contains(code) {
        lemma_appearance_codes(appearance_codes().index_of(code));
    } else if capture_codes().contains(code) {
        lemma_capture_codes(capture_codes().index_of(code));
    } else if scene_codes().contains(code) {
        lemma_scene_codes(scene_codes().index_of(code));
    } else if origin_codes().contains(code) {
        lemma_origin_codes(origin_codes().index_of(code));
    } else if pdf_codes().contains(code) {
        lemma_pdf_codes(pdf_codes().index_of(code));
    } else {
        assert(patterns_of(5)[0] == "texture_"@);
        assert(occurs_in(code, patterns_of(5)[0]));
        assert(code_in(code, 5));
    }
}

} // verus!
