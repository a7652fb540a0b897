//! The forensic categories of an explanation, with their prose.

use crate::text::begins_with;
use crate::text::starts_with;
use crate::text::texts;
use vstd::prelude::*;

verus! {

/// The number of categories.
pub const TOPIC_COUNT: usize = 12;

/// The name of a category.
pub open spec fn name_of(i: int) -> Seq<char> {
    if i == 0 {
        "Compression Artifacts"@
    } else if i == 1 {
        "Noise Inconsistency"@
    } else if i == 2 {
        "Pixel Manipulation"@
    } else if i == 3 {
        "Texture & Color Anomaly"@
    } else if i == 4 {
        "Edge & Sharpness Anomaly"@
    } else if i == 5 {
        "Geometric Inconsistency"@
    } else if i == 6 {
        "Lighting & Shadow Inconsistency"@
    } else if i == 7 {
        "Frequency & Wavelet Anomaly"@
    } else if i == 8 {
        "Anti-Forensics Detected"@
    } else if i == 9 {
        "Source Anomaly"@
    } else if i == 10 {
        "Document Text Anomaly"@
    } else {
        "Metadata Anomaly"@
    }
}

/// The prefixes of the codes of a category.
pub open spec fn prefixes_of(i: int) -> Seq<Seq<char>> {
    if i == 0 {
        seq!["ela_"@, "jpeg_"@, "double_jpeg_"@, "qtable_"@]
    } else if i == 1 {
        seq!["noise_"@, "prnu_"@]
    } else if i == 2 {
        seq!["copy_move_"@, "splice_"@, "resampling_"@, "document_"@]
    } else if i == 3 {
        seq!["texture_"@, "color_"@, "channel_"@, "histogram_"@]
    } else if i == 4 {
        seq!["edge_sharpness_"@, "dof_"@]
    } else if i == 5 {
        seq!["geometric_"@, "vanishing_point_"@]
    } else if i == 6 {
        seq!["shadow_"@, "lighting_"@, "illumination_"@, "chromatic_"@]
    } else if i == 7 {
        seq!["frequency_"@, "wavelet_"@, "cfa_"@]
    } else if i == 8 {
        seq!["anti_forensics_"@]
    } else if i == 9 {
        seq!["screenshot_"@, "upscaling_"@]
    } else if i == 10 {
        seq!["font_"@, "text_"@]
    } else {
        seq!["exif_"@, "metadata_"@, "c2pa_"@, "thumbnail_"@, "exif_pixel_"@]
    }
}

/// The explanation of a category.
pub open spec fn prose_of(i: int) -> Seq<char> {
    if i == 0 {
        "JPEG compression analysis reveals inconsistencies in how the image was saved. Different regions show different compression histories, which occurs when parts of the image were edited or spliced from other sources."@
    } else if i == 1 {
        "The image's sensor noise pattern is inconsistent across regions. Each camera sensor produces a unique noise fingerprint - regions with different noise characteristics likely originated from a different camera or were digitally altered."@
    } else if i == 2 {
        "Direct evidence of pixel-level manipulation was detected. This includes copied/moved regions, splice boundaries, or signs of content being resized, rotated, or pasted into the image."@
    } else if i == 3 {
        "The image's texture patterns or color distributions are inconsistent between regions. This suggests content was composited from images with different cameras, lighting, or post-processing."@
    } else if i == 4 {
        "Edge characteristics or blur patterns are inconsistent with natural lens optics. Cut-paste operations leave unnaturally sharp boundaries, while feathered blends create suspicious blur patterns."@
    } else if i == 5 {
        "The image's geometric structure - line continuity and perspective geometry - is inconsistent. This suggests content was composited from scenes with different viewpoints or camera positions."@
    } else if i == 6 {
        "The lighting direction or shadow patterns are inconsistent across the image. In a genuine photo, all shadows are cast by the same light source(s). Conflicting shadow directions strongly indicate compositing."@
    } else if i == 7 {
        "The image's frequency content or sensor interpolation patterns are inconsistent. This can indicate AI-generated content, inpainting, or splicing from images captured by different cameras."@
    } else if i == 8 {
        "Counter-forensic techniques were detected - deliberate attempts to hide manipulation traces. This is a strong indicator of intentional fraud, as legitimate image editing rarely involves anti-forensic processing."@
    } else if i == 9 {
        "The image appears to be a screenshot, re-photographed image, or upscaled from lower resolution. This is inconsistent with a claimed original photograph."@
    } else if i == 10 {
        "Text formatting inconsistencies were detected in the document - different font characteristics or misaligned baselines suggest text was pasted or edited from a different source."@
    } else {
        "Image metadata (EXIF, timestamps, device information) shows inconsistencies or evidence of editing software. While metadata alone is not conclusive, it provides context for other findings."@
    }
}

/// A code belongs to a category: it begins with one of the category's prefixes.
pub open spec fn code_under(code: Seq<char>, i: int) -> bool {
    exists|p: int| 0 <= p < prefixes_of(i).len() && begins_with(code, #[trigger] prefixes_of(i)[p])
}

/// The name of a category.
pub fn name(i: usize) -> (r: &'static str)
    requires
        i < TOPIC_COUNT,
    ensures
        r@ == name_of(i as int),
{
    if i == 0 {
        "Compression Artifacts"
    } else if i == 1 {
        "Noise Inconsistency"
    } else if i == 2 {
        "Pixel Manipulation"
    } else if i == 3 {
        "Texture & Color Anomaly"
    } else if i == 4 {
        "Edge & Sharpness Anomaly"
    } else if i == 5 {
        "Geometric Inconsistency"
    } else if i == 6 {
        "Lighting & Shadow Inconsistency"
    } else if i == 7 {
        "Frequency & Wavelet Anomaly"
    } else if i == 8 {
        "Anti-Forensics Detected"
    } else if i == 9 {
        "Source Anomaly"
    } else if i == 10 {
        "Document Text Anomaly"
    } else {
        "Metadata Anomaly"
    }
}

/// The explanation of a category.
pub fn prose(i: usize) -> (r: &'static str)
    requires
        i < TOPIC_COUNT,
    ensures
        r@ == prose_of(i as int),
{
    if i == 0 {
        "JPEG compression analysis reveals inconsistencies in how the image was saved. Different regions show different compression histories, which occurs when parts of the image were edited or spliced from other sources."
    } else if i == 1 {
        "The image's sensor noise pattern is inconsistent across regions. Each camera sensor produces a unique noise fingerprint - regions with different noise characteristics likely originated from a different camera or were digitally altered."
    } else if i == 2 {
        "Direct evidence of pixel-level manipulation was detected. This includes copied/moved regions, splice boundaries, or signs of content being resized, rotated, or pasted into the image."
    } else if i == 3 {
        "The image's texture patterns or color distributions are inconsistent between regions. This suggests content was composited from images with different cameras, lighting, or post-processing."
    } else if i == 4 {
        "Edge characteristics or blur patterns are inconsistent with natural lens optics. Cut-paste operations leave unnaturally sharp boundaries, while feathered blends create suspicious blur patterns."
    } else if i == 5 {
        "The image's geometric structure - line continuity and perspective geometry - is inconsistent. This suggests content was composited from scenes with different viewpoints or camera positions."
    } else if i == 6 {
        "The lighting direction or shadow patterns are inconsistent across the image. In a genuine photo, all shadows are cast by the same light source(s). Conflicting shadow directions strongly indicate compositing."
    } else if i == 7 {
        "The image's frequency content or sensor interpolation patterns are inconsistent. This can indicate AI-generated content, inpainting, or splicing from images captured by different cameras."
    } else if i == 8 {
        "Counter-forensic techniques were detected - deliberate attempts to hide manipulation traces. This is a strong indicator of intentional fraud, as legitimate image editing rarely involves anti-forensic processing."
    } else if i == 9 {
        "The image appears to be a screenshot, re-photographed image, or upscaled from lower resolution. This is inconsistent with a claimed original photograph."
    } else if i == 10 {
        "Text formatting inconsistencies were detected in the document - different font characteristics or misaligned baselines suggest text was pasted or edited from a different source."
    } else {
        "Image metadata (EXIF, timestamps, device information) shows inconsistencies or evidence of editing software. While metadata alone is not conclusive, it provides context for other findings."
    }
}

fn prefixes(i: usize) -> (r: Vec<&'static str>)
    requires
        i < TOPIC_COUNT,
    ensures
        texts(r@) == prefixes_of(i as int),
{
    let r: Vec<&'static str> = if i == 0 {
        vec!["ela_", "jpeg_", "double_jpeg_", "qtable_"]
    } else if i == 1 {
        vec!["noise_", "prnu_"]
    } else if i == 2 {
        vec!["copy_move_", "splice_", "resampling_", "document_"]
    } else if i == 3 {
        vec!["texture_", "color_", "channel_", "histogram_"]
    } else if i == 4 {
        vec!["edge_sharpness_", "dof_"]
    } else if i == 5 {
        vec!["geometric_", "vanishing_point_"]
    } else if i == 6 {
        vec!["shadow_", "lighting_", "illumination_", "chromatic_"]
    } else if i == 7 {
        vec!["frequency_", "wavelet_", "cfa_"]
    } else if i == 8 {
        vec!["anti_forensics_"]
    } else if i == 9 {
        vec!["screenshot_", "upscaling_"]
    } else if i == 10 {
        vec!["font_", "text_"]
    } else {
        vec!["exif_", "metadata_", "c2pa_", "thumbnail_", "exif_pixel_"]
    }
    ;
    proof {
        assert(texts(r@) =~= prefixes_of(i as int));
    }
    r
}

/// Tells whether a code belongs to a category.
pub fn falls_under(code: &str, i: usize) -> (r: bool)
    requires
        i < TOPIC_COUNT,
    ensures
        r == code_under(code@, i as int),
{
    let list = prefixes(i);
    let mut p: usize = 0;
    while p < list.len()
        invariant
            p <= list.len(),
            texts(list@) == prefixes_of(i as int),
            forall|q: int| 0 <= q < p ==> !begins_with(code@, #[trigger] prefixes_of(i as int)[q]),
        decreases list.len() - p,
    {
        proof {
            assert(texts(list@)[p as int] == list@[p as int]@);
        }
        if starts_with(code, list[p]) {
            return true;
        }
        p += 1;
    }
    false
}

/// Which codes are explained as compression, noise, manipulated pixels, texture and colour,
/// edges, and geometry.
pub proof fn law_first_topics(code: Seq<char>)
    ensures
        name_of(0) == "Compression Artifacts"@,
        code_under(code, 0) <==> begins_with(code, "ela_"@) || begins_with(code, "jpeg_"@) || begins_with(code, "double_jpeg_"@) || begins_with(code, "qtable_"@),
        name_of(1) == "Noise Inconsistency"@,
        code_under(code, 1) <==> begins_with(code, "noise_"@) || begins_with(code, "prnu_"@),
        name_of(2) == "Pixel Manipulation"@,
        code_under(code, 2) <==> begins_with(code, "copy_move_"@) || begins_with(code, "splice_"@) || begins_with(code, "resampling_"@) || begins_with(code, "document_"@),
        name_of(3) == "Texture & Color Anomaly"@,
        code_under(code, 3) <==> begins_with(code, "texture_"@) || begins_with(code, "color_"@) || begins_with(code, "channel_"@) || begins_with(code, "histogram_"@),
        name_of(4) == "Edge & Sharpness Anomaly"@,
        code_under(code, 4) <==> begins_with(code, "edge_sharpness_"@) || begins_with(code, "dof_"@),
        name_of(5) == "Geometric Inconsistency"@,
        code_under(code, 5) <==> begins_with(code, "geometric_"@) || begins_with(code, "vanishing_point_"@),
{
    assert(prefixes_of(0)[0] == "ela_"@);
    assert(prefixes_of(0)[1] == "jpeg_"@);
    assert(prefixes_of(0)[2] == "double_jpeg_"@);
    assert(prefixes_of(0)[3] == "qtable_"@);
    assert(prefixes_of(1)[0] == "noise_"@);
    assert(prefixes_of(1)[1] == "prnu_"@);
    assert(prefixes_of(2)[0] == "copy_move_"@);
    assert(prefixes_of(2)[1] == "splice_"@);
    assert(prefixes_of(2)[2] == "resampling_"@);
    assert(prefixes_of(2)[3] == "document_"@);
    assert(prefixes_of(3)[0] == "texture_"@);
    assert(prefixes_of(3)[1] == "color_"@);
    assert(prefixes_of(3)[2] == "channel_"@);
    assert(prefixes_of(3)[3] == "histogram_"@);
    assert(prefixes_of(4)[0] == "edge_sharpness_"@);
    assert(prefixes_of(4)[1] == "dof_"@);
    assert(prefixes_of(5)[0] == "geometric_"@);
    assert(prefixes_of(5)[1] == "vanishing_point_"@);
}

/// Which codes are explained as light, frequencies, concealment, an odd source, text, and
/// metadata.
pub proof fn law_last_topics(code: Seq<char>)
    ensures
        name_of(6) == "Lighting & Shadow Inconsistency"@,
        code_under(code, 6) <==> begins_with(code, "shadow_"@) || begins_with(code, "lighting_"@) || begins_with(code, "illumination_"@) || begins_with(code, "chromatic_"@),
        name_of(7) == "Frequency & Wavelet Anomaly"@,
        code_under(code, 7) <==> begins_with(code, "frequency_"@) || begins_with(code, "wavelet_"@) || begins_with(code, "cfa_"@),
        name_of(8) == "Anti-Forensics Detected"@,
        code_under(code, 8) <==> begins_with(code, "anti_forensics_"@),
        name_of(9) == "Source Anomaly"@,
        code_under(code, 9) <==> begins_with(code, "screenshot_"@) || begins_with(code, "upscaling_"@),
        name_of(10) == "Document Text Anomaly"@,
        code_under(code, 10) <==> begins_with(code, "font_"@) || begins_with(code, "text_"@),
        name_of(11) == "Metadata Anomaly"@,
        code_under(code, 11) <==> begins_with(code, "exif_"@) || begins_with(code, "metadata_"@) || begins_with(code, "c2pa_"@) || begins_with(code, "thumbnail_"@) || begins_with(code, "exif_pixel_"@),
{
    assert(prefixes_of(6)[0] == "shadow_"@);
    assert(prefixes_of(6)[1] == "lighting_"@);
    assert(prefixes_of(6)[2] == "illumination_"@);
    assert(prefixes_of(6)[3] == "chromatic_"@);
    assert(prefixes_of(7)[0] == "frequency_"@);
    assert(prefixes_of(7)[1] == "wavelet_"@);
    assert(prefixes_of(7)[2] == "cfa_"@);
    assert(prefixes_of(8)[0] == "anti_forensics_"@);
    assert(prefixes_of(9)[0] == "screenshot_"@);
    assert(prefixes_of(9)[1] == "upscaling_"@);
    assert(prefixes_of(10)[0] == "font_"@);
    assert(prefixes_of(10)[1] == "text_"@);
    assert(prefixes_of(11)[0] == "exif_"@);
    assert(prefixes_of(11)[1] == "metadata_"@);
    assert(prefixes_of(11)[2] == "c2pa_"@);
    assert(prefixes_of(11)[3] == "thumbnail_"@);
    assert(prefixes_of(11)[4] == "exif_pixel_"@);
}

} // verus!

