use paddock_forensics::context::Tag;
use paddock_forensics::finding::{Finding, Region, Severity};
use paddock_forensics::pdf::image_pipeline::{EmbeddedImage, ImageData, PdfImagePipeline};
use paddock_forensics::pdf::overlay::{
    Annotation, AnnotationKind, DocumentParts, EncodedImage, MeasuredImage, OverlayDetector,
    PageImage,
};
use paddock_forensics::pdf::render_compare::{
    compare, decode_scan, differing, find_diff_regions, is_comparable, is_reported, pages_to_compare,
    report_limit, report_page, scan_of, RenderCompareOpts, ScanBox,
};
use paddock_forensics::pdf::structure::{Form, FormField, PdfStructureAnalyzer};
use paddock_forensics::raster::{Frame, Picture};
use paddock_forensics::text::chars_of;

fn tag(name: &str, value: &str) -> Tag {
    Tag { group: "PDF".to_string(), name: name.to_string(), value: value.to_string() }
}

fn codes(f: &Vec<Finding>) -> Vec<&str> {
    f.iter().map(|f| f.code.as_str()).collect()
}

fn parts() -> DocumentParts {
    DocumentParts { annotations: None, images: None, text_pages: None }
}

fn overlay(raw: &[u8], d: &DocumentParts) -> Vec<Finding> {
    OverlayDetector.analyze(raw, d, &vec![], "0")
}

#[test]
fn incremental_saves() {
    let one = PdfStructureAnalyzer.analyze(b"%PDF-1.4 xref startx %%EOF", &vec![], &None);
    assert!(one.is_empty());
    let two = PdfStructureAnalyzer.analyze(b"xref %%EOF xref %%EOF", &vec![], &None);
    assert_eq!(codes(&two), vec!["pdf_incremental_saves"]);
    assert_eq!(two[0].severity, Severity::Medium);
    assert_eq!(
        two[0].description,
        "PDF has 1 incremental save(s) (2 %%EOF markers, 2 xref sections) - document was edited and re-saved 1 time(s) after initial creation"
    );
    let three = PdfStructureAnalyzer.analyze(b"%%EOF%%EOF\xff%%EOF", &vec![], &None);
    assert_eq!(three[0].severity, Severity::High);
    let rebuilt = PdfStructureAnalyzer.analyze(b"xref /Type /XRef %%EOF", &vec![], &None);
    assert_eq!(codes(&rebuilt), vec!["pdf_rebuilt_xref"]);
}

#[test]
fn dates_and_tool_chains() {
    let tags = vec![
        tag("CreationDate", "1"),
        tag("ModDate", "2"),
        tag("Creator", "EPSON Scan"),
        tag("Producer", "Foxit Phantom"),
    ];
    let f = PdfStructureAnalyzer.analyze(b"", &tags, &None);
    assert_eq!(codes(&f), vec!["pdf_dates_differ", "pdf_scanner_then_editor"]);
    let same = vec![tag("CreateDate", "1"), tag("ModifyDate", "1"), tag("Creator", "Word")];
    assert!(PdfStructureAnalyzer.analyze(b"", &same, &None).is_empty());
    let known = vec![tag("Producer", "Sejda 1"), tag("Creator", "smallpdf")];
    let g = PdfStructureAnalyzer.analyze(b"", &known, &None);
    assert_eq!(
        g[0].description,
        "PDF processed with online PDF editor ('Sejda 1') - document was edited using online PDF editor"
    );
    let form = PdfStructureAnalyzer.analyze(b"", &vec![tag("Creator", "PDFescape")], &None);
    assert!(form[0].description.contains("online PDF form editor"));
}

#[test]
fn scripts_and_actions() {
    let f = PdfStructureAnalyzer.analyze(b"\xfe /JS (x) /OpenAction", &vec![], &None);
    assert_eq!(codes(&f), vec!["pdf_contains_javascript", "pdf_open_action"]);
    let t = PdfStructureAnalyzer.analyze(b"", &vec![tag("JavaScript", "Yes")], &None);
    assert_eq!(codes(&t), vec!["pdf_contains_javascript"]);
    assert!(PdfStructureAnalyzer.analyze(b"", &vec![tag("JavaScript", "No")], &None).is_empty());
}

#[test]
fn forms() {
    let field = |n: usize| FormField { full_name: format!("f{}", n), value: Some(format!("v{}", n)) };
    let mut fields: Vec<FormField> = (0..7).map(field).collect();
    fields[1].value = None;
    let form = Some(Form { fields, need_appearances: true });
    let f = PdfStructureAnalyzer.analyze(b"", &vec![], &form);
    assert_eq!(codes(&f), vec!["pdf_filled_form_fields", "pdf_editable_forms"]);
    assert_eq!(
        f[0].description,
        "PDF contains 6 filled form field(s): f0='v0', f2='v2', f3='v3', f4='v4', f5='v5' - form fields can be modified after document creation"
    );
}

#[test]
fn annotations() {
    let a = |kind, page_index| Annotation { kind, page_index, rect: "1,2,3,4".to_string() };
    let d = DocumentParts {
        annotations: Some(vec![
            a(AnnotationKind::FreeText, 0),
            a(AnnotationKind::Stamp, 0),
            a(AnnotationKind::FreeText, 4),
            a(AnnotationKind::Redact, 1),
            a(AnnotationKind::Other, 1),
        ]),
        ..parts()
    };
    let f = overlay(b"", &d);
    assert_eq!(codes(&f), vec!["pdf_freetext_overlay", "pdf_redaction_annotations", "pdf_stamp_overlay"]);
    assert!(f[0].description.contains("FreeText on page 1 at [1,2,3,4]; FreeText on page 5 at [1,2,3,4]. This"));
}

#[test]
fn filled_rectangles() {
    let white = overlay(b"1 1 1 rg 0 0 10 10 re f\nBT (x) ET", &parts());
    assert_eq!(codes(&white), vec!["pdf_white_rectangle_overlay"]);
    let black = overlay(b"0 0 0 rg 0 0 10 10 re f BT", &parts());
    assert_eq!(codes(&black), vec!["pdf_filled_rect_before_text"]);
    assert_eq!(
        black[0].description,
        "1 instance(s) of filled rectangles followed by text operations - may indicate content overlay"
    );
    assert!(overlay(b"0 0 10 10 re S", &parts()).is_empty());
    let far = format!("1 g{} re f ", " ".repeat(210));
    assert!(overlay(far.as_bytes(), &parts()).is_empty());
}

#[test]
fn windows_that_cut_a_character_yield_nothing() {
    let mut raw = b"1 g 0 0 1 1 re f ".to_vec();
    raw.extend(vec![0xff; 60]);
    let d = DocumentParts {
        annotations: Some(vec![Annotation {
            kind: AnnotationKind::Stamp,
            page_index: 0,
            rect: "0,0,0,0".to_string(),
        }]),
        ..parts()
    };
    let text: Vec<char> = String::from_utf8_lossy(&raw).chars().collect();
    let from = raw.iter().position(|&b| b == b'r').unwrap() - 1;
    let lossy = String::from_utf8_lossy(&raw).to_string();
    let cut = !lossy.is_char_boundary(from + 100);
    assert_eq!(OverlayDetector.count_rectangles(&text).is_none(), cut);
    assert_eq!(overlay(&raw, &d).is_empty(), cut);
    raw.insert(0, b' ');
    raw.insert(0, b' ');
    assert_eq!(OverlayDetector.count_rectangles(&chars_of("1 g re f ")), Some((1, 0)));
}

#[test]
fn mixed_pages() {
    let d = DocumentParts {
        images: Some(vec![
            PageImage { page: 0, width: 600, height: 600 },
            PageImage { page: 2, width: 501, height: 501 },
            PageImage { page: 1, width: 500, height: 900 },
        ]),
        text_pages: Some(vec!["  Total 42 ".to_string(), "Total 42".to_string(), "äöü".to_string()]),
        ..parts()
    };
    let f = overlay(b"", &d);
    assert_eq!(codes(&f), vec!["pdf_mixed_scan_and_text"]);
    assert!(f[0].description.starts_with("Pages [1, 3] contain both"));
}

#[test]
fn fonts_in_scans() {
    let images = || Some(vec![PageImage { page: 0, width: 1001, height: 1001 }]);
    let d = DocumentParts { images: images(), ..parts() };
    let raw = b"/BaseFont/Times /BaseFont/Arial> /BaseFont/Times/x /BaseFont /Courier                          ";
    let f = overlay(raw, &d);
    assert_eq!(codes(&f), vec!["pdf_fonts_in_scan"]);
    assert!(f[0].description.contains("contains 2 embedded font(s): Arial, Times - fonts"));
    let three = overlay(b"/BaseFont/C /BaseFont/B /BaseFont/A ", &d);
    assert_eq!(codes(&three), vec!["pdf_fonts_in_scan", "pdf_multiple_fonts_in_scan"]);
    assert!(overlay(raw, &parts()).is_empty());
    assert_eq!(OverlayDetector.font_names(&chars_of("/BaseFont")), None);
    assert_eq!(OverlayDetector.font_names(&chars_of("/BaseFont/")), Some(vec![]));
}

#[test]
fn image_objects() {
    let mut raw = b"%PDF\n12 0 obj << /Type /XObject /Subtype /Image /Width 1200 /Height 900 /Length 5000 >> stream\n".to_vec();
    raw.extend(b"\n3 0 obj << /Font >> endobj\n");
    raw.extend(vec![b' '; 1100]);
    raw.extend(b"\nx 0 obj << /Image /Width 600 /Height 90 /Length 70000 >>");
    raw.extend(vec![b' '; 1100]);
    let i = OverlayDetector.page_images(&raw);
    assert_eq!(
        i,
        vec![
            EncodedImage { number: 12, width: 1200, height: 900, length: 5000 },
            EncodedImage { number: 0, width: 600, height: 90, length: 70000 },
        ]
    );
    let measured = |i: &EncodedImage| MeasuredImage {
        image: *i,
        bytes_per_pixel: "0.0046".to_string(),
        ratio: 14.0f64.to_bits() as i64,
        ratio_text: "14".to_string(),
    };
    let m: Vec<MeasuredImage> = i.iter().map(measured).collect();
    assert_eq!(OverlayDetector.strip_totals(&m), (1, 70000));
    let f = OverlayDetector.analyze(&raw, &parts(), &m, "70000");
    assert_eq!(
        codes(&f),
        vec!["pdf_scan_replaced_with_placeholder", "pdf_mixed_image_encoding", "pdf_page_image_size_disparity"]
    );
    assert!(f[0].description.starts_with(
        "Page image (obj 12, 1200x900) has abnormally small data (5000 bytes, 0.0046 bytes/pixel)"
    ));
    assert!(f[2].description.starts_with(
        "Page image (obj 12, 1200x900, 5000 bytes) is 14x smaller than average page scan (70000 bytes)"
    ));
}

fn embedded(page: u32, width: u32, height: u32, components: u8, data: ImageData) -> EmbeddedImage {
    EmbeddedImage { page, width, height, components, data }
}

#[test]
fn embedded_images_are_extracted() {
    let f = Frame { width: 120, height: 110, samples: vec![90; 120 * 110 * 3], monochrome: false };
    let png = f.to_png().unwrap();
    let p = PdfImagePipeline;
    let file = p.extract(&embedded(0, 120, 110, 3, ImageData::Jpeg(png.clone()))).unwrap();
    assert_eq!(file.ela, Some(png.clone()));
    assert_eq!(Picture::decode(&file.noise.unwrap()).unwrap().rgb, f.samples);
    let other = p.extract(&embedded(0, 120, 110, 3, ImageData::Jpeg2000(png.clone()))).unwrap();
    assert!(other.ela.is_none() && other.noise.is_some());
    let raw = p.extract(&embedded(0, 120, 110, 3, ImageData::Pixels(f.samples.clone()))).unwrap();
    assert_eq!(Picture::decode(&raw.noise.unwrap()).unwrap().rgb, f.samples);
    assert!(p.extract(&embedded(0, 120, 110, 4, ImageData::Pixels(f.samples.clone()))).is_none());
    assert!(p.extract(&embedded(0, 120, 111, 3, ImageData::Pixels(f.samples.clone()))).is_none());
    assert!(p.extract(&embedded(0, 99, 110, 3, ImageData::Jpeg(png))).is_none());
    assert!(p.extract(&embedded(0, 120, 110, 3, ImageData::Jpeg(vec![1, 2]))).is_none());
    assert!(p.extract(&embedded(0, 120, 110, 3, ImageData::Other)).is_none());
    assert!(p.is_oversized(&embedded(0, 120, 109, 3, ImageData::Pixels(f.samples.clone()))));
    assert!(!p.is_oversized(&embedded(0, 120, 110, 3, ImageData::Pixels(f.samples))));
}

#[test]
fn inventories_and_labels() {
    let p = PdfImagePipeline;
    assert!(p.inventory(0).is_empty());
    assert_eq!(codes(&p.inventory(20)), vec!["pdf_image_inventory"]);
    let many = p.inventory(21);
    assert_eq!(codes(&many), vec!["pdf_image_inventory", "pdf_image_limit"]);
    assert_eq!(many[1].description, "PDF contains 21 images - analyzing first 20 only");
    assert_eq!(many[0].confidence, 1.0f64.to_bits());
    let f = Finding::new("noise", "n", "text".to_string(), Severity::Low, 3);
    let l = p.label(vec![f], &embedded(6, 120, 110, 3, ImageData::Other), 2);
    assert_eq!(l[0].description, "[PDF image 2 (page 7, 120x110)] text");
    assert_eq!((l[0].code.as_str(), l[0].confidence), ("n", 3));
}

#[test]
fn pages_are_compared_once_up_to_a_limit() {
    let images: Vec<EmbeddedImage> =
        [3u32, 1, 3, 2, 1].iter().map(|&p| embedded(p, 10 + p, 10, 1, ImageData::Other)).collect();
    let mut opts = RenderCompareOpts::default();
    assert_eq!(f32::from_bits(opts.render_dpi), 150.0);
    assert_eq!((opts.diff_threshold, opts.max_pages), (10, 10));
    assert_eq!(opts.min_diff_ratio, 0.0001f64.to_bits() as i64);
    assert_eq!(pages_to_compare(&images, &opts), vec![3, 1, 2]);
    assert!(report_limit(&images, &opts).is_empty());
    opts.max_pages = 2;
    assert_eq!(pages_to_compare(&images, &opts), vec![3, 1]);
    assert_eq!(
        report_limit(&images, &opts)[0].description,
        "PDF has more than 2 pages with images - render comparison limited to first 2"
    );
    assert_eq!(scan_of(&images, 3), Some(2));
    assert_eq!(scan_of(&images, 9), None);
    assert!(!is_comparable(&images[0]));
    assert!(is_reported(0.0001f64.to_bits() as i64, &opts));
    assert!(!is_reported(0.00009f64.to_bits() as i64, &opts));
}

#[test]
fn scans_are_decoded() {
    let gray = embedded(0, 2, 1, 1, ImageData::Pixels(vec![5, 6, 7]));
    assert_eq!(decode_scan(&gray).unwrap().samples, vec![5, 5, 5, 6, 6, 6]);
    let rgb = embedded(0, 1, 1, 3, ImageData::Pixels(vec![5, 6, 7, 8]));
    assert_eq!(decode_scan(&rgb).unwrap().samples, vec![5, 6, 7]);
    assert!(decode_scan(&embedded(0, 1, 1, 2, ImageData::Pixels(vec![5, 6, 7, 8]))).is_none());
    assert!(decode_scan(&embedded(0, 2, 1, 3, ImageData::Pixels(vec![5, 6, 7, 8]))).is_none());
    assert!(decode_scan(&embedded(0, 2, 1, 3, ImageData::Jpeg(vec![5]))).is_none());
}

#[test]
fn differences_are_found_and_reported() {
    let (w, h) = (60u32, 40u32);
    let scan = Frame { width: w, height: h, samples: vec![250; (w * h * 3) as usize], monochrome: false };
    let mut page = scan.samples.clone();
    for y in 10..15 {
        for x in 20..30 {
            for c in 0..3 {
                page[((y * w + x) * 3 + c) as usize] = 0;
            }
        }
    }
    page[0] = 217;
    page[3] = 217 - 3;
    let opts = RenderCompareOpts::default();
    let (mask, n) = compare(&page, w, h, &scan, &opts);
    assert_eq!(n, 52);
    assert!(mask[0] && mask[1] && !mask[2]);
    let same = compare(&scan.samples, w, h, &scan, &opts);
    assert_eq!(same.1, 0);
    assert_eq!(differing(&page, &scan.samples, w, h, 10), (mask.clone(), n));
    assert_eq!(differing(&page, &scan.samples, w, h, 255).1, 0);
    let half = Frame { width: 30, height: 20, samples: vec![250; 1800], monochrome: false };
    assert_eq!(compare(&page, w, h, &half, &opts), (mask.clone(), n));
    let regions = find_diff_regions(&mask, w, h);
    assert_eq!(regions.len(), 1);
    let r = &regions[0];
    assert_eq!((r.x_min, r.y_min, r.x_max, r.y_max, r.count), (20, 10, 29, 14, 50));
    let image = embedded(4, 600, 400, 3, ImageData::Other);
    let boxes = vec![ScanBox { x: 200, y: 100, width: 100, height: 50 }];
    let f = report_page(4, &image, "2.17", &regions, &boxes);
    assert_eq!(
        f[0].description,
        "Page 5 (scan 600x400): 2.17% of pixels differ between embedded scan and rendered page - content was added on top of the scanned image (1 modified region)"
    );
    assert_eq!(f[1].description, "Page 5: overlay region 1 at (200,100) - 50 pixels added on top of scan");
    assert_eq!(f[0].confidence, 0.92f64.to_bits());
    match &f[1].region {
        Some(Region::BoundingBox { x, y, width, height }) => {
            assert_eq!((*x, *y, *width, *height), (200, 100, 100, 50))
        }
        _ => panic!("a box"),
    }
}

#[test]
fn regions_touch_by_sides_and_come_largest_first() {
    let mut on = vec![false; 20 * 20];
    for i in 0..20 {
        on[i] = true;
    }
    for y in 5..15 {
        for x in 3..6 {
            on[y * 20 + x] = true;
        }
    }
    on[1 * 20 + 0] = false;
    for x in 10..29 {
        on[15 * 20 + x - 10] = false;
    }
    let r = find_diff_regions(&on, 20, 20);
    assert_eq!(r.len(), 2);
    assert_eq!((r[0].count, r[1].count), (30, 20));
    let diagonal: Vec<bool> = (0..400).map(|i| i / 20 == i % 20).collect();
    assert!(find_diff_regions(&diagonal, 20, 20).is_empty());
}
