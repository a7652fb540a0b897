use paddock_forensics::context::{is_heic_bytes, is_pdf_bytes, Context, ContextError, ContentType, Tag};
use paddock_forensics::raster::{
    area, bound_gray, can_resize, file_format, png_copy, resampled_file, working_gray, working_rgb,
    Format, Frame, Picture,
};

fn gradient(w: u32, h: u32) -> Frame {
    let mut samples = Vec::new();
    for y in 0..h {
        for x in 0..w {
            samples.push((x * 255 / w) as u8);
            samples.push((y * 255 / h) as u8);
            samples.push(((x + y) % 256) as u8);
        }
    }
    Frame { width: w, height: h, samples, monochrome: false }
}

fn open(bytes: Vec<u8>) -> Result<Context, ContextError> {
    Context::from_bytes(bytes, vec![], None)
}

fn tag(group: &str, name: &str) -> Tag {
    Tag { group: group.to_string(), name: name.to_string(), value: "v".to_string() }
}

fn key(v: f64) -> i64 {
    if v < 0.0 {
        -((-v).to_bits() as i64)
    } else {
        v.to_bits() as i64
    }
}

#[test]
fn a_png_file_decodes_to_what_was_encoded() {
    let f = gradient(40, 30);
    let png = f.to_png().unwrap();
    assert_eq!(&png[0..8], b"\x89PNG\r\n\x1a\n");
    let p = Picture::decode(&png).unwrap();
    assert_eq!((p.width, p.height), (40, 30));
    assert_eq!(p.rgb, f.samples);
    assert_eq!(p.gray.len(), 1200);
    assert!(!p.monochrome);
    let g = p.frame();
    assert_eq!(g.samples, f.samples);
    assert!(!g.monochrome);
}

#[test]
fn a_monochrome_file_keeps_its_samples() {
    let f = Frame { width: 3, height: 2, samples: vec![0, 50, 100, 150, 200, 250], monochrome: true };
    let p = Picture::decode(&f.to_png().unwrap()).unwrap();
    assert!(p.monochrome);
    assert_eq!(p.gray, f.samples);
    assert_eq!(p.rgb, f.colors());
    assert_eq!(f.colors()[3..6], [50, 50, 50]);
    assert_eq!(p.frame().samples, f.samples);
}

#[test]
fn undecodable_bytes_are_an_error() {
    assert!(Picture::decode(b"not an image").is_err());
    match open(b"not an image".to_vec()) {
        Err(ContextError::Decode(e)) => {
            let m = ContextError::Decode(e.clone()).message();
            assert_eq!(m, format!("unsupported or undecodable image: {}", e));
        }
        _ => panic!("a decode error"),
    }
}

#[test]
fn small_images_have_a_message() {
    let e = ContextError::TooSmall { width: 0, height: 7 };
    assert_eq!(e.message(), "image too small: 0x7");
}

#[test]
fn heic_input_is_an_honest_error() {
    let heic = b"\x00\x00\x00\x18ftypheic\x00\x00\x00\x00".to_vec();
    assert!(is_heic_bytes(&heic));
    match open(heic) {
        Err(ContextError::Decode(e)) => {
            assert_eq!(e, "HEIC/HEIF input requires the `heic` cargo feature (libheif)")
        }
        _ => panic!("a decode error"),
    }
    for brand in ["heix", "mif1", "msf1", "avif"] {
        let b = format!("\0\0\0\0ftyp{}", brand).into_bytes();
        assert!(is_heic_bytes(&b));
    }
    assert!(!is_heic_bytes(b"\0\0\0\0ftypmp42"));
    assert!(!is_heic_bytes(b"\0\0\0\0ftyphei"));
    assert!(!is_heic_bytes(b"\0\0\0\0xxxxheic"));
}

#[test]
fn a_pdf_is_a_document_without_pixels() {
    let c = open(b"%PDF-1.4\ntrailer<<>>\n%%EOF".to_vec()).ok().unwrap();
    assert!(c.is_pdf());
    assert!(!c.is_jpeg());
    assert_eq!((c.image.width, c.image.height), (1, 1));
    assert!(c.gray().is_empty());
    assert_eq!(c.content_type, ContentType::Document);
    assert!(!is_pdf_bytes(b"%PDF"));
    assert!(!is_pdf_bytes(b" %PDF-"));
}

#[test]
fn formats_are_told_by_signatures() {
    let png = gradient(8, 8).to_png().unwrap();
    assert_eq!(file_format(&png), Format::Png);
    assert_eq!(file_format(&[0xff, 0xd8, 0xff, 0xe0]), Format::Jpeg);
    assert_eq!(file_format(&[0xff, 0xd8]), Format::Other);
    assert_eq!(file_format(b"BM123"), Format::Bmp);
    assert_eq!(file_format(b"GIF89a"), Format::Other);
    assert_eq!(file_format(b""), Format::Other);
}

#[test]
fn contexts_keep_their_bytes_and_tags() {
    let png = gradient(16, 9).to_png().unwrap();
    let c = Context::from_bytes(png.clone(), vec![tag("EXIF", "Make")], Some(vec![1, 2])).ok().unwrap();
    assert_eq!(c.raw_bytes, png);
    assert_eq!(c.tags.len(), 1);
    assert_eq!(c.thumbnail_bytes, Some(vec![1, 2]));
    assert_eq!(c.content_type, ContentType::Unknown);
    assert_eq!(c.format, Format::Png);
    assert_eq!(c.gray().len(), 16 * 9);
    let sums = c.row_sums();
    assert_eq!(sums.len(), 9);
    assert_eq!(sums[0], c.gray()[0..16].iter().map(|&v| v as u64).sum::<u64>());
    assert_eq!(sums[8], c.gray()[128..144].iter().map(|&v| v as u64).sum::<u64>());
}

#[test]
fn content_signals() {
    let png = gradient(30, 30).to_png().unwrap();
    let with = |tags: Vec<Tag>| Context::from_bytes(png.clone(), tags, None).ok().unwrap();
    assert_eq!(with(vec![]).metadata_signal(), 3);
    assert_eq!(with(vec![tag("EXIF", "Model")]).metadata_signal(), -10);
    assert_eq!(with(vec![tag("EXIF", "Model"), tag("EXIF", "Software")]).metadata_signal(), -3);
    assert_eq!(with(vec![tag("EXIF", "Software")]).metadata_signal(), 5);
    assert_eq!(with(vec![tag("PDF", "Producer"), tag("EXIF", "Make")]).metadata_signal(), 10);
    assert_eq!(with(vec![tag("XMP", "Make")]).metadata_signal(), 3);
    assert_eq!(with(vec![]).format_signal(), 5);
}

#[test]
fn content_types_follow_the_score() {
    let png = gradient(30, 30).to_png().unwrap();
    let mut c = open(png).ok().unwrap();
    c.classify_content(key(0.36));
    assert_eq!(c.content_type, ContentType::Document);
    c.classify_content(key(0.35));
    assert_eq!(c.content_type, ContentType::Unknown);
    c.classify_content(key(-0.15));
    assert_eq!(c.content_type, ContentType::Unknown);
    c.classify_content(key(-0.16));
    assert_eq!(c.content_type, ContentType::Photo);
    let mut pdf = open(b"%PDF-1.4".to_vec()).ok().unwrap();
    pdf.classify_content(key(-1.0));
    assert_eq!(pdf.content_type, ContentType::Document);
}

#[test]
fn histogram_signals() {
    let plain = |v: u8| {
        let f = Frame { width: 10, height: 10, samples: vec![v; 100], monochrome: true };
        open(f.to_png().unwrap()).ok().unwrap()
    };
    assert_eq!(plain(255).background_counts(), (100, 0));
    assert_eq!(plain(0).background_counts(), (0, 100));
    assert_eq!(plain(255).histogram_signal(key(1.0)), 7);
    assert_eq!(plain(120).histogram_signal(key(0.6)), 0);
    let mut s = vec![255u8; 60];
    s.extend(vec![0u8; 40]);
    let f = Frame { width: 10, height: 10, samples: s, monochrome: true };
    let c = open(f.to_png().unwrap()).ok().unwrap();
    assert_eq!(c.histogram_signal(key(1.0)), 10);
}

#[test]
fn resaving_changes_little_and_keeps_the_size() {
    let f = gradient(64, 48);
    let back = f.resave(95).unwrap();
    assert_eq!(back.len(), f.samples.len());
    assert!(back != f.samples);
    let worst = back.iter().zip(&f.samples).map(|(a, b)| a.abs_diff(*b)).max().unwrap();
    assert!(worst < 120);
    let low = f.resave(5).unwrap();
    let sum = |v: &Vec<u8>| v.iter().zip(&f.samples).map(|(a, b)| a.abs_diff(*b) as u64).sum::<u64>();
    assert!(sum(&low) > sum(&back));
    let wide = Frame { width: 70000, height: 1, samples: vec![0; 70000], monochrome: true };
    assert!(wide.resave(90).is_none());
}

#[test]
fn fitting_keeps_the_aspect() {
    let f = gradient(64, 48);
    let g = f.fit(32, 32);
    assert_eq!((g.width, g.height), (32, 24));
    assert_eq!(g.samples.len(), 32 * 24 * 3);
}

#[test]
fn working_images_are_resampled_on_demand() {
    let gray: Vec<u8> = (0..100u8).collect();
    let same = working_gray(&gray, 10, 10, None);
    assert_eq!(same.samples, gray);
    let small = working_gray(&gray, 10, 10, Some((5, 4)));
    assert_eq!((small.width, small.height, small.samples.len()), (5, 4, 20));
    let kept = bound_gray(&gray, 10, 10, 100, 5, 5);
    assert_eq!(kept.samples, gray);
    let shrunk = bound_gray(&gray, 10, 10, 99, 5, 5);
    assert_eq!(shrunk.samples.len(), 25);
    let f = gradient(20, 10);
    let a = working_rgb(&f.samples, 20, 10, Some((10, 5)));
    assert_eq!((a.width, a.height, a.samples.len()), (10, 5, 150));
    assert_eq!(working_rgb(&f.samples, 20, 10, None).samples, f.samples);
    assert!(can_resize(4000, 3000, 800, 800));
    assert!(!can_resize(u32::MAX, 1, u32::MAX, u32::MAX));
    assert!(can_resize(4_194_304, 1, 1, 4_194_304));
    assert!(!can_resize(16_777_219, 1, 33_554_432, 1));
    assert!(!can_resize(1, 4_194_305, 1, 1) && !can_resize(1, 1, 1, 4_194_305));
    assert_eq!(area(u32::MAX, 2), 2 * (u32::MAX as u64));
}

#[test]
fn files_are_copied_to_png_and_resampled() {
    let f = gradient(40, 20);
    let png = f.to_png().unwrap();
    let copy = png_copy(&png).unwrap();
    assert_eq!(Picture::decode(&copy).unwrap().rgb, f.samples);
    assert!(png_copy(b"junk").is_none());
    let (rgb, gray) = resampled_file(&png, 10, 5).unwrap();
    assert_eq!((rgb.len(), gray.len()), (150, 50));
    assert!(resampled_file(b"junk", 10, 5).is_none());
    let (same, _) = resampled_file(&png, 40, 20).unwrap();
    assert_eq!(same, f.samples);
    let plain = Frame { width: 4, height: 2, samples: (0..8).collect(), monochrome: true };
    let (colors, gray) = resampled_file(&plain.to_png().unwrap(), 4, 2).unwrap();
    assert_eq!(gray, plain.samples);
    assert_eq!(colors, plain.colors());
}
