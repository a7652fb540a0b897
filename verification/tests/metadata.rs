use paddock_forensics::context::{Context, Tag};
use paddock_forensics::finding::{Finding, Severity};
use paddock_forensics::metadata::analyzer::MetadataAnalyzer;
use paddock_forensics::metadata::c2pa::{C2paChecker, C2paStatus};
use paddock_forensics::metadata::exif_pixel::ExifPixelAnalyzer;
use paddock_forensics::raster::Frame;

fn tag(group: &str, name: &str, value: &str) -> Tag {
    Tag { group: group.to_string(), name: name.to_string(), value: value.to_string() }
}

fn codes(f: &Vec<Finding>) -> Vec<&str> {
    f.iter().map(|f| f.code.as_str()).collect()
}

fn context(samples: Vec<u8>, w: u32, h: u32, tags: Vec<Tag>) -> Context {
    let f = Frame { width: w, height: h, samples, monochrome: true };
    Context::from_bytes(f.to_png().unwrap(), tags, None).ok().unwrap()
}

#[test]
fn tools_are_named_whatever_their_case() {
    let tags = vec![
        tag("EXIF", "Make", "Canon"),
        tag("EXIF", "Software", "Adobe PHOTOSHOP and Gimp"),
        tag("XMP", "CreatorTool", "MidJourney v6"),
        tag("XMP", "Title", "photoshop"),
    ];
    let f = MetadataAnalyzer.analyze(&tags);
    assert_eq!(codes(&f), vec!["editing_software_tag", "editing_software_tag", "ai_generator_tag"]);
    assert_eq!(
        f[0].description,
        "Image processed with editing software: Software = Adobe PHOTOSHOP and Gimp"
    );
    assert_eq!(f[2].description, "Metadata indicates AI generation tool: CreatorTool = MidJourney v6");
    assert_eq!(f[2].severity, Severity::Critical);
    assert_eq!(f[2].confidence, 0.95f64.to_bits());
    assert_eq!(f[0].confidence, 0.9f64.to_bits());
}

#[test]
fn missing_cameras_are_reported() {
    assert_eq!(codes(&MetadataAnalyzer.analyze(&vec![])), vec!["no_camera_metadata"]);
    assert!(MetadataAnalyzer.analyze(&vec![tag("EXIF", "ExifVersion", "0232")]).is_empty());
    assert!(MetadataAnalyzer.analyze(&vec![tag("PDF", "Producer", "x")]).is_empty());
}

#[test]
fn timestamps_must_differ_twice() {
    let make = tag("EXIF", "Make", "x");
    let two = vec![
        tag("EXIF", "Make", "x"),
        tag("EXIF", "DateTime", "1"),
        tag("EXIF", "CreateDate", "2"),
        tag("EXIF", "ModifyDate", "2"),
    ];
    assert!(MetadataAnalyzer.analyze(&two).is_empty());
    let three = vec![
        make,
        tag("EXIF", "DateTime", "1"),
        tag("EXIF", "CreateDate", "2"),
        tag("EXIF", "ModifyDate", "3"),
        tag("EXIF", "OffsetTIME", "3"),
    ];
    let f = MetadataAnalyzer.analyze(&three);
    assert_eq!(codes(&f), vec!["timestamp_inconsistency"]);
    assert_eq!(
        f[0].description,
        "Multiple inconsistent timestamps found across 4 date fields"
    );
}

#[test]
fn claimed_sizes_are_checked() {
    let tags = vec![tag("EXIF", "ImageWidth", " 99 "), tag("EXIF", "ExifImageHeight", "12")];
    let c = context(vec![100; 200], 20, 10, tags);
    let f = ExifPixelAnalyzer.analyze(&c);
    assert_eq!(codes(&f), vec!["resolution_mismatch_width", "resolution_mismatch_height"]);
    assert_eq!(
        f[0].description,
        "EXIF width (99) does not match actual width (20) or height (10)"
    );
    let swapped = vec![tag("EXIF", "ImageWidth", "10"), tag("EXIF", "ImageHeight", "20")];
    assert!(ExifPixelAnalyzer.analyze(&context(vec![100; 200], 20, 10, swapped)).is_empty());
    assert_eq!(ExifPixelAnalyzer::get_tag_u32(&vec![tag("a", "n", "x"), tag("a", "n", "7")], "n"), None);
    assert_eq!(ExifPixelAnalyzer::get_tag_u32(&vec![tag("a", "n", "\t+7\n")], "n"), Some(7));
}

#[test]
fn claimed_orientation_is_checked() {
    let tags = |o: &str| {
        vec![
            tag("EXIF", "Orientation", o),
            tag("EXIF", "ImageWidth", "20"),
            tag("EXIF", "ImageHeight", "10"),
        ]
    };
    let f = ExifPixelAnalyzer.analyze(&context(vec![100; 200], 20, 10, tags("6")));
    assert_eq!(codes(&f), vec!["orientation_inconsistency"]);
    assert!(ExifPixelAnalyzer.analyze(&context(vec![100; 200], 20, 10, tags("1"))).is_empty());
    assert!(ExifPixelAnalyzer.analyze(&context(vec![100; 200], 20, 10, tags("9"))).is_empty());
}

#[test]
fn clipping_and_depth_are_checked() {
    let mut samples = vec![100u8; 84];
    samples.extend(vec![0u8; 8]);
    samples.extend(vec![255u8; 8]);
    let tags = vec![tag("EXIF", "ColorSpace", "sRGB"), tag("EXIF", "BitsPerSample", "16 16 16")];
    let f = ExifPixelAnalyzer.analyze(&context(samples, 10, 10, tags));
    assert_eq!(codes(&f), vec!["color_space_clipping", "bit_depth_inconsistency"]);
    assert!(f[0].description.contains("but 16.0% of channel values"));
    assert!(f[1].description.contains("claims 16 16 16 bits per sample but only 3 unique"));
    let mut few = vec![100u8; 85];
    few.extend(vec![0u8; 15]);
    let tags = vec![tag("EXIF", "ColorSpace", "1")];
    assert!(ExifPixelAnalyzer.analyze(&context(few, 10, 10, tags)).is_empty());
    assert_eq!(ExifPixelAnalyzer::clipped_count(&[0, 1, 254, 255, 255]), 3);
}

fn jpeg_with(payload: &[u8]) -> Vec<u8> {
    let mut d = vec![0xff, 0xd8, 0xff, 0xeb];
    let n = payload.len() + 2;
    d.push((n >> 8) as u8);
    d.push((n & 255) as u8);
    d.extend_from_slice(payload);
    d.extend_from_slice(&[0xff, 0xd9, 0, 0, 0, 0]);
    d
}

fn store_uuid() -> Vec<u8> {
    vec![0x63, 0x32, 0x70, 0x61, 0x00, 0x11, 0x00, 0x10, 0x80, 0x00, 0x00, 0xAA, 0x00, 0x38, 0x9B, 0x71]
}

#[test]
fn credentials_in_jpeg_files() {
    let mut payload = b"xx".to_vec();
    payload.extend(store_uuid());
    payload.extend(b"..c2pa.claim..\xff..c2pa.hash.data");
    match C2paChecker.detect_c2pa(&jpeg_with(&payload)) {
        C2paStatus::Present { claim_info } => {
            assert_eq!(claim_info, "C2PA claim manifest, content hash binding")
        }
        _ => panic!("credentials are there"),
    }
    match C2paChecker.detect_c2pa(&jpeg_with(b"JP..........")) {
        C2paStatus::Present { claim_info } => assert_eq!(claim_info, "C2PA JUMBF container detected"),
        _ => panic!("a container is there"),
    }
    assert!(matches!(C2paChecker.detect_c2pa(&jpeg_with(b"nothing here")), C2paStatus::Absent));
    assert!(C2paChecker::contains_c2pa_uuid(&store_uuid()));
    assert!(!C2paChecker::contains_c2pa_uuid(&store_uuid()[1..]));
}

fn png_with(kind: &[u8; 4], data: &[u8]) -> Vec<u8> {
    let mut d = b"\x89PNG\r\n\x1a\n".to_vec();
    for (k, v) in [(b"IHDR", &b"0123456789abc"[..]), (kind, data), (b"IEND", &b""[..])] {
        d.extend_from_slice(&(v.len() as u32).to_be_bytes());
        d.extend_from_slice(k);
        d.extend_from_slice(v);
        d.extend_from_slice(&[0, 0, 0, 0]);
    }
    d
}

#[test]
fn credentials_in_png_files() {
    match C2paChecker.detect_c2pa(&png_with(b"caBX", b"dc:creator stds.exif")) {
        C2paStatus::Present { claim_info } => {
            assert_eq!(claim_info, "creator attribution present, EXIF assertion present")
        }
        _ => panic!("credentials are there"),
    }
    match C2paChecker.detect_c2pa(&png_with(b"iTXt", b"XML:c2pa")) {
        C2paStatus::Present { claim_info } => assert_eq!(claim_info, "C2PA manifest in iTXt chunk"),
        _ => panic!("credentials are there"),
    }
    assert!(matches!(C2paChecker.detect_c2pa(&png_with(b"iTXt", b"c2pa")), C2paStatus::Absent));
    assert!(matches!(C2paChecker.detect_c2pa(&png_with(b"tEXt", b"XML:c2pa")), C2paStatus::Absent));
    assert!(matches!(C2paChecker.detect_c2pa(b"GIF89a"), C2paStatus::Absent));
}

#[test]
fn removed_credentials_leave_traces() {
    let none = vec![];
    assert!(C2paChecker.analyze(b"GIF89a", &none).is_empty());
    let f = C2paChecker.analyze(b"GIF89a....jumd..", &none);
    assert_eq!(codes(&f), vec!["c2pa_removed"]);
    let xmp = vec![tag("XMP", "History", "Content Credentials attached")];
    assert!(C2paChecker.detect_removed_c2pa(b"", &xmp));
    let tool = vec![tag("EXIF", "Software", "Verify 1.0")];
    assert!(C2paChecker.detect_removed_c2pa(b"", &tool));
    let other = vec![tag("EXIF", "Artist", "Verify 1.0")];
    assert!(!C2paChecker.detect_removed_c2pa(b"", &other));
    let present = C2paChecker.analyze(&jpeg_with(b"JP.........."), &none);
    assert_eq!(codes(&present), vec!["c2pa_manifest_present"]);
    assert_eq!(present[0].severity, Severity::Info);
}
