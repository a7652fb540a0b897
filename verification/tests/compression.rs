//! Error levels, ghosts, quantization tables, grids and thumbnails.

use image::codecs::jpeg::JpegEncoder;
use image::codecs::png::PngEncoder;
use image::{ExtendedColorType, ImageEncoder};
use paddock_forensics::finding::{Finding, Severity};
use paddock_forensics::jpeg::{
    app11_payloads, estimate_jpeg_quality, extract_quantization_tables, quality_of, sorted_ratios,
    standard_table, Ratio,
};
use paddock_forensics::pixel::double_jpeg::{DoubleJpegDetector, Offset, COEFFICIENT_BINS};
use paddock_forensics::pixel::ela::{
    distance, BlockStat, ErrorLevelAnalyzer, ErrorStats, ErrorTexts, MAX_LONG_EDGE,
};
use paddock_forensics::pixel::jpeg_forensics::{BlockResidualStats, JpegForensicsAnalyzer};
use paddock_forensics::pixel::jpeg_ghost::{block_mse_cpu, JpegGhostDetector, Sweep};
use paddock_forensics::pixel::qtable_fingerprint::{
    extract_qtables, identify_qtable_origin, scale_qtable, standard_profiles, sum_table,
    QtableFingerprintAnalyzer,
};
use paddock_forensics::pixel::thumbnail_check::ThumbnailChecker;
use paddock_forensics::raster::{Frame, Picture};

fn key(v: f64) -> i64 {
    v.to_bits() as i64
}

fn codes(f: &Vec<Finding>) -> Vec<&str> {
    f.iter().map(|x| x.code.as_str()).collect()
}

/// A colour raster with structure at several scales.
fn texture(w: u32, h: u32) -> Vec<u8> {
    let mut v = Vec::new();
    for y in 0..h {
        for x in 0..w {
            v.push(((x * 7 + y * 3) % 256) as u8);
            v.push((x * y % 251) as u8);
            v.push(if (x / 5 + y / 5) % 2 == 0 { 40 } else { 200 });
        }
    }
    v
}

fn jpeg(rgb: &[u8], w: u32, h: u32, quality: u8) -> Vec<u8> {
    let mut out = Vec::new();
    JpegEncoder::new_with_quality(&mut out, quality)
        .encode(rgb, w, h, ExtendedColorType::Rgb8)
        .unwrap();
    out
}

fn png(rgb: &[u8], w: u32, h: u32) -> Vec<u8> {
    let mut out = Vec::new();
    PngEncoder::new(&mut out).write_image(rgb, w, h, ExtendedColorType::Rgb8).unwrap();
    out
}

fn reference_quality(ratio: f64) -> u8 {
    let quality = if ratio < 1.0 {
        (50.0 / ratio).round().min(100.0) as u8
    } else {
        (50.0 * (2.0 - ratio)).round().max(1.0) as u8
    };
    quality.clamp(1, 100)
}

#[test]
fn qualities_follow_the_ratio_as_doubles_do() {
    for den in 1..=121u16 {
        for num in 1..=520u16 {
            let expected = reference_quality(num as f64 / den as f64);
            assert_eq!(quality_of(Ratio { num, den }), expected, "{num} / {den}");
        }
    }
    for num in (1..=65535u16).step_by(17) {
        for den in [1, 3, 7, 16, 99, 121, 1000, 65535u16] {
            let expected = reference_quality(num as f64 / den as f64);
            assert_eq!(quality_of(Ratio { num, den }), expected, "{num} / {den}");
        }
    }
}

#[test]
fn the_quality_of_a_file_is_estimated() {
    let rgb = texture(64, 48);
    for quality in [30u8, 50, 75, 90, 95] {
        let file = jpeg(&rgb, 64, 48, quality);
        let tables = extract_quantization_tables(&file);
        assert!(!tables.is_empty());
        let standard = standard_table();
        let mut ratios: Vec<f64> = (0..64)
            .filter(|&i| standard[i] > 0 && tables[0][i] > 0)
            .map(|i| tables[0][i] as f64 / standard[i] as f64)
            .collect();
        ratios.sort_by(|a, b| a.partial_cmp(b).unwrap());
        let expected = reference_quality(ratios[ratios.len() / 2]);
        assert_eq!(estimate_jpeg_quality(&file), Some(expected));
        let sorted = sorted_ratios(&tables[0]);
        assert_eq!(sorted.len(), ratios.len());
        for (r, v) in sorted.iter().zip(&ratios) {
            assert_eq!(r.num as f64 / r.den as f64, *v);
        }
        assert_eq!(ErrorLevelAnalyzer::default().quality(&file), expected);
    }
    assert_eq!(estimate_jpeg_quality(b"not a jpeg"), None);
    assert_eq!(estimate_jpeg_quality(&[0xFF, 0xD8, 0xFF, 0xD9]), None);
    let fallback = ErrorLevelAnalyzer::default();
    assert_eq!(fallback.quality(b"plain"), fallback.resave_quality);
}

#[test]
fn payloads_are_cut_out_of_segments() {
    let mut file = vec![0xFF, 0xD8, 0xFF, 0xEB, 0, 11, 1, 2, 3, 4, 5, 6, 7, 8, 9];
    file.extend([0xFF, 0xEB, 0, 5, 7, 7, 7, 0xFF, 0xE0, 0, 3, 9, 0xFF, 0xD9, 0, 0, 0]);
    assert_eq!(app11_payloads(&file), vec![vec![1u8, 2, 3, 4, 5, 6, 7, 8, 9]]);
    assert!(app11_payloads(&file[..12]).is_empty());
}

#[test]
fn error_levels_are_distances() {
    let analyzer = ErrorLevelAnalyzer::default();
    assert_eq!(distance(3, 250), 247);
    assert_eq!(distance(250, 3), 247);
    let a = [10u8, 20, 30, 0, 0, 0];
    let b = [13u8, 15, 30, 255, 255, 255];
    assert_eq!(analyzer.pixel_errors(&a, &b), vec![8, 765]);
    assert_eq!(analyzer.pixel_errors(&a, &a), vec![0, 0]);
    assert_eq!(analyzer.count_hot(&vec![90, 91, 765, 0]), 2);
    assert!(analyzer.too_small(40, 500));
    assert!(!analyzer.too_small(500, 500));
}

#[test]
fn large_pictures_are_scaled_before_error_levels() {
    let analyzer = ErrorLevelAnalyzer::default();
    let rgb = texture(1000, 20);
    let picture = Picture::decode(&png(&rgb, 1000, 20)).unwrap();
    let frame = analyzer.prepare(&picture);
    assert_eq!((frame.width, frame.height), (MAX_LONG_EDGE, 16));
    let small = Picture::decode(&png(&texture(90, 60), 90, 60)).unwrap();
    let same = analyzer.prepare(&small);
    assert_eq!((same.width, same.height), (90, 60));
    assert_eq!(same.samples, small.rgb);
    let planes = analyzer.resaved_planes(&same, 80).unwrap();
    let qualities = analyzer.qualities(80);
    assert_eq!(planes.len(), qualities.len());
    for (plane, q) in planes.iter().zip(qualities) {
        assert_eq!(Some(plane.clone()), same.resave(q));
    }
}

fn error_texts() -> ErrorTexts {
    ErrorTexts {
        mean: "21.0".to_string(),
        deviation: "26.0".to_string(),
    }
}

#[test]
fn error_levels_are_reported() {
    let analyzer = ErrorLevelAnalyzer::default();
    let stats = |mean: f64, deviation: f64, hotspots: u64, high: u64| ErrorStats {
        mean: key(mean),
        deviation: key(deviation),
        hotspots,
        pixels: 1000,
        high,
        low: 0,
        blocks: 100,
        quality: 90,
    };
    assert!(analyzer.emit_findings(&stats(1.0, 1.0, 0, 0), &error_texts()).is_empty());
    let all = analyzer.emit_findings(&stats(21.0, 26.0, 900, 90), &error_texts());
    assert_eq!(
        codes(&all),
        vec!["ela_high_mean_error", "ela_uneven_error", "ela_hotspot_regions", "ela_block_outliers"]
    );
    assert!(all[3].description.starts_with("90.0% of blocks are statistical ELA outliers (90 high, 0 low"));
    assert_eq!(f64::from_bits(all[3].confidence), 0.85);
    let mut none = stats(21.0, 26.0, 900, 90);
    none.blocks = 0;
    assert!(analyzer.emit_findings(&none, &error_texts()).is_empty());
    let map = vec![0u16; 20];
    assert!(analyzer.small_image_findings(key(20.0), key(25.0), &map, &error_texts()).is_empty());
    let small = analyzer.small_image_findings(key(20.1), key(1.0), &vec![91; 20], &error_texts());
    assert_eq!(codes(&small), vec!["ela_high_mean_error", "ela_hotspot_regions"]);
    assert_eq!(
        small[0].description,
        "ELA mean error level 21.0 exceeds threshold - possible re-save or composite"
    );
    assert_eq!(f64::from_bits(small[0].confidence), 0.5);
}

#[test]
fn hot_pixels_are_counted_by_block() {
    let analyzer = ErrorLevelAnalyzer::default();
    let mut errors = vec![key(1.0); 32 * 16];
    errors[3] = key(16.0);
    errors[4] = key(14.0);
    errors[20] = key(16.0);
    let hot = analyzer.count_hotspots(&errors, 32, 16, &vec![key(10.0), key(20.0)]);
    assert_eq!(hot, 1);
    let stat = |mean: f64, normalized: f64| BlockStat {
        mean_error: key(mean),
        normalized: key(normalized),
    };
    let blocks = vec![stat(3.0, 5.0), stat(3.0, 0.1), stat(0.1, 0.1), stat(3.0, 1.0)];
    assert_eq!(analyzer.count_outliers(&blocks, key(2.0), key(0.5)), (1, 1));
}

#[test]
fn squared_errors_of_blocks() {
    let a = vec![10u8; 64 * 64 * 3];
    let mut b = a.clone();
    b[0] = 13;
    b[100] = 6;
    assert_eq!(block_mse_cpu(&a, &b, 64, 64, 0, 0), 25);
    assert_eq!(block_mse_cpu(&a, &a, 64, 64, 0, 0), 0);
}

#[test]
fn ghosts_deviate_from_the_dominant_quality() {
    let detector = JpegGhostDetector;
    let ladder = detector.qualities();
    assert_eq!(ladder.len(), 7);
    let mut errors = vec![vec![100u64; 10]; 7];
    for b in 0..10 {
        let rung: usize = if b == 9 { 0 } else { 4 };
        errors[rung][b] = 1;
    }
    let sweep = detector.sweep(&errors, 10);
    assert_eq!(sweep.dominant, ladder[4]);
    assert_eq!(sweep.ghosts, 1);
    let difference = ladder[0] as i64 - ladder[4] as i64;
    assert_eq!((sweep.least, sweep.largest), (difference, difference));
    let report = detector.report(sweep, 10);
    assert_eq!(codes(&report), vec!["jpeg_ghost_detected", "jpeg_quality_estimate"]);
    assert!(report[0].description.starts_with("10.0% of image blocks"));
    let quiet = Sweep { dominant: 90, ghosts: 8, least: -30, largest: 10 };
    assert_eq!(codes(&detector.report(quiet, 10)), vec!["jpeg_quality_estimate"]);
}

#[test]
fn a_saved_image_is_nearest_to_its_own_quality() {
    let detector = JpegGhostDetector;
    let ladder = detector.qualities();
    let flat = Frame { width: 128, height: 128, samples: texture(128, 128), monochrome: false };
    for rung in [1usize, 4] {
        let saved = flat.resave(ladder[rung]).unwrap();
        let frame = Frame { width: 128, height: 128, samples: saved, monochrome: false };
        let errors = detector.ladder_errors(&frame).unwrap();
        assert_eq!(errors.len(), 7);
        let sweep = detector.sweep(&errors, 4);
        assert_eq!(sweep.dominant, ladder[rung]);
        assert_eq!(detector.analyze(&frame), detector.report(sweep, 4));
    }
    let tiny = Frame { width: 20, height: 20, samples: texture(20, 20), monochrome: false };
    assert!(detector.ladder_errors(&tiny).is_none());
    assert!(detector.analyze(&tiny).is_empty());
}

#[test]
fn large_pictures_are_scaled_before_the_sweep() {
    let detector = JpegGhostDetector;
    assert!(detector.too_large(600, 500));
    assert!(!detector.too_large(500, 500));
    let picture = Picture::decode(&png(&texture(60, 40), 60, 40)).unwrap();
    assert_eq!(detector.prepare(&picture, None).samples, picture.rgb);
    let scaled = detector.prepare(&picture, Some((30, 30)));
    assert_eq!((scaled.width, scaled.height), (30, 20));
}

#[test]
fn first_digits_and_periods() {
    let detector = DoubleJpegDetector;
    assert_eq!(
        detector.count_digits(&vec![1, 19, 200, 7, 0, 999, 10]),
        vec![3, 1, 0, 0, 0, 0, 1, 0, 1]
    );
    assert_eq!(detector.dominant_period(&vec![3, 5, 3, 5, 2]), 3);
    assert_eq!(detector.dominant_period(&Vec::new()), 0);
    assert!(detector.report_periodicity(2, 20, 3, "1.2").is_none());
    let f = detector.report_periodicity(4, 20, 3, "1.2").unwrap();
    assert_eq!(f.code, "double_jpeg_periodicity");
    assert!(f.description.starts_with("Double JPEG compression detected: 20.0% of DCT"));
    assert_eq!(f64::from_bits(f.confidence), (0.55 + 0.2 * 0.4f64).min(0.90));
    assert!(detector.report_digits(999, key(1.0), key(1.0), "1.0", "1.0", 0).is_none());
    assert!(detector.report_digits(1000, key(0.019), key(0.001), "0.01", "0.0", 0).is_none());
    let f = detector.report_digits(1000, key(0.5), key(0.2), "0.5", "0.2", 1).unwrap();
    assert_eq!((f.code.as_str(), f.severity), ("benfords_law_violation", Severity::High));
}

#[test]
fn grids_are_summed_by_position() {
    let detector = DoubleJpegDetector;
    let (w, h) = (32usize, 24usize);
    let mut g = vec![50u8; w * h];
    for y in 0..h {
        for x in 0..w {
            if x >= 11 {
                g[y * w + x] = 60;
            }
        }
    }
    let sums = detector.grid_sums(&g, w, h);
    assert_eq!(sums.across_sum.iter().sum::<u64>(), 10 * h as u64);
    assert_eq!(sums.across_count.iter().sum::<u64>(), ((w - 1) * h) as u64);
    assert_eq!(sums.down_sum.iter().sum::<u64>(), 0);
    let mut grid = vec![key(1.0); 64];
    grid[0] = key(9.0);
    grid[8 * 2 + 5] = key(3.0);
    let o = detector.strongest_offset(&grid);
    assert_eq!((o.x, o.y, o.strength), (5, 2, key(3.0)));
    assert!(detector.report_grid(o, key(3.0), "0.0").is_none());
    let f = detector.report_grid(o, key(2.0), "50.0").unwrap();
    assert!(f.description.starts_with("JPEG blocking grid at offset (5,2) is 50.0% stronger"));
    let unshifted = Offset { x: 0, y: 0, strength: key(1.0) };
    assert!(detector.report_grid(unshifted, key(1.5), "0.0").is_none());
}

#[test]
fn grids_part_into_boundaries_and_the_rest() {
    let detector = DoubleJpegDetector;
    let (w, h) = (40usize, 33usize);
    let rgb = texture(w as u32, h as u32);
    let gray: Vec<u8> = rgb.chunks_exact(3).map(|p| p[1]).collect();
    let sums = detector.grid_sums(&gray, w, h);
    for oy in 0..8usize {
        for ox in 0..8usize {
            let (mut on, mut on_count, mut off, mut off_count) = (0u128, 0u128, 0u128, 0u128);
            let mut put = |boundary: bool, a: u8, b: u8| {
                if boundary {
                    on += a.abs_diff(b) as u128;
                    on_count += 1;
                } else {
                    off += a.abs_diff(b) as u128;
                    off_count += 1;
                }
            };
            for y in 0..h {
                for x in 1..w {
                    put((x + ox) % 8 == 0, gray[y * w + x], gray[y * w + x - 1]);
                }
            }
            for y in 1..h {
                for x in 0..w {
                    put((y + oy) % 8 == 0, gray[y * w + x], gray[(y - 1) * w + x]);
                }
            }
            let p = detector.grid_parts(&sums, ox, oy);
            assert_eq!(
                (p.boundary_sum, p.boundary_count, p.inner_sum, p.inner_count),
                (on, on_count, off, off_count)
            );
        }
    }
    assert!(detector.has_grid(32, 32));
    assert!(!detector.has_grid(31, 100));
}

#[test]
fn coefficients_are_counted_by_value() {
    let detector = DoubleJpegDetector;
    let bins = detector.coefficient_histogram(&vec![0, 5, -1024, 1024, 1025, -1025, 5]);
    assert_eq!(bins.len(), COEFFICIENT_BINS);
    assert_eq!((bins[1024], bins[1029], bins[0], bins[2048]), (1, 2, 1, 1));
    assert_eq!(bins.iter().sum::<u32>(), 5);
    assert!(!detector.is_tested(&detector.coefficient_histogram(&vec![0; 500])));
    assert!(!detector.is_tested(&detector.coefficient_histogram(&vec![3; 99])));
    assert!(detector.is_tested(&detector.coefficient_histogram(&vec![3; 100])));
}

#[test]
fn tables_are_reported() {
    let detector = DoubleJpegDetector;
    let quiet = detector.analyze_qtable_forensics(0, key(0.1), "0.10", 85);
    assert_eq!(codes(&quiet), vec!["jpeg_quality_estimate"]);
    let odd = detector.analyze_qtable_forensics(1, key(0.2), "0.20", 85);
    assert_eq!(codes(&odd), vec!["non_standard_quantization", "jpeg_quality_estimate"]);
}

#[test]
fn tables_have_fingerprints() {
    let base = standard_table();
    let same = scale_qtable(&base, 50);
    assert_eq!(same, base);
    let fine = scale_qtable(&base, 100);
    assert!(fine.iter().all(|&v| v == 1));
    let coarse = scale_qtable(&base, 1);
    assert!(coarse.iter().all(|&v| v == 255));
    assert_eq!(scale_qtable(&base, 75)[0], (base[0] * 50 + 50) / 100);
    assert_eq!(standard_profiles().len(), 20);
    assert_eq!(sum_table(&[2; 64]), 128);
    assert_eq!(identify_qtable_origin(&base), None);
    assert_eq!(identify_qtable_origin(&[4; 64]), Some("image editor (flat Q-table)"));
    let mut adobe = base;
    adobe[0] = 2;
    adobe[1] = 1;
    adobe[2] = 1;
    assert_eq!(identify_qtable_origin(&adobe), Some("Adobe Photoshop (high quality)"));
}

#[test]
fn fingerprints_of_files() {
    let analyzer = QtableFingerprintAnalyzer;
    let file = jpeg(&texture(40, 40), 40, 40, 80);
    let tables = analyzer.tables_of(&file);
    assert_eq!(tables, extract_qtables(&file));
    assert!(!tables.is_empty());
    assert!(analyzer.tables_of(b"plain text").is_empty());
    assert!(analyzer.report(&Vec::new(), key(0.1), "10", "1.00").is_empty());
    assert!(analyzer.report(&vec![standard_table()], key(0.9), "90", "1.00").is_empty());
    let flat = analyzer.report(&vec![[4; 64]], key(0.1), "10", "1.00");
    assert_eq!(flat.len(), 2);
}

#[test]
fn coefficients_are_counted() {
    let analyzer = JpegForensicsAnalyzer;
    let block = |mean: f64, aligned: f64, non_zero_count: usize| BlockResidualStats {
        mean_fractional: key(mean),
        integer_alignment_ratio: key(aligned),
        non_zero_count,
    };
    let blocks = vec![block(0.1, 0.6, 20), block(0.9, 0.6, 20), block(0.9, 0.1, 20)];
    assert!(analyzer.count_artifact_free(&blocks, key(0.5)) <= 2);
    assert_eq!(analyzer.count_above_fence(&blocks, key(0.5)), 2);
    let signal: Vec<i64> = [0.0, 1.0, 0.0, 3.0, 0.0, 2.0, 0.0].iter().map(|&v| key(v)).collect();
    assert_eq!(analyzer.count_peaks(&signal, key(1.5)), 2);
    assert!(analyzer.detect_double_compression_coefficients(1000, 0).is_none());
}

#[test]
fn thumbnails_are_compared_at_their_size() {
    let checker = ThumbnailChecker;
    let rgb = texture(80, 60);
    let main = png(&rgb, 80, 60);
    let pair = checker.load(&main, &png(&texture(40, 30), 40, 30)).unwrap();
    assert_eq!((pair.thumbnail.width, pair.thumbnail.height), (40, 30));
    assert_eq!(pair.main_rgb.len(), 40 * 30 * 3);
    assert_eq!(pair.main_gray.len(), 40 * 30);
    let itself = checker.load(&main, &main).unwrap();
    assert_eq!(checker.compute_mse(&itself.main_rgb, &itself.thumbnail.rgb), 0);
    assert!(checker.load(&main, b"no thumbnail").is_none());
    assert!(checker.usable(160, 120));
    assert!(!checker.usable(1025, 1));
    assert_eq!(checker.compute_mse(&[1, 2, 3], &[4, 2, 1]), 13);
}

#[test]
fn thumbnails_that_differ_are_reported() {
    let checker = ThumbnailChecker;
    assert!(checker.report(0, 100, key(0.99), "0.0", "0.990").is_none());
    let minor = checker.report(20_001, 100, key(0.99), "200.0", "0.990").unwrap();
    assert_eq!(minor.code, "thumbnail_minor_mismatch");
    let mismatch = checker.report(50_001, 100, key(0.99), "500.0", "0.990").unwrap();
    assert_eq!(mismatch.code, "thumbnail_mismatch");
    assert_eq!(checker.report(0, 100, key(0.84), "0.0", "0.840").unwrap().code, "thumbnail_mismatch");
    let close = checker.report(0, 100, key(0.86), "0.0", "0.860").unwrap();
    assert_eq!(close.code, "thumbnail_minor_mismatch");
    assert_eq!(
        close.description,
        "EXIF thumbnail shows minor differences from main image (MSE=0.0, SSIM=0.860) - possible post-processing"
    );
}

#[test]
fn histograms_have_a_strongest_period() {
    let detector = DoubleJpegDetector;
    let n = 400usize;
    let mut power = vec![key(1.0); 200];
    power[50] = key(9.0);
    power[80] = key(7.0);
    power[100] = key(20.0);
    assert_eq!(detector.strongest_period(&power, n, 3), Some((50, 8)));
    assert_eq!(detector.strongest_period(&power, n, 8), Some((80, 5)));
    assert_eq!(detector.strongest_period(&vec![0; 200], n, 3), None);
    for step in [1u32, 2, 7, 40] {
        let flat: Vec<i64> = (0..200).map(|k| key(((k * 37) % 101) as f64)).collect();
        let (mut best, mut most) = (0usize, 0.0f64);
        for k in 2..100usize {
            let power = ((k * 37) % 101) as f64;
            if power > most && (n as f64 / k as f64 - step as f64).abs() >= 1.0 {
                best = k;
                most = power;
            }
        }
        let period = (n as f64 / best as f64).round() as u32;
        assert_eq!(detector.strongest_period(&flat, n, step), Some((best, period)));
    }
    assert!(detector.is_significant(key(0.06), key(2.0), key(1.0), 2));
    assert!(!detector.is_significant(key(0.05), key(2.0), key(1.0), 2));
    assert!(!detector.is_significant(key(0.06), key(1.0), key(1.0), 2));
    assert!(!detector.is_significant(key(0.06), key(2.0), key(1.0), 1));
}
