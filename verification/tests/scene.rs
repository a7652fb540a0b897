//! Light, shadows, lines, lenses, sensors and clones.

use paddock_forensics::finding::{Finding, Region, Severity};
use paddock_forensics::hough::{LineGap, Support};
use paddock_forensics::pixel::block_matching::{feature_order, Center};
use paddock_forensics::pixel::cfa::{
    BayerPattern, BlockCfaResult, CfaAnalyzer, CfaTexts, StrengthStats,
};
use paddock_forensics::pixel::chromatic::{ChromaticAberrationAnalyzer, ChromaticNumbers};
use paddock_forensics::pixel::copy_move::{CopyMoveDetector, Match};
use paddock_forensics::pixel::dof_consistency::{DofConsistencyAnalyzer, Transition};
use paddock_forensics::pixel::frequency::{
    Band, FrequencyAnalyzer, SpectrumStats, SpectrumTexts,
};
use paddock_forensics::pixel::geometric::{GeometricConsistencyAnalyzer, LineBreak};
use paddock_forensics::pixel::illumination::{BlockTexts, IlluminationAnalyzer};
use paddock_forensics::pixel::lighting_consistency::LightingConsistencyAnalyzer;
use paddock_forensics::pixel::prnu::{PrnuAnalyzer, PrnuNumbers};
use paddock_forensics::pixel::prnu_cross_region::PrnuCrossRegionAnalyzer;
use paddock_forensics::pixel::shadow_consistency::{
    ShadowConsistencyAnalyzer, TwoDirections, SEPARATION, TOLERANCE,
};
use paddock_forensics::pixel::vanishing_point::{
    Crossing, Divergence, Half, PlaneCell, VanishingPointAnalyzer, PARALLEL,
};
use paddock_forensics::robust::Scored;

fn key(v: f64) -> i64 {
    if v < 0.0 {
        -((-v).to_bits() as i64)
    } else {
        v.abs().to_bits() as i64
    }
}

fn codes(f: &Vec<Finding>) -> Vec<&str> {
    f.iter().map(|x| x.code.as_str()).collect()
}

fn grain(n: usize) -> Vec<u8> {
    let mut state = 7u32;
    (0..n)
        .map(|_| {
            state = state.wrapping_mul(1664525).wrapping_add(1013904223);
            (state >> 24) as u8
        })
        .collect()
}

/// A raster with an upright step at column `at`.
fn step(w: usize, h: usize, at: usize, low: u8, high: u8) -> Vec<u8> {
    (0..w * h).map(|i| if i % w < at { low } else { high }).collect()
}

#[test]
fn sharpness_jumps_between_blocks() {
    let analyzer = DofConsistencyAnalyzer;
    let gray = step(64, 64, 30, 0, 100);
    let edges = analyzer.block_edges(&gray, 64, 64, 0, 0);
    assert_eq!(edges, vec![160_000; 2 * 62]);
    let pairs = analyzer.adjacencies(3, 2);
    let found: Vec<(usize, usize)> = pairs.iter().map(|p| (p.first, p.second)).collect();
    assert_eq!(found, vec![(0, 1), (1, 2), (3, 4), (4, 5), (0, 3), (1, 4), (2, 5)]);
    let t = |block: usize, jump: f64| Transition { block, jump: key(jump) };
    let j = analyzer.count_jumps(&vec![t(0, 0.5), t(1, 0.7), t(2, 1.2), t(3, 0.61)]);
    assert_eq!((j.count, j.largest, j.block), (3, key(1.2), 2));
    assert!(analyzer.concentrated(3, 100));
    assert!(!analyzer.concentrated(2, 50));
    assert!(!analyzer.concentrated(30, 100));
    let f = analyzer.report(j, 3, 2, 100, "120");
    assert!(f.description.starts_with("3 abrupt blur transitions detected (3.0% of block"));
    assert_eq!(f64::from_bits(f.confidence), (0.40 + 0.03 * 3.0f64).min(0.75));
    assert_eq!(f.severity, Severity::High);
    assert_eq!(f.region, Some(Region::BoundingBox { x: 128, y: 0, width: 128, height: 64 }));
}

#[test]
fn residuals_of_a_region() {
    let analyzer = PrnuCrossRegionAnalyzer;
    let gray = vec![10u8, 10, 10, 10, 30, 10, 10, 10, 10];
    let r = analyzer.extract_residual(&gray, 3, 3);
    assert_eq!(r, vec![0, 0, 0, 0, 160, 0, 0, 0, 0]);
    let correlations = vec![key(0.5), key(0.01), key(0.02)];
    let w = analyzer.analyze_correlations(&correlations, &vec![key(0.1), key(3.0), key(2.6)]);
    assert_eq!((w.count, w.least, w.region), (2, key(0.01), 1));
    let f = analyzer.report(w, 12, "0.010", 1).unwrap();
    assert!(f.description.starts_with("2 of 12 image regions"));
    assert!(f.description.contains("at region [1,0]"));
    let none = analyzer.analyze_correlations(&correlations, &vec![key(0.1); 3]);
    assert!(analyzer.report(none, 12, "0.0", 1).is_none());
}

#[test]
fn lit_blocks_are_marked() {
    let analyzer = LightingConsistencyAnalyzer;
    assert_eq!(analyzer.active_blocks(&vec![key(0.001), key(0.0011)]), vec![false, true]);
    let f = analyzer.report(3, 30, "4.0", key(4.0), 5, 4, 4);
    assert_eq!(f64::from_bits(f.confidence), (0.40 + 0.1 * 1.5f64).min(0.80));
    assert_eq!(f.region, Some(Region::BoundingBox { x: 64, y: 64, width: 64, height: 64 }));
}

#[test]
fn shadows_have_directions() {
    let analyzer = ShadowConsistencyAnalyzer;
    assert_eq!(TOLERANCE, key(35.0f64.to_radians()));
    assert_eq!(SEPARATION, key(30.0f64.to_radians()));
    let samples: Vec<u8> = (0..100).collect();
    assert_eq!(analyzer.compute_dark_threshold(&samples), 29);
    let gray = step(64, 64, 30, 50, 70);
    let pixels = analyzer.boundary_pixels(&gray, 64, 64, 0, 0, 60);
    assert_eq!(pixels.len(), 62);
    assert!(pixels.iter().all(|p| p.x == 29 && p.gradient.gx == 80 && p.gradient.gy == 0));
    assert!(analyzer.brighter(66, 50));
    assert!(!analyzer.brighter(65, 50));
    assert!(analyzer.bears_shadow(15, key(0.31)));
    assert!(!analyzer.bears_shadow(14, key(0.9)));
    assert!(!analyzer.bears_shadow(15, key(0.3)));
    let deviations: Vec<i64> =
        [10.0f64, 36.0, 90.0, 35.0].iter().map(|d| key(d.to_radians())).collect();
    assert_eq!(analyzer.count_odd(&deviations), (2, key(90.0f64.to_radians())));
    assert_eq!(analyzer.count_odd(&Vec::new()), (0, 0));
    assert!(analyzer.stands_apart(key(0.4), key(0.3), key(1.0)));
    assert!(!analyzer.stands_apart(key(0.3), key(0.3), key(1.0)));
    let mut weights = vec![key(0.0); 36];
    weights[0] = key(2.0);
    weights[18] = key(3.0);
    let peaks: Vec<usize> = analyzer.find_peaks(&weights).iter().map(|p| p.bin).collect();
    assert_eq!(peaks, vec![18, 0]);
}

#[test]
fn shadows_are_reported() {
    let analyzer = ShadowConsistencyAnalyzer;
    assert!(analyzer.report(2, 10, "50", &None).is_empty());
    let f = analyzer.report(4, 10, "50", &None);
    assert!(f[0].description.starts_with("4 of 10 shadow-bearing blocks (40%) have"));
    assert_eq!(f64::from_bits(f[0].confidence), (0.40 + 0.4 * 0.8f64).min(0.80));
    assert_eq!((f[0].code.as_str(), f[0].severity), ("shadow_direction_inconsistency", Severity::High));
    let two = TwoDirections {
        first: "10".to_string(),
        second: "120".to_string(),
        separation: "110".to_string(),
        confidence: 9,
    };
    let f = analyzer.report(0, 10, "0", &Some(two));
    assert_eq!((f[0].code.as_str(), f[0].confidence), ("shadow_bimodal_direction", 9));
}

#[test]
fn light_is_measured_by_band() {
    let analyzer = IlluminationAnalyzer;
    let ranges: Vec<(u8, u8)> = (0..5u8).map(|b| analyzer.band_range(b)).collect();
    assert_eq!(ranges, vec![(0, 50), (51, 101), (102, 152), (153, 203), (204, 254)]);
    let gray = step(20, 10, 10, 60, 90);
    let lit = analyzer.gradients(&gray, 20, 10, 0, 0, 20, 10, 0, 255);
    assert_eq!(lit.len(), 2 * 8);
    assert!(lit.iter().all(|p| p.gradient.gx == 120));
    assert_eq!(analyzer.gradients(&gray, 20, 10, 0, 0, 20, 10, 80, 255).len(), 8);
    let texts = || BlockTexts {
        direction: "10".to_string(),
        variance: "0.400".to_string(),
        probability: "0.1000".to_string(),
    };
    assert!(analyzer.analyze_block_consistency(key(0.3), 5, 10, &texts()).is_none());
    assert!(analyzer.analyze_block_consistency(key(0.4), 1, 10, &texts()).is_none());
    let f = analyzer.analyze_block_consistency(key(0.4), 2, 10, &texts()).unwrap();
    assert!(f.description.starts_with("Illumination direction inconsistency: 20.0% of blocks"));
    assert_eq!(f64::from_bits(f.confidence), (0.45 + 0.2 * 0.4f64).min(0.80));
    assert!(analyzer.analyze_band_consistency(key(0.52), "30", "40", 1).is_none());
    assert!(analyzer.analyze_band_consistency(key(0.53), "30", "40", 1).is_some());
}

#[test]
fn broken_lines_are_reported() {
    let analyzer = GeometricConsistencyAnalyzer;
    let gray = step(64, 64, 30, 0, 200);
    assert!(analyzer.check_edge_at(&gray, 30, 5, 64, 64));
    assert!(!analyzer.check_edge_at(&gray, 5, 5, 64, 64));
    assert!(!analyzer.check_edge_at(&gray, 0, 0, 64, 64));
    let gradients = analyzer.block_gradients(&gray, 64, 64, 0, 0);
    assert_eq!(gradients.len(), 2 * 62);
    assert!(gradients.iter().all(|g| g.gx == 800 && g.gy == 0));
    assert!(analyzer.is_active(10) && !analyzer.is_active(9));
    let mut support = Vec::new();
    for x in 0..200usize {
        support.push(Support { edge: !(90..110).contains(&x), x, y: 50 });
    }
    let gaps = analyzer.line_gaps(&support, 200, 200);
    assert_eq!(gaps.len(), 1);
    let b = |confidence: u64| LineBreak {
        theta: "90".to_string(),
        votes: 180,
        gap: LineGap { ..gaps[0] },
        confidence,
    };
    let one = analyzer.report_line_gaps(&vec![b(1)]);
    assert_eq!(one.len(), 1);
    for n in 4..12usize {
        let many = analyzer.report_line_gaps(&(0..n).map(|_| b(1)).collect());
        assert_eq!(many.len(), 4);
        assert_eq!(many[3].code, "geometric_multiple_line_breaks");
        assert_eq!(f64::from_bits(many[3].confidence), (0.55 + 0.05 * n as f64).min(0.85));
    }
    assert!(analyzer.inconsistent(2, 10));
    assert!(!analyzer.inconsistent(1, 10));
    assert!(!analyzer.inconsistent(2, 101));
    let f = analyzer.report_orientation(3, 10, 1, 2, 2);
    assert!(f.description.starts_with("3 of 10 blocks (30.0%) show"));
    assert_eq!(f64::from_bits(f.confidence), (0.45 + 0.3 * 2.0f64).min(0.80));
    assert_eq!(f.region, Some(Region::BoundingBox { x: 64, y: 0, width: 64, height: 64 }));
}

fn crossing(x: f64, y: f64, angle: f64, distance: f64, column: f64) -> Crossing {
    Crossing {
        x: key(x),
        y: key(y),
        angle: key(angle),
        distance: key(distance),
        first_column: key(column),
        second_column: key(column),
        first_row: key(1.0),
        second_row: key(90.0),
    }
}

#[test]
fn halves_have_vanishing_points() {
    let analyzer = VanishingPointAnalyzer;
    assert_eq!(PARALLEL, key(5.0f64.to_radians()));
    let mut all = Vec::new();
    for i in 0..3 {
        all.push(crossing(10.0 + i as f64, -5.0 * i as f64, 0.5, 10.0, 20.0));
        all.push(crossing(80.0 + i as f64, 30.0, 0.5, 10.0, 70.0));
    }
    all.push(crossing(0.0, 0.0, 0.01, 10.0, 20.0));
    all.push(crossing(0.0, 0.0, 0.5, 1000.0, 20.0));
    let kept = analyzer.keep_crossings(&all, key(500.0)).unwrap();
    assert_eq!(kept, all[..6].to_vec());
    assert!(analyzer.keep_crossings(&all[..4].to_vec(), key(500.0)).is_none());
    let centre = key(50.0);
    let left = analyzer.point_of(&kept, Half { sideways: true, low: true }, centre);
    assert_eq!(left, Some((key(11.0), key(-5.0))));
    let right = analyzer.point_of(&kept, Half { sideways: true, low: false }, centre);
    assert_eq!(right, Some((key(81.0), key(30.0))));
    assert!(analyzer.point_of(&kept, Half { sideways: false, low: true }, centre).is_none());
    let f = analyzer.report(true, "70", "20.0", key(0.2), 1).unwrap();
    assert_eq!((f.code.as_str(), f.severity), ("vanishing_point_inconsistency", Severity::Medium));
    assert!(analyzer.report(true, "70", "15.0", key(0.15), 1).is_none());
    let f = analyzer.report(false, "70", "31.0", key(0.31), 1).unwrap();
    assert_eq!(f.code, "vanishing_point_vertical_inconsistency");
    assert_eq!(f.severity, Severity::High);
}

#[test]
fn crossings_gather_in_cells() {
    let analyzer = VanishingPointAnalyzer;
    let cell = |x: i64, y: i64| PlaneCell { x, y };
    let mut cells = vec![cell(0, 0); 5];
    let alone = analyzer.cluster_intersections(&cells);
    cells.extend(vec![cell(50, 50); 5]);
    let both = analyzer.cluster_intersections(&cells);
    assert_eq!((alone, both), (1, 2));
    assert!(analyzer.gather_apart(&cells));
    assert!(!analyzer.gather_apart(&vec![cell(3, 3); 9]));
}

#[test]
fn bayer_patterns_sample_every_channel() {
    for p in BayerPattern::all() {
        let mut counts = [0usize; 3];
        for row in 0..2usize {
            for col in 0..2usize {
                counts[p.channel_at(row, col)] += 1;
            }
        }
        assert_eq!(counts, [1, 2, 1]);
    }
    assert_eq!(BayerPattern::Rggb.channel_at(1, 1), 2);
    assert_eq!(BayerPattern::Gbrg.name(), "Gbrg");
}

#[test]
fn interpolation_leaves_residuals() {
    let analyzer = CfaAnalyzer;
    let (w, h) = (10usize, 8usize);
    let rgb = grain(w * h * 3);
    let r = analyzer.compute_interpolation_residual(&rgb, w, h, 2, 1, 6, 5);
    assert_eq!(r.len(), 30);
    for i in 0..30usize {
        let (dx, dy) = (i % 6, i / 6);
        if dx == 0 || dx == 5 || dy == 0 || dy == 4 {
            assert_eq!(r[i], 0);
        } else {
            let at = |x: usize, y: usize| rgb[(y * w + x) * 3 + 1] as i64;
            let (x, y) = (2 + dx, 1 + dy);
            let around = at(x, y - 1) + at(x, y + 1) + at(x - 1, y) + at(x + 1, y);
            assert_eq!(r[i], 4 * at(x, y) - around);
        }
    }
    let b = analyzer.best_pattern(&vec![key(1.0), key(3.0), key(3.0), key(2.0)]);
    assert_eq!((b.peak_strength, b.best_pattern), (key(3.0), BayerPattern::Bggr));
}

#[test]
fn filter_arrays_are_reported() {
    let analyzer = CfaAnalyzer;
    let texts = CfaTexts {
        mean: "2.00".to_string(),
        variation: "0.50".to_string(),
    };
    let block = |strength: f64, best_pattern: BayerPattern| BlockCfaResult {
        peak_strength: key(strength),
        best_pattern,
    };
    let mut blocks = vec![block(2.0, BayerPattern::Rggb); 9];
    blocks.push(block(1.6, BayerPattern::Bggr));
    let stats = |mean: f64, low: f64| StrengthStats {
        mean: key(mean),
        variation: key(0.5),
        low: key(low),
    };
    assert_eq!(analyzer.count_absent(&blocks, key(1.7)), 1);
    assert_eq!(analyzer.count_mismatched(&blocks, BayerPattern::Rggb), 1);
    let all = analyzer.report(&blocks, Some(BayerPattern::Rggb), stats(2.0, 1.7), &texts);
    assert_eq!(codes(&all), vec!["cfa_peak_absent", "cfa_pattern_mismatch"]);
    assert!(all[0].description.starts_with("CFA spectral peak absent in 10.0% of blocks"));
    assert!(all[1].description.starts_with("CFA Bayer pattern mismatch: 10.0% of blocks"));
    let none = analyzer.report(&blocks, None, stats(2.0, 1.0), &texts);
    assert!(none.is_empty());
    let flat = analyzer.report(&blocks, None, stats(0.5, 0.0), &texts);
    assert_eq!(codes(&flat), vec!["no_cfa_artifacts"]);
    assert!(analyzer.report(&Vec::new(), None, stats(0.5, 0.0), &texts).is_empty());
}

#[test]
fn clones_share_a_displacement() {
    let detector = CopyMoveDetector::default();
    let pair = |x: u32, y: u32, dx: u32, dy: u32| Match { x1: x, y1: y, x2: x + dx, y2: y + dy };
    let mut matches: Vec<Match> = (0..12).map(|i| pair(10 + i, 20 + i, 100, 50)).collect();
    matches.push(pair(0, 0, 3, 200));
    let picks = vec![12usize, 0, 3];
    let kept = detector.ransac_filter(&matches, &picks);
    assert_eq!(kept, matches[..12].to_vec());
    assert_eq!(detector.ransac_filter(&matches, &vec![25]), vec![matches[12]]);
    assert_eq!(detector.ransac_inlier_threshold, 8);
    let spread = vec![pair(9, 9, 40, 40), pair(8, 9, 47, 40), pair(7, 9, 48, 40), pair(6, 9, 45, 45)];
    let near = detector.ransac_filter(&spread, &vec![0]);
    assert_eq!(near, vec![spread[0], spread[1], spread[3]]);
    let groups = detector.cluster_by_displacement(&matches);
    assert_eq!((groups[0].shift.dx, groups[0].shift.dy), (96, 48));
    assert_eq!(groups[0].members.len(), 12);
    let n = detector.min_cluster_size;
    let f = detector.report(&groups);
    assert_eq!(f.len(), groups.iter().filter(|g| g.members.len() >= n).count());
    for count in 8..100u32 {
        let pairs: Vec<Match> = (0..count).map(|i| pair(10 + i, 20, 200, 50)).collect();
        let f = detector.report(&detector.cluster_by_displacement(&pairs));
        let expected = (0.65 + (count as f64 / 80.0).min(0.30)).min(0.95);
        assert_eq!(f64::from_bits(f[0].confidence), expected, "{count} pairs");
    }
    assert!(detector.far_apart(0, 0, 500, 500));
    assert!(!detector.far_apart(0, 0, 1, 1));
}

#[test]
fn blocks_are_matched_in_order_of_their_features() {
    let features = vec![vec![2, 1], vec![1, 9], vec![2, 0], vec![1, 9]];
    assert_eq!(feature_order(&features, 2), vec![1, 3, 2, 0]);
    let detector = CopyMoveDetector::default();
    let centers = detector.block_centers(100, 80);
    let (r, s) = (detector.block_radius as u32, detector.stride as u32);
    let mut expected = Vec::new();
    let mut y = r;
    while y < 80 - r {
        let mut x = r;
        while x < 100 - r {
            expected.push(Center { x, y });
            x += s;
        }
        y += s;
    }
    assert_eq!(centers, expected);
    let far = vec![Center { x: 0, y: 0 }, Center { x: 900, y: 900 }, Center { x: 1, y: 1 }];
    let pairs = detector.candidate_pairs(&far, &vec![0, 1, 2]);
    assert_eq!(pairs, vec![(0, 1), (1, 2)]);
    let distances = vec![key(0.1), key(0.2)];
    let matches = detector.select_matches(&far, &pairs, &distances);
    assert_eq!(matches, vec![Match { x1: 0, y1: 0, x2: 900, y2: 900 }]);
}

#[test]
fn spectra_are_reported() {
    let analyzer = FrequencyAnalyzer;
    let texts = SpectrumTexts {
        exponent: "1.00".to_string(),
        flatness: "0.700".to_string(),
        peak: "4.0".to_string(),
        mid: "0.600".to_string(),
        high: "0.010".to_string(),
    };
    let stats = |exponent: f64, flatness: f64, high: f64, mid: f64, ratio: f64| SpectrumStats {
        spectral_exponent: key(exponent),
        spectral_flatness: key(flatness),
        high_freq_ratio: key(high),
        mid_freq_ratio: key(mid),
        periodic_peaks_detected: true,
        azimuthal_peak_ratio: key(ratio),
    };
    assert!(analyzer.report(stats(2.0, 0.5, 0.1, 0.3, 2.0), &texts).is_empty());
    let all = analyzer.report(stats(1.0, 0.7, 0.01, 0.6, 4.0), &texts);
    assert_eq!(
        codes(&all),
        vec![
            "spectral_exponent_anomaly",
            "flat_spectrum",
            "gan_spectral_peaks",
            "mid_freq_anomaly",
            "low_high_freq_energy"
        ]
    );
    assert_eq!(codes(&analyzer.report(stats(3.3, 0.5, 0.1, 0.3, 2.0), &texts)).len(), 1);
    assert!(analyzer.too_large(801, 10) && analyzer.too_large(10, 601));
    assert!(!analyzer.too_large(800, 600));
    let mut powers: Vec<i64> = (1..=9).map(|v| key(v as f64)).collect();
    powers.push(key(0.0));
    assert!(analyzer.azimuthal_median(&powers).is_none());
    powers.push(key(0.5));
    let (kept, median) = analyzer.azimuthal_median(&powers).unwrap();
    assert_eq!((kept.len(), median), (10, key(5.0)));
    let peaks = vec![key(9.0), key(9.0), key(1.0)];
    assert!(analyzer.detect_periodic_peaks(&peaks, key(4.0), key(5.0)));
    assert!(!analyzer.detect_periodic_peaks(&peaks, key(3.0), key(5.0)));
    assert!(!analyzer.detect_periodic_peaks(&peaks, key(4.0), key(10.0)));
}

#[test]
fn bands_part_the_spectrum() {
    let analyzer = FrequencyAnalyzer;
    for (w, h) in [(64usize, 64usize), (101, 64), (160, 90), (90, 203)] {
        let (cx, cy) = (w / 2, h / 2);
        let most = cx.min(cy) as f64;
        for y in 0..h {
            for x in 0..w {
                let sx = ((x + cx) % w) as f64 - cx as f64;
                let sy = ((y + cy) % h) as f64 - cy as f64;
                let radius = (sx * sx + sy * sy).sqrt();
                let expected = if radius < 1.0 || radius >= most {
                    None
                } else if radius / most > 0.75 {
                    Some(Band::High)
                } else if radius / most > 0.25 {
                    Some(Band::Mid)
                } else {
                    Some(Band::Low)
                };
                assert_eq!(analyzer.band_of(x, y, w, h), expected);
            }
        }
    }
}

#[test]
fn regions_are_sampled_evenly() {
    let analyzer = PrnuCrossRegionAnalyzer;
    assert_eq!(analyzer.sampled_pixels(99), None);
    assert_eq!(analyzer.sampled_pixels(150), Some((0..150).collect()));
    let sampled = analyzer.sampled_pixels(30_005).unwrap();
    let mut expected = Vec::new();
    for i in 0..30_005usize {
        if (i + 1) % 3 == 0 {
            expected.push(i);
        }
    }
    assert_eq!(sampled, expected);
}

#[test]
fn samples_are_drawn_reproducibly() {
    let analyzer = ChromaticAberrationAnalyzer;
    let mut state = 42u64;
    let mut expected = Vec::new();
    for _ in 0..500 {
        let mut draw = || {
            state = state.wrapping_mul(6364136223846793005).wrapping_add(1442695040888963407);
            (state >> 33) as usize % 10
        };
        let (a, b, c) = (draw(), draw(), draw());
        if a != b && b != c && a != c {
            expected.push((a, b, c));
        }
    }
    let drawn: Vec<(usize, usize, usize)> =
        analyzer.samples(10).iter().map(|t| (t.a, t.b, t.c)).collect();
    assert_eq!(drawn, expected);
    assert!(analyzer.samples(2).is_empty());
}

#[test]
fn channels_have_gradients() {
    let analyzer = ChromaticAberrationAnalyzer;
    let (w, h) = (64usize, 64usize);
    let mut rgb = vec![0u8; w * h * 3];
    for y in 0..h {
        for x in 30..w {
            rgb[(y * w + x) * 3 + 1] = 50;
        }
    }
    let red = analyzer.block_gradients(&rgb, w, h, 0, 0, 0);
    assert_eq!((red.gx.len(), red.gx.iter().sum::<i64>()), (3844, 0));
    let green = analyzer.block_gradients(&rgb, w, h, 0, 0, 1);
    assert_eq!(green.gx.iter().sum::<i64>(), 2 * 62 * 200);
    assert_eq!(analyzer.count_edges(&rgb, w, h, 0, 0), 124);
    let numbers = ChromaticNumbers {
        mean_rg: "0.0".to_string(),
        mean_bg: "0.0".to_string(),
        a: "0.1".to_string(),
        b: "0.2".to_string(),
    };
    assert!(analyzer.report_absent(key(0.009), key(0.009), &numbers).is_some());
    assert!(analyzer.report_absent(key(0.01), key(0.009), &numbers).is_none());
    let f = analyzer.report_fit(2, 3, 10, &numbers);
    assert_eq!(codes(&f), vec!["chromatic_aberration_inconsistency", "ca_model_poor_fit"]);
    assert!(f[0].description.starts_with("Chromatic aberration inconsistency: 20.0% of edge"));
    assert_eq!(f64::from_bits(f[0].confidence), (0.55 + 0.2 * 0.4f64).min(0.85));
    assert!(f[1].description.starts_with("Radial CA model fits only 30.0% of blocks"));
    assert!(analyzer.report_fit(1, 4, 10, &numbers).is_empty());
}

fn reference_downsample(src: &[u8], sw: usize, sh: usize, dw: usize, dh: usize) -> Vec<u8> {
    let mut dst = vec![0u8; dw * dh];
    let (rx, ry) = (sw as f64 / dw as f64, sh as f64 / dh as f64);
    for dy in 0..dh {
        let sy = dy as f64 * ry;
        let y0 = sy as usize;
        let y1 = (y0 + 1).min(sh - 1);
        let fy = sy - y0 as f64;
        for dx in 0..dw {
            let sx = dx as f64 * rx;
            let x0 = sx as usize;
            let x1 = (x0 + 1).min(sw - 1);
            let fx = sx - x0 as f64;
            let at = |x: usize, y: usize| src[y * sw + x] as f64;
            let v = (1.0 - fy) * ((1.0 - fx) * at(x0, y0) + fx * at(x1, y0))
                + fy * ((1.0 - fx) * at(x0, y1) + fx * at(x1, y1));
            dst[dy * dw + dx] = v as u8;
        }
    }
    dst
}

#[test]
fn downsampling_interpolates_as_doubles_do() {
    for (sw, sh, dw, dh) in
        [(1000usize, 37usize, 800usize, 29usize), (97, 61, 13, 60), (50, 50, 50, 50), (33, 7, 1, 1)]
    {
        let src = grain(sw * sh);
        assert_eq!(
            PrnuAnalyzer::downsample_gray(&src, sw, sh, dw, dh),
            reference_downsample(&src, sw, sh, dw, dh)
        );
    }
    let flat = vec![200u8; 90 * 70];
    assert_eq!(
        PrnuAnalyzer::downsample_gray(&flat, 90, 70, 31, 17),
        reference_downsample(&flat, 90, 70, 31, 17)
    );
}

#[test]
fn sensors_are_reported() {
    let analyzer = PrnuAnalyzer;
    assert_eq!((analyzer.align(100), analyzer.align(112)), (96, 112));
    let gray: Vec<u8> = (0..20).collect();
    assert_eq!(analyzer.crop(&gray, 5, 4, 3, 2), vec![0, 1, 2, 5, 6, 7]);
    assert_eq!(analyzer.count_weak(&vec![key(-0.1), key(0.0), key(0.2)], key(0.1)), 2);
    let numbers = PrnuNumbers {
        correlation: "0.0200".to_string(),
        energy: "12.0".to_string(),
    };
    let all = analyzer.report(2, 20, key(0.02), key(12.0), &numbers);
    assert_eq!(codes(&all), vec!["prnu_inconsistency", "prnu_absent", "low_pce"]);
    assert_eq!(all[0].severity, Severity::Critical);
    assert_eq!(f64::from_bits(all[0].confidence), (0.6 + 0.1 * 0.5f64).min(0.92));
    assert!(all[0].description.starts_with("PRNU sensor fingerprint inconsistency: 10.0% of"));
    assert!(analyzer.report(1, 20, key(0.2), key(40.0), &numbers).is_empty());
    assert!(analyzer.report(0, 20, key(-0.2), key(1.0), &numbers).is_empty());
}

#[test]
fn scenes_need_enough_evidence() {
    let geometric = GeometricConsistencyAnalyzer;
    assert!(geometric.enough_blocks(4) && !geometric.enough_blocks(3));
    let vanishing = VanishingPointAnalyzer;
    assert!(vanishing.enough_lines(4) && !vanishing.enough_lines(3));
    let lighting = LightingConsistencyAnalyzer;
    assert!(lighting.enough_active(&vec![true; 9]) && !lighting.enough_active(&vec![true; 8]));
    let shadow = ShadowConsistencyAnalyzer;
    assert!(shadow.enough_blocks(4) && !shadow.enough_blocks(3));
    assert!(shadow.enough_for_peaks(8) && !shadow.enough_for_peaks(7));
    assert!(shadow.has_two(2) && !shadow.has_two(1));
    let light = IlluminationAnalyzer;
    assert!(light.enough_blocks(4) && !light.enough_blocks(3));
    assert!(light.enough_bands(2) && !light.enough_bands(1));
    let lens = ChromaticAberrationAnalyzer;
    assert!(lens.enough_blocks(6) && !lens.enough_blocks(5));
    assert!(lens.can_refine(3) && !lens.can_refine(2));
    let sensor = PrnuAnalyzer;
    assert!(sensor.enough_blocks(4) && !sensor.enough_blocks(3));
    assert!(sensor.can_shrink(4) && !sensor.can_shrink(3));
    assert!(sensor.can_split(16, 16) && !sensor.can_split(15, 16) && !sensor.can_split(16, 15));
    let filter = CfaAnalyzer;
    assert_eq!(filter.central_square(301, 200), Some((50, 0, 200)));
    assert_eq!(filter.central_square(1000, 257), Some((372, 0, 256)));
    assert_eq!(filter.central_square(63, 500), None);
    let spectrum = FrequencyAnalyzer;
    assert!(spectrum.enough_for_slope(3) && !spectrum.enough_for_slope(2));
    assert!(spectrum.enough_for_flatness(2) && !spectrum.enough_for_flatness(1));
    let clones = CopyMoveDetector::default();
    assert!(clones.enough_centers(10) && !clones.enough_centers(9));
}

#[test]
fn lights_stand_out_among_their_neighbours() {
    let scored = |z: &[f64]| -> Vec<Scored> {
        z.iter().enumerate().map(|(index, &v)| Scored { index, score: key(v) }).collect()
    };
    let light = LightingConsistencyAnalyzer;
    assert!(light.carries_signal(9, key(1e-6)) && !light.carries_signal(8, key(1e-6)));
    assert!(light.stand_out(&scored(&[3.1, 3.2, 3.0])).is_none());
    assert_eq!(light.stand_out(&scored(&[3.1, 3.2, 3.3])).unwrap().items.len(), 3);
    assert_eq!(light.comparable(&vec![true; 4], 2, 2).len(), 4);
    assert!(light.comparable(&vec![true; 3], 3, 1).is_empty());
    let sensor = PrnuCrossRegionAnalyzer;
    assert!(sensor.carries_signal(key(1e-6)) && !sensor.carries_signal(key(9e-7)));
    let depth = DofConsistencyAnalyzer;
    assert!(depth.is_comparable(20, 20, key(1.0)));
    assert!(!depth.is_comparable(19, 20, key(1.0)) && !depth.is_comparable(20, 20, key(0.9)));
}

#[test]
fn halves_are_reported_sideways_first() {
    let analyzer = VanishingPointAnalyzer;
    let apart = |relative: f64| {
        Some(Divergence {
            distance: "90".to_string(),
            percent: "30.0".to_string(),
            relative: key(relative),
            confidence: 0.7f64.to_bits(),
        })
    };
    let both = analyzer.check_consistency(&apart(0.9), &apart(0.9));
    assert_eq!(
        codes(&both),
        vec!["vanishing_point_inconsistency", "vanishing_point_vertical_inconsistency"]
    );
    assert_eq!(
        codes(&analyzer.check_consistency(&None, &apart(0.9))),
        vec!["vanishing_point_vertical_inconsistency"]
    );
    assert!(analyzer.check_consistency(&apart(0.01), &None).is_empty());
}
