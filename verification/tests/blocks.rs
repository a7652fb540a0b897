//! Block statistics: noise, gaps, edges, colours, wavelets, resampling and counter-forensics.

use paddock_forensics::finding::{Finding, Region, Severity};
use paddock_forensics::pixel::anti_forensics::{AntiForensicsDetector, Technique};
use paddock_forensics::pixel::channel_correlation::ChannelCorrelationAnalyzer;
use paddock_forensics::pixel::color_consistency::{ColorConsistencyAnalyzer, TOTAL_BINS};
use paddock_forensics::pixel::edge_sharpness::EdgeSharpnessAnalyzer;
use paddock_forensics::pixel::histogram_analysis::{BlockGaps, HistogramGapAnalyzer};
use paddock_forensics::pixel::noise::{NoiseAnalyzer, NoiseNumbers, NoiseSummary};
use paddock_forensics::pixel::resampling::ResamplingDetector;
use paddock_forensics::pixel::screenshot_detection::{ColorUse, ScreenshotDetector, Steps};
use paddock_forensics::pixel::upscaling_detection::{Factor, UpscalingDetector};
use paddock_forensics::pixel::wavelet_consistency::{Metric, WaveletConsistencyAnalyzer};
use paddock_forensics::robust::Scored;

fn key(v: f64) -> i64 {
    v.to_bits() as i64
}

fn codes(f: &Vec<Finding>) -> Vec<&str> {
    f.iter().map(|x| x.code.as_str()).collect()
}

/// Samples that look random but are not.
fn grain(w: usize, h: usize) -> Vec<u8> {
    let mut state = 12345u32;
    (0..w * h)
        .map(|_| {
            state = state.wrapping_mul(1664525).wrapping_add(1013904223);
            (state >> 24) as u8
        })
        .collect()
}

#[test]
fn noise_is_the_median_diagonal_detail() {
    let analyzer = NoiseAnalyzer;
    let (w, h) = (96usize, 64usize);
    let gray = grain(w, h);
    let twice = analyzer.medians(&gray, w, h);
    assert_eq!(twice.len(), 6);
    for (b, m) in twice.iter().enumerate() {
        let (x0, y0) = ((b % 3) * 32, (b / 3) * 32);
        let mut details: Vec<f64> = Vec::new();
        for py in 0..16 {
            for px in 0..16 {
                let at = |x: usize, y: usize| gray[y * w + x] as f64;
                let (x, y) = (x0 + 2 * px, y0 + 2 * py);
                let hh = (at(x, y) - at(x + 1, y) - at(x, y + 1) + at(x + 1, y + 1)) / 2.0;
                details.push(hh.abs());
            }
        }
        details.sort_by(|a, b| a.partial_cmp(b).unwrap());
        assert_eq!(*m as f64 / 2.0, details[details.len() / 2]);
        assert_eq!(*m, analyzer.block_median_hh_cpu(&gray, w, h, x0, y0));
    }
    assert_eq!(analyzer.medians(&vec![9; w * h], w, h), vec![0; 6]);
}

#[test]
fn noise_levels_are_reported() {
    let analyzer = NoiseAnalyzer;
    let levels: Vec<i64> = (1..=8).map(|v| key(v as f64)).collect();
    let q = analyzer.quartiles(&levels);
    assert_eq!((q.lower, q.median, q.upper), (key(3.0), key(5.0), key(7.0)));
    assert_eq!(
        analyzer.count_anomalous(&levels, key(2.0), key(1.5), key(6.5), key(7.5)),
        (1, 1)
    );
    let numbers = NoiseNumbers {
        median2: "0.50".to_string(),
        median3: "0.500".to_string(),
        variation: "0.60".to_string(),
        kurtosis: "4.00".to_string(),
        confidence: 5,
    };
    let summary = |low: usize, variation: f64, median: f64, kurtosis: Option<f64>| NoiseSummary {
        blocks: 100,
        low,
        high: 0,
        variation: key(variation),
        median: key(median),
        kurtosis: kurtosis.map(key),
    };
    assert!(analyzer.emit_findings(&summary(8, 0.5, 0.8, Some(3.0)), &numbers).is_empty());
    assert_eq!(analyzer.emit_findings(&summary(9, 0.1, 2.0, None), &numbers).len(), 1);
    assert_eq!(analyzer.emit_findings(&summary(0, 0.51, 0.79, Some(3.1)), &numbers).len(), 3);
}

#[test]
fn gaps_are_runs_of_missing_values() {
    let analyzer = HistogramGapAnalyzer;
    let mut hist = [0u32; 256];
    for v in [10usize, 11, 12, 15, 16, 20, 21, 22, 24, 40] {
        hist[v] = 1;
    }
    assert_eq!(analyzer.count_gaps(&hist), 3);
    let mut narrow = [0u32; 256];
    narrow[5] = 1;
    narrow[14] = 1;
    assert_eq!(analyzer.count_gaps(&narrow), 0);
    let full = [1u32; 256];
    assert_eq!(analyzer.count_gaps(&full), 0);
    let gray: Vec<u8> = (0..128 * 64).map(|i| ((i % 32) * 4) as u8).collect();
    assert_eq!(analyzer.global_gaps(&gray, 128, 64), 31);
    let blocks = analyzer.block_gaps(&gray, 128, 64);
    let found: Vec<(usize, usize)> = blocks.iter().map(|b| (b.block, b.gaps)).collect();
    assert_eq!(found, vec![(0, 31), (1, 31)]);
    let h = analyzer.compute_histogram(&gray, 0, 0, 32, 2, 128);
    assert_eq!(h[4], 2);
    assert_eq!(h.iter().sum::<u32>(), 64);
}

#[test]
fn gaps_are_reported() {
    let analyzer = HistogramGapAnalyzer;
    let some: Vec<BlockGaps> = (0..2).map(|block| BlockGaps { block, gaps: 3 + block }).collect();
    let both = analyzer.report(16, &some, 4, 4);
    assert_eq!(codes(&both), vec!["histogram_global_gaps", "histogram_localized_gaps"]);
    assert_eq!(both[0].severity, Severity::Medium);
    assert_eq!(
        both[1].region,
        Some(Region::BoundingBox { x: 0, y: 0, width: 128, height: 64 })
    );
    assert_eq!(f64::from_bits(both[0].confidence), 0.70);
    assert_eq!(f64::from_bits(both[1].confidence), 0.45 + 0.125 * 0.5);
    assert!(both[1].description.starts_with("2 of 16 blocks (12.5%) show histogram gaps (max 4 "));
    assert!(analyzer.report(4, &Vec::new(), 4, 4).is_empty());
    for gaps in 5..=256usize {
        let f = analyzer.report(gaps, &Vec::new(), 4, 4);
        let expected = (0.40 + gaps as f64 * 0.02).min(0.70);
        assert_eq!(f64::from_bits(f[0].confidence), expected, "{gaps} gaps");
    }
    let gray: Vec<u8> = (0..192 * 192).map(|i| ((i % 32) * 4) as u8).collect();
    let all = analyzer.analyze(&gray, 192, 192);
    assert_eq!(codes(&all), vec!["histogram_global_gaps"]);
    assert!(analyzer.analyze(&gray[..191 * 192], 192, 191).is_empty());
}

#[test]
fn edges_are_sampled() {
    let analyzer = EdgeSharpnessAnalyzer;
    let (w, h) = (32usize, 32usize);
    let mut gray = vec![0u8; w * h];
    for y in 0..h {
        for x in 16..w {
            gray[y * w + x] = 100;
        }
    }
    let edges = analyzer.block_samples(&gray, w, h, 0, 0);
    assert_eq!(edges.len(), 2 * 28);
    assert!(edges.iter().all(|e| e.squared == 160_000 && e.laplacian == 100));
    assert!(analyzer.block_samples(&vec![7; w * h], w, h, 0, 0).is_empty());
    let f = analyzer.report_edges(true, &vec![1, 2], 4, 4, key(6.0), "6.0", 3);
    assert_eq!((f.code.as_str(), f.severity), ("edge_sharpness_unnaturally_sharp", Severity::High));
    assert!(analyzer.report_bimodal(3, 2, 10).is_none());
    assert!(analyzer.report_bimodal(4, 2, 60).is_none());
    let f = analyzer.report_bimodal(4, 3, 60).unwrap();
    assert_eq!(f64::from_bits(f.confidence), (0.50f64 + 7.0 / 60.0).min(0.85));
    assert!(f.description.starts_with("11.7% of blocks have anomalous edge sharpness (4 sharp, 3"));
}

#[test]
fn correlations_are_reported() {
    let analyzer = ChannelCorrelationAnalyzer;
    let f = analyzer.report(4, "3.5", key(3.5), 5, 4, 4, 9);
    assert_eq!(f.severity, Severity::Medium);
    assert_eq!(f.region, Some(Region::BoundingBox { x: 32, y: 32, width: 32, height: 32 }));
}

#[test]
fn colours_fall_into_bins() {
    let analyzer = ColorConsistencyAnalyzer;
    let (w, h) = (128usize, 64usize);
    let mut rgb = vec![0u8; w * h * 3];
    for y in 0..h {
        for x in 64..w {
            rgb[(y * w + x) * 3] = 255;
            rgb[(y * w + x) * 3 + 1] = 32;
        }
    }
    let histograms = analyzer.compute_histograms_cpu(&rgb, w, h);
    assert_eq!(histograms.len(), 2);
    assert_eq!(histograms[0][0], 4096);
    assert_eq!(histograms[1][7 * 64 + 8], 4096);
    for h in &histograms {
        assert_eq!(h.len(), TOTAL_BINS);
        assert_eq!(h.iter().sum::<u32>(), 4096);
    }
    let scored: Vec<Scored> =
        [0usize, 1, 15].iter().map(|&index| Scored { index, score: key(4.0) }).collect();
    assert_eq!(analyzer.cluster_blocks(&scored, 4, 4).len(), 2);
    let clusters = analyzer.select_clusters(&scored, 4, 4);
    assert_eq!(clusters.len(), 1);
    assert_eq!(clusters[0].count, 2);
    let f = analyzer.report(clusters[0], "4.0", 1);
    assert_eq!(f.region, Some(Region::BoundingBox { x: 0, y: 0, width: 128, height: 64 }));
    assert!(analyzer.select_clusters(&scored[..2].to_vec(), 4, 4).is_empty());
}

#[test]
fn blocks_are_cut_into_quads() {
    let analyzer = WaveletConsistencyAnalyzer;
    let gray: Vec<u8> = (0..40 * 40).map(|i| (i % 251) as u8).collect();
    let quads = analyzer.block_quads(&gray, 40, 40, 8, 4);
    assert_eq!(quads.len(), 256);
    let q = quads[17];
    let at = |x: usize, y: usize| gray[y * 40 + x];
    assert_eq!((q.a, q.b, q.c, q.d), (at(10, 6), at(11, 6), at(10, 7), at(11, 7)));
    let active = analyzer.active_blocks(&vec![key(0.0), key(1e-8), key(2e-8)]);
    assert_eq!(active, vec![false, false, true]);
    let names: Vec<String> = [Metric::Diagonal, Metric::Detail, Metric::Direction]
        .into_iter()
        .map(|m| analyzer.report(m, 3, "4.0", key(4.0), 0, 4, 4, 1).code)
        .collect();
    assert_eq!(
        names,
        vec!["wavelet_hh_suppression", "wavelet_detail_anomaly", "wavelet_directional_anomaly"]
    );
}

#[test]
fn traces_of_counter_forensics_are_sampled() {
    let detector = AntiForensicsDetector;
    let (w, h) = (64usize, 48usize);
    let gray = grain(w, h);
    let samples = detector.block_samples(&gray, w, h, 32, 8);
    assert_eq!(samples.len(), 900);
    for (i, s) in samples.iter().enumerate() {
        let (x, y) = (33 + i % 30, 9 + i / 30);
        let at = |x: usize, y: usize| gray[y * w + x];
        assert_eq!((s.centre, s.right, s.below), (at(x, y), at(x + 1, y), at(x, y + 1)));
        let mut around: Vec<u8> = Vec::new();
        for ny in y - 1..=y + 1 {
            for nx in x - 1..=x + 1 {
                around.push(at(nx, ny));
            }
        }
        around.sort();
        assert_eq!(s.median, around[4]);
    }
    let mut expected = vec![0u32; 32];
    for s in &samples {
        let share = s.centre as f64 / 255.0;
        expected[((share * 31.999) as usize).min(31)] += 1;
    }
    assert_eq!(detector.intensity_bins(&samples), expected);
}

#[test]
fn every_intensity_has_the_bin_that_doubles_give() {
    let detector = AntiForensicsDetector;
    for v in 0..=255u8 {
        let gray = vec![v; 32 * 32];
        let samples = detector.block_samples(&gray, 32, 32, 0, 0);
        let bins = detector.intensity_bins(&samples);
        let expected = ((v as f64 / 255.0 * 31.999) as usize).min(31);
        assert_eq!(bins[expected], 900);
    }
}

#[test]
fn counter_forensics_is_reported() {
    let detector = AntiForensicsDetector;
    assert!(detector.is_gaussian(key(3.4), key(0.4)));
    assert!(!detector.is_gaussian(key(3.6), key(0.6)));
    assert!(!detector.is_gaussian(key(0.0), key(0.1)));
    let blocks = vec![0usize, 5];
    let f = detector.report_technique(Technique::MedianFilter, &blocks, 4, 4, key(4.0), "4.0", 1);
    assert_eq!(f.code, "anti_forensics_median_filter");
    let f = detector.report_technique(
        Technique::HistogramEqualization,
        &blocks,
        4,
        4,
        key(6.0),
        "6.0",
        1,
    );
    assert_eq!(f.severity, Severity::High);
    assert_eq!(f.region, Some(Region::BoundingBox { x: 0, y: 0, width: 64, height: 64 }));
    let f = detector.report_injection(&blocks, 4, 4, 16);
    assert!(f.description.starts_with("2 blocks (12.5%) show Gaussian noise"));
    assert_eq!(f64::from_bits(f.confidence), (0.45 + 0.125 * 0.8f64).min(0.80));
}

#[test]
fn second_differences_of_lines() {
    let detector = ResamplingDetector;
    let gray: Vec<u8> = vec![0, 1, 4, 9, 16, 5, 5, 5, 5, 5];
    assert_eq!(detector.differences(&gray, 5, 2, true, 0), vec![2, 2, 2]);
    assert_eq!(detector.differences(&gray, 5, 2, true, 1), vec![0, 0, 0]);
    let tall: Vec<u8> = vec![1, 0, 3, 0, 9, 0];
    assert_eq!(detector.differences(&tall, 2, 3, false, 0), vec![4]);
    let big = grain(70, 66);
    let cut = detector.cut_block(&big, 70, 66, 3, 2);
    assert_eq!(cut.len(), 4096);
    assert_eq!(cut[65], big[3 * 70 + 4]);
    let mixed = detector.report(key(0.1), key(0.1), "0.10", "0.10", 4, 9);
    assert_eq!(codes(&mixed), vec!["resampling_inconsistency"]);
    assert!(mixed[0].description.contains(": 44.4% of blocks show"));
    assert!(mixed[0].description.contains("while 55.6% do not"));
    assert_eq!(f64::from_bits(mixed[0].confidence), (0.55 + 4.0 / 9.0 * 0.3f64).min(0.85));
    assert!(detector.is_resampled(key(0.41)));
    assert!(!detector.is_resampled(key(0.40)));
}

#[test]
fn upscaling_factors() {
    let detector = UpscalingDetector;
    let f = detector.detect_factor(&vec![key(0.5), key(0.7), key(0.6)]);
    assert_eq!((f.factor, f.correlation), (3, key(0.7)));
    let none = detector.detect_factor(&vec![key(0.4), key(0.1), key(0.2)]);
    assert_eq!(none.factor, 0);
    assert!(detector.report_periodicity(none, "0.00", 1).is_none());
    let f = detector.report_periodicity(Factor { factor: 2, correlation: key(0.5) }, "0.50", 1);
    assert!(f.unwrap().description.starts_with("Second derivative shows 2× periodicity"));
    let flat = detector.block_energies(&vec![10; 64 * 64], 64, 64);
    assert_eq!((flat[0].detail, flat[0].total), (0, 1600 * 1024));
    let stripes: Vec<u8> = (0..64 * 64).map(|i| if i % 2 == 0 { 10 } else { 0 }).collect();
    let e = detector.block_energies(&stripes, 64, 64);
    assert_eq!((e[0].detail, e[0].total), (400 * 1024, 800 * 1024));
    assert_eq!(detector.middle_differences(&vec![0, 1, 4, 9], 4, 1), vec![2, 2]);
}

#[test]
fn screens_have_few_colours() {
    let detector = ScreenshotDetector;
    let rgb: Vec<u8> = (0..256u32 * 3).map(|i| ((i / 3) / 4 * 4) as u8).collect();
    let used = detector.color_use(&rgb);
    assert_eq!((used.red, used.green, used.blue, used.quantized), (64, 64, 64, 3));
    assert!(detector.detect_color_quantization(used).is_some());
    let natural: Vec<u8> = (0..256u32 * 3).map(|i| (i / 3) as u8).collect();
    let used = detector.color_use(&natural);
    assert_eq!((used.red, used.quantized), (256, 0));
    let plain = ColorUse { red: 256, green: 256, blue: 256, quantized: 1 };
    assert!(detector.detect_color_quantization(plain).is_none());
}

#[test]
fn screens_have_a_pixel_grid() {
    let detector = ScreenshotDetector;
    let steps = detector.pixel_steps(&vec![7; 9 * 9], 9, 9);
    assert_eq!((steps.sum, steps.largest), (0, 0));
    let quiet = Steps { sum: 100, largest: 10, count: 100 };
    assert!(detector.detect_pixel_grid(quiet, key(10.0), "1.0", "10.0").is_none());
}

/// The keys of the variance of a line and of its autocorrelations.
fn measured(line: &[u8], lags: usize) -> (i64, Vec<i64>) {
    let line: Vec<f64> = line.iter().map(|&v| v as f64).collect();
    let n = line.len() as f64;
    let mean = line.iter().sum::<f64>() / n;
    let variance = line.iter().map(|v| (v - mean).powi(2)).sum::<f64>() / n;
    let correlations = (2..2 + lags)
        .map(|lag| {
            let c = (0..line.len() - lag)
                .map(|i| (line[i] - mean) * (line[i + lag] - mean))
                .sum::<f64>()
                / (n * variance);
            if c < 0.0 { -key(-c) } else { key(c) }
        })
        .collect();
    (key(variance), correlations)
}

#[test]
fn screens_have_moire() {
    let detector = ScreenshotDetector;
    assert_eq!((detector.lags(64), detector.lags(100), detector.lags(200)), (14, 23, 30));
    assert_eq!((detector.lags(8), detector.lags(11), detector.lags(12)), (0, 0, 1));
    let (w, h) = (200usize, 70usize);
    let gray: Vec<u8> = (0..w * h).map(|i| if i % w % 8 < 4 { 150 } else { 100 }).collect();
    let (row, column) = detector.middle_lines(&gray, w, h);
    let (row, column) = (row.unwrap(), column.unwrap());
    assert_eq!(row[..], gray[35 * w..36 * w]);
    assert_eq!(column, vec![100; 70]);
    let (variance, correlations) = measured(&row, detector.lags(w));
    assert!(detector.check_periodicity(variance, &correlations));
    let (variance, _) = measured(&column, 0);
    assert!(!detector.check_periodicity(variance, &vec![]));
    assert!(detector.scan_line(&gray, w, 0, false, 63).is_none());
    // The exact variance of this line is one; in double precision it is a little less.
    let line: Vec<u8> =
        [3, 2, 1, 1, 0, 0, 0, 0, 0, 3, 1, 1, 0, 0, 0, 0, 0, 0].repeat(5);
    let (variance, correlations) = measured(&line, detector.lags(90));
    assert_eq!(variance, key(0.9999999999999996));
    assert!(!detector.check_periodicity(variance, &correlations));
    assert!(detector.check_periodicity(key(1.0), &vec![key(0.31), key(0.4), key(0.5)]));
    assert!(!detector.check_periodicity(key(1.0), &vec![key(0.3), key(0.3), key(0.5)]));
    assert!(!detector.check_periodicity(key(9.0), &vec![key(0.9), key(0.8), key(0.7)]));
    assert!(detector.detect_moire(false, false).is_none());
    let both = detector.detect_moire(true, true).unwrap();
    assert!(both.description.starts_with("Periodic pattern detected in horizontal and vertical "));
    let down = detector.detect_moire(false, true).unwrap();
    assert!(down.description.starts_with("Periodic pattern detected in vertical direction"));
    assert_eq!(f64::from_bits(down.confidence), 0.55);
}

#[test]
fn histograms_of_neighbours_add_up() {
    let analyzer = HistogramGapAnalyzer;
    let (w, h) = (40usize, 20usize);
    let gray = grain(w, h);
    let left = analyzer.compute_histogram(&gray, 3, 2, 7, 11, w);
    let right = analyzer.compute_histogram(&gray, 10, 2, 9, 11, w);
    let both = analyzer.compute_histogram(&gray, 3, 2, 16, 11, w);
    for v in 0..256 {
        assert_eq!(both[v], left[v] + right[v]);
    }
    assert_eq!(both.iter().sum::<u32>(), 16 * 11);
}

#[test]
fn gaps_depend_on_missing_values() {
    let analyzer = HistogramGapAnalyzer;
    let mut hist = [0u32; 256];
    for v in [10usize, 11, 14, 20, 21, 22, 40, 42, 50] {
        hist[v] = v as u32;
    }
    let gaps = analyzer.count_gaps(&hist);
    assert_eq!(gaps, 4);
    let pattern = hist.map(|n| n.min(1));
    assert_eq!(analyzer.count_gaps(&pattern), gaps);
    let mut mirrored = hist;
    mirrored.reverse();
    assert_eq!(analyzer.count_gaps(&mirrored), gaps);
    assert_eq!(analyzer.count_gaps(&[0; 256]), 1);
}

#[test]
fn few_blocks_are_not_compared() {
    let wavelet = WaveletConsistencyAnalyzer;
    let mut active = vec![true; 8];
    active.push(false);
    assert!(!wavelet.enough_active(&active));
    active[8] = true;
    assert!(wavelet.enough_active(&active));
    let detector = AntiForensicsDetector;
    assert!(detector.enough_blocks(9) && !detector.enough_blocks(8));
}

#[test]
fn lines_are_sampled_about_a_hundred_times() {
    let detector = ResamplingDetector;
    assert_eq!(detector.sampled_lines(5), vec![0, 1, 2, 3, 4]);
    for lines in [1usize, 99, 200, 250, 1234] {
        let expected: Vec<usize> = (0..lines).step_by((lines / 100).max(1)).collect();
        assert_eq!(detector.sampled_lines(lines), expected);
    }
    assert!(detector.sampled_lines(0).is_empty());
    assert_eq!((detector.lags(15), detector.lags(16), detector.lags(63)), (None, Some(4), Some(15)));
    assert_eq!(detector.lags(500), Some(16));
    let c: Vec<i64> = [9.0, 1.0, 3.0, 2.0, 4.0, 1.0, 2.0].iter().map(|&v| key(v)).collect();
    assert_eq!(detector.secondary_peaks(&c), vec![2, 4]);
    assert!(detector.secondary_peaks(&c[..4].to_vec()).is_empty());
    let upscaling = UpscalingDetector;
    assert!(upscaling.carries_signal(32, key(0.1)));
    assert!(!upscaling.carries_signal(31, key(0.1)) && !upscaling.carries_signal(32, key(0.09)));
}

#[test]
fn blocks_stand_out_by_the_rules_of_their_analyzer() {
    let scored = |z: &[f64]| -> Vec<Scored> {
        z.iter().enumerate().map(|(index, &v)| Scored { index, score: key(v) }).collect()
    };
    let two = scored(&[3.1, 3.6, 3.0]);
    let three = scored(&[3.1, 3.6, 3.7]);
    let high = scored(&[3.6, 3.8, 3.7]);
    let edges = EdgeSharpnessAnalyzer;
    assert!(edges.carries_signal(9, key(1e-6)) && !edges.carries_signal(8, key(1.0)));
    assert_eq!(edges.stand_out(&two).unwrap().items.len(), 2);
    assert!(edges.stand_out(&scored(&[3.1])).is_none());
    assert_eq!(edges.count_anomalous(&scored(&[3.1, 3.0])), 1);
    let channels = ChannelCorrelationAnalyzer;
    assert!(channels.carries_signal(9, key(1e-6)) && !channels.carries_signal(9, key(9e-7)));
    assert!(channels.stand_out(&two).is_none());
    assert_eq!(channels.stand_out(&three).unwrap().strongest, 2);
    assert_eq!(channels.comparable(3, 2).len(), 6);
    assert!(channels.comparable(3, 1).is_empty());
    let colors = ColorConsistencyAnalyzer;
    assert!(colors.carries_signal(9, key(1e-6)) && !colors.carries_signal(8, key(1e-6)));
    assert!(colors.stand_out(&three).is_none());
    assert_eq!(colors.stand_out(&high).unwrap().strongest, 1);
    assert_eq!(colors.neighbours(7, 1, 3), vec![1, 2, 4, 5]);
    let wavelet = WaveletConsistencyAnalyzer;
    assert!(wavelet.carries_signal(9, key(1e-8)) && !wavelet.carries_signal(9, key(9e-9)));
    assert!(wavelet.stand_out(&two).is_none() && wavelet.stand_out(&three).is_some());
    let mut active = vec![true; 6];
    active[1] = false;
    let compared = wavelet.comparable(&active, 6, 1);
    let pairs: Vec<(usize, Vec<usize>)> = compared.into_iter().map(|c| (c.block, c.near)).collect();
    assert_eq!(pairs, vec![(2, vec![0, 3, 4]), (3, vec![2, 4, 5]), (4, vec![2, 3, 5])]);
    let hidden = AntiForensicsDetector;
    assert!(hidden.carries_signal(key(1e-10)) && !hidden.carries_signal(key(9e-11)));
    assert!(hidden.stand_out(&two).is_none() && hidden.stand_out(&three).is_some());
}
