//! Documents, pasted rectangles, splices and type.

use paddock_forensics::clusters::{Cluster, Spot};
use paddock_forensics::finding::{Finding, Region, Severity};
use paddock_forensics::pixel::document_forensics::{
    report_corners, BlockSums, ClusterNumbers, Corner, DocumentForensicsAnalyzer,
};
use paddock_forensics::pixel::font_consistency::FontConsistencyAnalyzer;
use paddock_forensics::pixel::paste_rectangle::{
    adaptive_threshold_mean, compared_cells, dilate_binary, fast_noise_residual,
    find_anomaly_peaks, form_rectangles, gaussian_blur_5x5, integral, pick, tile_starts, Candidate,
    EdgeLine, PasteRectangleDetector,
};
use paddock_forensics::pixel::splice_boundary::{
    EdgeCounts, EdgeVerdict, Measured, SpliceBoundaryDetector,
};
use paddock_forensics::pixel::text_alignment::TextAlignmentAnalyzer;
use paddock_forensics::robust::Scored;

fn key(v: f64) -> i64 {
    v.to_bits() as i64
}

fn codes(f: &Vec<Finding>) -> Vec<&str> {
    f.iter().map(|x| x.code.as_str()).collect()
}

fn grain(w: usize, h: usize) -> Vec<u8> {
    let mut state = 99u32;
    (0..w * h)
        .map(|_| {
            state = state.wrapping_mul(1664525).wrapping_add(1013904223);
            (state >> 24) as u8
        })
        .collect()
}

fn clamped(v: isize, n: usize) -> usize {
    v.clamp(0, n as isize - 1) as usize
}

#[test]
fn blurring_weighs_neighbours_binomially() {
    let (w, h) = (9usize, 7usize);
    let gray = grain(w, h);
    let mut out = vec![0u8; w * h];
    gaussian_blur_5x5(&gray, &mut out, w, h);
    let weights = [1u32, 4, 6, 4, 1];
    let row = |x: usize, y: usize| -> u32 {
        let sum: u32 = (0..5)
            .map(|k| gray[y * w + clamped(x as isize + k as isize - 2, w)] as u32 * weights[k])
            .sum();
        sum / 16
    };
    for y in 0..h {
        for x in 0..w {
            let sum: u32 = (0..5)
                .map(|k| row(x, clamped(y as isize + k as isize - 2, h)) * weights[k])
                .sum();
            assert_eq!(out[y * w + x] as u32, sum / 16);
        }
    }
    let mut longer = gray.clone();
    longer.extend([0, 255, 0]);
    let mut kept = vec![77u8; w * h + 2];
    gaussian_blur_5x5(&longer, &mut kept, w, h);
    assert_eq!(kept[..w * h], out[..]);
    assert_eq!(kept[w * h..], [77, 77]);
}

#[test]
fn window_sums_come_from_corners() {
    let (w, h) = (13usize, 11usize);
    let gray = grain(w, h);
    let sums = integral(&gray, w, h);
    assert_eq!(sums.table.last().copied(), Some(gray.iter().map(|&v| v as u64).sum::<u64>()));
    let windows = fast_noise_residual(&gray, w, h, 5);
    for y in 0..h {
        for x in 0..w {
            let (x1, y1) = (x.saturating_sub(5), y.saturating_sub(5));
            let (x2, y2) = ((x + 6).min(w), (y + 6).min(h));
            let mut sum = 0u64;
            for cy in y1..y2 {
                for cx in x1..x2 {
                    sum += gray[cy * w + cx] as u64;
                }
            }
            let s = windows[y * w + x];
            assert_eq!((s.sum, s.area), (sum, ((x2 - x1) * (y2 - y1)) as u64));
        }
    }
}

#[test]
fn text_is_dark_against_its_surroundings() {
    let (w, h) = (20usize, 12usize);
    let gray = grain(w, h);
    let mask = adaptive_threshold_mean(&gray, w, h, 15, 4);
    for y in 0..h {
        for x in 0..w {
            let (x0, y0) = (x.saturating_sub(7), y.saturating_sub(7));
            let (x1, y1) = ((x + 8).min(w), (y + 8).min(h));
            let mut sum = 0.0f64;
            for cy in y0..y1 {
                for cx in x0..x1 {
                    sum += gray[cy * w + cx] as f64;
                }
            }
            let mean = sum / ((x1 - x0) * (y1 - y0)) as f64;
            assert_eq!(mask[y * w + x], gray[y * w + x] as f64 <= mean - 4.0);
        }
    }
    let detector = PasteRectangleDetector;
    let mut page = vec![240u8; 60 * 60];
    page[30 * 60 + 30] = 0;
    page[30 * 60 + 31] = 0;
    let strokes = detector.text_mask(&page, 60, 60);
    assert!(strokes[30 * 60 + 30] && !strokes[0]);
}

#[test]
fn dilation_only_adds() {
    let mut mask = vec![false; 49];
    mask[24] = true;
    mask[0] = true;
    let wide = dilate_binary(&mask, 7, 7, 3);
    for i in 0..49usize {
        let (x, y) = (i % 7, i / 7);
        let near = (x.abs_diff(3) <= 1 && y.abs_diff(3) <= 1) || (x <= 1 && y <= 1);
        assert_eq!(wide[i], near);
        assert!(wide[i] || !mask[i]);
    }
    mask.push(true);
    assert_eq!(dilate_binary(&mask, 7, 7, 3), wide);
}

#[test]
fn lines_stand_out_and_apart() {
    let mut signal = vec![key(0.1); 60];
    signal[10] = key(5.0);
    signal[20] = key(6.0);
    signal[40] = key(9.0);
    let lines = find_anomaly_peaks(&signal, key(1.0));
    let found: Vec<(usize, i64)> = lines.iter().map(|l| (l.at, l.strength)).collect();
    assert_eq!(found, vec![(40, key(9.0)), (10, key(5.0))]);
    assert!(find_anomaly_peaks(&vec![key(9.0); 4], key(1.0)).is_empty());
}

#[test]
fn lines_pair_into_rectangles() {
    let line = |at: usize| EdgeLine { at, strength: key(1.0) };
    let rects = form_rectangles(&vec![line(200), line(100)], &vec![line(10), line(90)], 50, 800);
    assert_eq!(rects.len(), 1);
    let r = &rects[0];
    assert_eq!((r.across.at, r.across.size, r.across.first, r.across.second), (100, 100, 0, 1));
    assert_eq!((r.down.at, r.down.size), (10, 80));
    assert!(form_rectangles(&vec![line(200), line(100)], &vec![line(10), line(50)], 50, 800)
        .is_empty());
}

#[test]
fn tiles_overlap_by_half() {
    assert_eq!(tile_starts(300, 128), vec![0, 64, 128]);
    assert_eq!(tile_starts(128, 128), vec![0]);
    assert!(tile_starts(100, 128).is_empty());
    let detector = PasteRectangleDetector;
    assert_eq!(detector.tile(500, 300), Some(128));
    assert_eq!(detector.tile(90, 300), Some(90));
    assert_eq!(detector.tile(500, 40), Some(40));
    assert_eq!(detector.tile(19, 300), None);
    assert!(detector.large_enough(150, 150));
    assert!(!detector.large_enough(149, 150));
}

#[test]
fn paper_pairs_leave_out_text() {
    let detector = PasteRectangleDetector;
    // Four columns, three rows; the mask marks text.
    let mut mask = vec![false; 12];
    mask[5] = true;
    assert_eq!(detector.column_pairs(&mask, 4, 3, 0, 0, 3), vec![0, 8]);
    assert_eq!(detector.column_pairs(&mask, 4, 3, 2, 0, 3), vec![2, 6, 10]);
    assert_eq!(detector.row_pairs(&mask, 4, 3, 0, 0, 4), vec![0, 2, 3]);
    assert_eq!(detector.row_pairs(&mask, 4, 3, 1, 1, 3), vec![6, 7]);
}

#[test]
fn noise_is_compared_inside_and_around() {
    let (w, h, x, y, rw, rh) = (60usize, 50usize, 10usize, 20usize, 20usize, 12usize);
    let (inner, outer) = compared_cells(w, h, x, y, rw, rh);
    let mut expected: Vec<usize> = Vec::new();
    for py in y + 3..y + rh - 3 {
        for px in x + 3..x + rw - 3 {
            expected.push(py * w + px);
        }
    }
    assert_eq!(inner, expected);
    let mut around: Vec<usize> = Vec::new();
    for py in y.saturating_sub(15)..y {
        for px in x..x + rw {
            around.push(py * w + px);
        }
    }
    for py in y + rh..(y + rh + 15).min(h) {
        for px in x..x + rw {
            around.push(py * w + px);
        }
    }
    for py in y..y + rh {
        for px in x.saturating_sub(15)..x {
            around.push(py * w + px);
        }
        for px in x + rw..(x + rw + 15).min(w) {
            around.push(py * w + px);
        }
    }
    assert_eq!(outer, around);
    assert!(compared_cells(w, h, 0, 0, 2, 2).0.is_empty());
}

#[test]
fn rasters_are_picked_apart() {
    let gray: Vec<u8> = (0..12).collect();
    assert_eq!(pick(&gray, 4, 3, &vec![0, 2, 9], &vec![1, 5]), vec![4, 6, 7, 8, 10, 11]);
}

#[test]
fn overlapping_rectangles_are_thinned_out() {
    let detector = PasteRectangleDetector;
    let rect = |x: usize, score: f64| Candidate {
        x,
        y: 0,
        width: 100,
        height: 100,
        score: key(score),
    };
    let kept = detector.nms(&vec![rect(0, 0.5), rect(10, 0.9), rect(90, 0.7), rect(300, 0.4)]);
    let found: Vec<usize> = kept.iter().map(|c| c.x).collect();
    assert_eq!(found, vec![10, 90]);
    let f = detector.report(0, 10, 20, 30, 40, key(2.5), "2.50", 1);
    assert_eq!(f.severity, Severity::Critical);
    assert!(f.description.contains("discontinuity 1 at (10,20)->(40,60)"));
    assert_eq!(f.region, Some(Region::BoundingBox { x: 10, y: 20, width: 30, height: 40 }));
    assert_eq!(detector.report(1, 0, 0, 1, 1, key(1.5), "1.50", 1).severity, Severity::High);
    assert_eq!(detector.report(1, 0, 0, 1, 1, key(1.0), "1.00", 1).severity, Severity::Medium);
}

#[test]
fn documents_are_told_from_photographs() {
    let analyzer = DocumentForensicsAnalyzer;
    let mut page = vec![255u8; 100];
    page[0] = 0;
    page[1] = 24;
    page[2] = 25;
    page[3] = 230;
    page[4] = 231;
    assert_eq!(analyzer.background_counts(&page), (96, 2));
    assert!(analyzer.is_document(&page, key(0.98)));
    let mid: Vec<u8> = (0..256 * 4).map(|i| (i % 256) as u8).collect();
    assert!(!analyzer.is_document(&mid, key(0.4)));
    assert!(analyzer.is_document(&mid, key(0.41)));
    let mut two = vec![10u8; 100];
    two.extend(vec![210u8; 100]);
    assert!(analyzer.is_document(&two, key(0.0)));
}

#[test]
fn blocks_of_a_page_are_measured() {
    let analyzer = DocumentForensicsAnalyzer;
    let (w, h) = (40usize, 24usize);
    let gray = grain(w, h);
    let sums = analyzer.block_sums(&gray, w, h);
    assert_eq!(sums.len(), 15);
    for b in 0..15usize {
        let (x0, y0) = ((b % 5) * 8, (b / 5) * 8);
        let at = |x: usize, y: usize| gray[y * w + x] as i64;
        let (mut sum, mut squares, mut edges) = (0u64, 0u64, 0u64);
        for y in y0..y0 + 8 {
            for x in x0..x0 + 8 {
                sum += at(x, y) as u64;
                squares += (at(x, y) * at(x, y)) as u64;
            }
        }
        let inner = analyzer.inner_pixels(&gray, w, h, b);
        assert_eq!(inner.len(), 36);
        for (i, &(residual, gradient)) in inner.iter().enumerate() {
            let (x, y) = (x0 + 1 + i % 6, y0 + 1 + i / 6);
            let predicted =
                (at(x, y - 1) + at(x, y + 1) + at(x + 1, y) + at(x - 1, y)) as f64 / 4.0;
            assert_eq!(residual as f64 / 4.0, at(x, y) as f64 - predicted);
            let (gx, gy) = (at(x + 1, y) - at(x - 1, y), at(x, y + 1) - at(x, y - 1));
            assert_eq!(gradient, gx * gx + gy * gy);
            if ((gx * gx + gy * gy) as f64).sqrt() > 30.0 {
                edges += 1;
            }
        }
        assert_eq!((sums[b].sum, sums[b].squares, sums[b].edges), (sum, squares, edges));
    }
    let blank = BlockSums { sum: 64 * 200, squares: 64 * 40000, edges: 0 };
    assert!(analyzer.is_background(blank));
    assert!(!analyzer.is_background(BlockSums { edges: 1, ..blank }));
    let mut flat = vec![blank; 25];
    for b in [0usize, 1, 12, 24] {
        flat[b].edges = 2;
    }
    assert_eq!(analyzer.comparable_blocks(&flat, 5, 5, 12), vec![0, 1, 24]);
    assert_eq!(analyzer.comparable_blocks(&flat, 5, 5, 0), vec![1, 12]);
}

#[test]
fn pasted_corners_are_found() {
    let analyzer = DocumentForensicsAnalyzer;
    let (w, h) = (80usize, 80usize);
    assert!(analyzer.detect_paste_corners(&vec![255; w * h], w, h).is_empty());
    let corners = vec![Corner { x: 30, y: 40, score: 16_000_000 }];
    let f = report_corners(&corners, &vec![7], 80, 80);
    assert_eq!(f.len(), 1);
    assert_eq!(f[0].confidence, 7);
    assert!(f[0].region.is_some());
}

#[test]
fn anomalies_replace_what_was_found_before() {
    let analyzer = DocumentForensicsAnalyzer;
    let mut scores = vec![key(0.0); 100];
    scores[11] = key(9.0);
    scores[12] = key(8.0);
    let positions = analyzer.outlier_positions(&scores, 10, 10, key(3.0));
    let found: Vec<(usize, usize)> = positions.iter().map(|s| (s.x, s.y)).collect();
    assert_eq!(found, vec![(12, 12), (20, 12)]);
    let clusters = analyzer.cluster_outliers(&positions, 80, 80);
    assert_eq!(clusters.len(), 1);
    assert_eq!((clusters[0].count, clusters[0].peak), (2, key(9.0)));
    let numbers = vec![ClusterNumbers { peak: "9.00".to_string(), confidence: 3 }];
    let f = analyzer.report_clusters(&clusters, &numbers, 80, 80, "3.00", key(6.0));
    assert_eq!(codes(&f), vec!["document_block_anomaly"]);
    assert_eq!(f[0].severity, Severity::High);
    assert_eq!(f[0].region, Some(Region::BoundingBox { x: 8, y: 8, width: 17, height: 9 }));
    let corner = report_corners(&vec![Corner { x: 30, y: 40, score: 1 }], &vec![7], 80, 80);
    let none = Vec::new();
    assert_eq!(
        codes(&analyzer.assemble(corner, key(1e-7), none)),
        vec!["document_detected", "document_paste_corner"]
    );
    let corner = report_corners(&vec![Corner { x: 30, y: 40, score: 1 }], &vec![7], 80, 80);
    assert_eq!(codes(&analyzer.assemble(corner, key(1.0), f)), vec!["document_block_anomaly"]);
}

#[test]
fn edges_have_two_sides() {
    let detector = SpliceBoundaryDetector;
    let (w, h) = (64usize, 64usize);
    let mut gray = vec![100u8; w * h];
    let mut rgb = vec![100u8; w * h * 3];
    for y in 0..h {
        for x in 32..w {
            gray[y * w + x] = 130;
            for c in 0..3 {
                rgb[(y * w + x) * 3 + c] = 130;
            }
        }
    }
    let edges = detector.strong_edges(&gray, w, h);
    assert!(!edges.is_empty());
    assert!(edges.iter().all(|e| e.x == 31 || e.x == 32));
    let (a, b) = detector.analyze_edge_pixel(&gray, &rgb, w, h, edges[0]).unwrap();
    assert_eq!((a.residuals.len(), b.residuals.len()), (36, 36));
    assert_eq!(a.even.len() + a.odd.len(), 36);
    assert!(detector.strong_edges(&vec![9; w * h], w, h).is_empty());
}

#[test]
fn suspicious_edges_are_tallied() {
    let detector = SpliceBoundaryDetector;
    let measured = |noise: f64, blocking: f64, cfa: f64| Measured {
        noise_ratio: key(noise),
        blocking_diff: key(blocking),
        cfa_diff: key(cfa),
    };
    let i = detector.indicators(measured(2.1, 0.31, 0.41));
    assert!(i.noise && i.blocking && i.cfa);
    let i = detector.indicators(measured(2.0, 0.3, 0.4));
    assert!(!i.noise && !i.blocking && !i.cfa);
    assert!(detector.indicators(measured(0.49, 0.0, 0.0)).noise);
    let verdict = |x: usize, noise: f64, cfa: f64| EdgeVerdict {
        x,
        y: 5,
        indicators: detector.indicators(measured(noise, 0.0, cfa)),
        score: key(1.0),
    };
    let tally = detector.tally(&vec![verdict(1, 3.0, 0.5), verdict(2, 3.0, 0.0), verdict(3, 1.0, 0.5)]);
    assert_eq!((tally.noise, tally.blocking, tally.cfa), (2, 0, 2));
    assert_eq!(tally.multiple, vec![Spot { x: 1, y: 5, score: key(1.0) }]);
}

#[test]
fn the_strongest_edges_count() {
    let detector = SpliceBoundaryDetector;
    let spots: Vec<Spot> =
        (0..40usize).map(|i| Spot { x: i, y: 3, score: key(i as f64) }).collect();
    assert_eq!(detector.select_suspicious(&spots, false).len(), 10);
    assert_eq!(detector.select_suspicious(&spots, true).len(), 4);
    let few = spots[..20].to_vec();
    assert_eq!(detector.select_suspicious(&few, true).len(), 20);
    let clusters = detector.cluster_positions(&spots, 64, 64, false);
    assert!(clusters.iter().all(|c| c.y_min == 3 && c.y_max == 3));
    let c = Cluster { x_min: 2, y_min: 0, x_max: 4, y_max: 9, count: 3, peak: 0 };
    assert_eq!(detector.members(&spots, c), vec![2, 3, 4]);
}

#[test]
fn splices_are_reported() {
    let detector = SpliceBoundaryDetector;
    let counts = |noise: usize, multiple: usize| EdgeCounts {
        noise,
        blocking: 5,
        cfa: 6,
        multiple,
        total: 100,
    };
    let c = Cluster { x_min: 2, y_min: 0, x_max: 4, y_max: 9, count: 3, peak: 0 };
    let overall = detector.report(counts(20, 10), &Vec::new(), &Vec::new());
    assert_eq!(overall.len(), 1);
    assert_eq!(f64::from_bits(overall[0].confidence), (0.5 + 0.1 * 3.0f64).min(0.90));
    assert!(overall[0].description.starts_with("Splice boundary detected: 10.0% of strong"));
    assert!(overall[0].description.contains("(noise: 20.0%, blocking: 5.0%, CFA: 6.0%)"));
    assert_eq!(overall[0].severity, Severity::High);
    let regions = detector.report(counts(20, 16), &vec![c], &vec![5]);
    assert_eq!((regions.len(), regions[0].confidence), (1, 5));
    assert_eq!(regions[0].severity, Severity::Critical);
    assert_eq!(regions[0].region, Some(Region::BoundingBox { x: 2, y: 0, width: 3, height: 10 }));
    let noise = detector.report(counts(7, 3), &vec![c], &vec![5]);
    assert_eq!((noise.len(), noise[0].severity), (1, Severity::Medium));
    assert_eq!(f64::from_bits(noise[0].confidence), (0.4 + 0.07 * 2.0f64).min(0.75));
    assert!(detector.report(counts(6, 3), &vec![c], &vec![5]).is_empty());
}

#[test]
fn lines_of_text_have_spacings() {
    let analyzer = TextAlignmentAnalyzer;
    let (w, h) = (200usize, 200usize);
    let mut gray = vec![255u8; w * h];
    let rows = [10usize, 40, 73, 100, 136, 160];
    for &y in &rows {
        for x in 20..120 {
            gray[y * w + x] = 0;
        }
    }
    assert_eq!(analyzer.text_lines(&gray, w, h), rows.to_vec());
    let s = analyzer.analyze_line_spacing(&gray, w, h).unwrap();
    assert_eq!(s.gaps, vec![30, 33, 27, 36, 24]);
    assert_eq!((s.median, s.deviation), (30, 3));
    assert!(analyzer.analyze_line_spacing(&vec![255; w * h], w, h).is_none());
    let f = analyzer.report(2, 30, "4.0", key(4.0), 1);
    assert!(f.description.starts_with("2 text line spacings deviate"));
}

#[test]
fn strokes_have_widths() {
    let analyzer = FontConsistencyAnalyzer;
    let (w, h) = (64usize, 32usize);
    let mut gray = vec![255u8; w * h];
    for y in 0..h {
        for x in (4..28).step_by(8) {
            for k in 0..3 {
                gray[y * w + x + k] = 0;
            }
        }
    }
    let strokes = analyzer.analyze_stroke_width(&gray, w, h);
    assert_eq!(strokes.len(), 1);
    assert_eq!((strokes[0].block, strokes[0].count, strokes[0].sum), (0, 96, 288));
    let f = analyzer.report(2, "3.0", "4.0", key(5.5), 1, 2, 1, 9);
    assert_eq!(f.severity, Severity::High);
    assert_eq!(f.region, Some(Region::BoundingBox { x: 32, y: 0, width: 32, height: 32 }));
}

#[test]
fn blurring_keeps_order_and_range() {
    let (w, h) = (9usize, 7usize);
    let dark: Vec<u8> = grain(w, h).iter().map(|v| 40 + v / 4).collect();
    let bright: Vec<u8> = dark.iter().enumerate().map(|(i, v)| v + (i % 3) as u8).collect();
    let (mut a, mut b) = (vec![0u8; w * h], vec![0u8; w * h]);
    gaussian_blur_5x5(&dark, &mut a, w, h);
    gaussian_blur_5x5(&bright, &mut b, w, h);
    for i in 0..w * h {
        assert!(a[i] <= b[i]);
        assert!(dark.iter().min().unwrap() <= &a[i] && &a[i] <= dark.iter().max().unwrap());
    }
    gaussian_blur_5x5(&vec![90; w * h], &mut a, w, h);
    assert_eq!(a, vec![90; w * h]);
}

#[test]
fn too_few_samples_are_left_out() {
    let detector = PasteRectangleDetector;
    assert!(detector.enough_pairs(12) && !detector.enough_pairs(11));
    assert!(detector.enough_lines(5) && !detector.enough_lines(4));
    assert!(detector.enough_noise(10, 10));
    assert!(!detector.enough_noise(9, 10) && !detector.enough_noise(10, 9));
    assert!(!detector.too_large(3000, 2000) && detector.too_large(3000, 2001));
    assert!(detector.tells_lines(key(0.021)) && !detector.tells_lines(key(0.02)));
    assert!(detector.is_uncorrelated(key(1.51)) && !detector.is_uncorrelated(key(1.5)));
    let analyzer = DocumentForensicsAnalyzer;
    assert!(analyzer.is_negligible(key(9e-7)) && !analyzer.is_negligible(key(1e-6)));
    assert!(analyzer.enough_neighbours(3) && !analyzer.enough_neighbours(2));
}

#[test]
fn corners_lie_inside_the_page() {
    let (w, h) = (64usize, 48usize);
    let mut gray = vec![220u8; w * h];
    for y in 20..40 {
        for x in 24..50 {
            gray[y * w + x] = if (x * 7 + y * 5) % 3 == 0 { 60 } else { 200 };
        }
    }
    let found = DocumentForensicsAnalyzer.detect_paste_corners(&gray, w, h);
    assert!(!found.is_empty() && found.len() <= 10);
    assert!(found.iter().all(|c| c.x < w && c.y < h));
    let confidences = vec![0.5f64.to_bits(); found.len()];
    assert_eq!(report_corners(&found, &confidences, w as u32, h as u32).len(), found.len());
}

#[test]
fn type_stands_out() {
    let scored = |z: &[f64]| -> Vec<Scored> {
        z.iter().enumerate().map(|(index, &v)| Scored { index, score: key(v) }).collect()
    };
    let font = FontConsistencyAnalyzer;
    assert!(font.carries_signal(6, key(0.3)));
    assert!(!font.carries_signal(5, key(0.3)) && !font.carries_signal(6, key(0.29)));
    let o = font.stand_out(&scored(&[3.6, 1.0, 9.0, 3.5])).unwrap();
    assert_eq!((o.items.len(), o.peak, o.strongest), (2, key(9.0), 2));
    assert!(font.stand_out(&scored(&[3.5, 9.0])).is_none());
    let lines = TextAlignmentAnalyzer;
    assert_eq!(lines.stand_out(&scored(&[3.1, 3.2, 3.0])).unwrap().items.len(), 2);
    assert!(lines.stand_out(&scored(&[3.1, 3.0])).is_none());
}
