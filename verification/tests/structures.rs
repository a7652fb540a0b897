//! Orders, grids, components, clusters, lines, statistics and numbers.

use paddock_forensics::bits::{P100, P45, P50, P55, P60, P65, P70, P75, P80, P85, P90, P92, P95};
use paddock_forensics::clusters::{by_peak, by_size, cluster_spots, keep_sizable, Cluster, Spot};
use paddock_forensics::components::{label_components, neighbors};
use paddock_forensics::finding::{Region, Severity};
use paddock_forensics::grid::{bbox, cell, px, px3};
use paddock_forensics::histogram::{count_band, histogram, is_bimodal, max_in, min_in};
use paddock_forensics::hough::{extract_peaks, find_gaps, Support};
use paddock_forensics::order::{sort_bytes, stable_order};
use paddock_forensics::outliers::{
    block_region, carries_signal, compare_blocks, covering_region, find_outliers, mark_active,
    near_blocks, outlier_severity, GRAVE, THREE, THREE_AND_A_HALF,
};
use paddock_forensics::robust::{above, count_above, indices_of, median, peak, sort_keys, strongest, Scored};
use paddock_forensics::double::{DIGITS, ONE};
use paddock_forensics::share::{
    encode, fraction, graded, percent, rest, whole_percent, Factor, POWER_54, THREE_TENTHS,
    TWO_FIFTHS, U30, U40, U45, U50, U55, U60, U65, U70, U75, U80, U85, U90, U92, U95,
};
use paddock_forensics::sobel::{sobel, squared};

fn key(v: f64) -> i64 {
    v.to_bits() as i64
}

#[test]
fn confidences_are_the_bits_of_percentages() {
    let table = [
        (P45, 0.45),
        (P50, 0.50),
        (P55, 0.55),
        (P60, 0.60),
        (P65, 0.65),
        (P70, 0.70),
        (P75, 0.75),
        (P80, 0.80),
        (P85, 0.85),
        (P90, 0.90),
        (P92, 0.92),
        (P95, 0.95),
        (P100, 1.0),
    ];
    for (bits, value) in table {
        assert_eq!(f64::from_bits(bits), value);
    }
}

#[test]
fn equal_keys_keep_their_order() {
    assert_eq!(stable_order(&vec![3, 1, 3, 2, 1]), vec![1, 4, 3, 0, 2]);
    assert_eq!(stable_order(&Vec::new()), Vec::<usize>::new());
    assert_eq!(sort_bytes(&vec![9, 0, 255, 9, 3]), vec![0, 3, 9, 9, 255]);
}

#[test]
fn cells_are_stored_row_by_row() {
    assert_eq!(cell(4, 3, 2, 1), 6);
    let gray = [0u8, 1, 2, 3, 4, 5];
    assert_eq!(px(&gray, 3, 2, 1, 1), 4);
    let rgb = [0u8, 1, 2, 3, 4, 5, 6, 7, 8, 9, 10, 11];
    assert_eq!(px3(&rgb, 2, 2, 1, 1, 2), 11);
    let e = bbox(&vec![5, 10], 4, 3, 8);
    assert_eq!((e.min_x, e.min_y, e.max_x, e.max_y), (8, 8, 24, 24));
}

#[test]
fn touching_cells_share_a_component() {
    // x . x
    // . x .
    let on = vec![true, false, true, false, true, false];
    let straight = label_components(&on, 3, 2, false);
    assert_eq!(straight.firsts, vec![0, 2, 4]);
    let diagonal = label_components(&on, 3, 2, true);
    assert_eq!(diagonal.firsts, vec![0]);
    assert_eq!(diagonal.labels, vec![1, 0, 1, 0, 1, 0]);
    let mut near = neighbors(3, 2, false, 4);
    near.sort();
    assert_eq!(near, vec![1, 3, 5]);
    let mut corner = neighbors(3, 2, true, 0);
    corner.sort();
    assert_eq!(corner, vec![1, 3, 4]);
}

#[test]
fn positions_in_touching_cells_make_a_cluster() {
    let spot = |x, y, score| Spot { x, y, score };
    let spots = vec![spot(1, 1, 5), spot(17, 2, 9), spot(90, 90, 7), spot(50, 10, 0)];
    let all = cluster_spots(&spots, 16, 100, 100, true);
    assert_eq!(all.len(), 2);
    assert_eq!(
        all[0],
        Cluster { x_min: 1, y_min: 1, x_max: 17, y_max: 2, count: 2, peak: 9 }
    );
    assert_eq!(all[1].count, 1);
    assert_eq!(cluster_spots(&spots, 16, 100, 100, false).len(), 3);
    assert_eq!(keep_sizable(&all, 2), vec![all[0]]);
    let reversed = vec![all[1], all[0]];
    assert_eq!(by_peak(&reversed), vec![all[0], all[1]]);
    assert_eq!(by_size(&reversed), vec![all[0], all[1]]);
}

#[test]
fn accumulator_peaks_are_local_maxima() {
    let (angles, distances) = (180usize, 40usize);
    let mut votes = vec![0u32; angles * distances];
    votes[10 * distances + 20] = 50;
    votes[12 * distances + 22] = 40;
    votes[100 * distances + 5] = 60;
    votes[150 * distances + 30] = 9;
    let peaks = extract_peaks(&votes, angles, distances, 10, 50);
    let found: Vec<(usize, usize, u32)> = peaks.iter().map(|p| (p.theta, p.rho, p.votes)).collect();
    assert_eq!(found, vec![(100, 5, 60), (10, 20, 50)]);
    assert_eq!(extract_peaks(&votes, angles, distances, 10, 1).len(), 1);
}

#[test]
fn a_gap_breaks_a_supported_line() {
    let mut line = Vec::new();
    for x in 0..60usize {
        line.push(Support { edge: !(20..28).contains(&x), x, y: 7 });
    }
    let gaps = find_gaps(&line, 15, 5, 20);
    assert_eq!(gaps.len(), 1);
    assert_eq!((gaps[0].start, gaps[0].length), (20, 8));
    assert_eq!((gaps[0].min_x, gaps[0].max_x, gaps[0].min_y, gaps[0].max_y), (20, 27, 7, 7));
    assert!(find_gaps(&line, 25, 5, 20).is_empty());
    assert!(find_gaps(&line, 15, 9, 20).is_empty());
    assert!(find_gaps(&line, 15, 1, 7).is_empty());
}

#[test]
fn histograms_count_every_sample_once() {
    let samples = [0u8, 0, 7, 200, 255, 255, 255];
    let h = histogram(&samples);
    assert_eq!(h.len(), 256);
    assert_eq!((h[0], h[7], h[200], h[255]), (2, 1, 1, 3));
    assert_eq!(h.iter().sum::<u64>(), 7);
    assert_eq!(max_in(&h, 0, 100), 2);
    assert_eq!(min_in(&h, 200, 1), 1);
    assert_eq!(count_band(&samples, 200, 256), 4);
    let mut two = vec![0u64; 256];
    two[10] = 50;
    two[230] = 40;
    assert!(is_bimodal(&two, 64, 192, 96, 160));
    two[100..160].fill(20);
    two[96..100].fill(20);
    assert!(!is_bimodal(&two, 64, 192, 96, 160));
}

#[test]
fn the_median_is_the_upper_one() {
    assert_eq!(median(&vec![4, 1, 3, 2]), 3);
    assert_eq!(median(&vec![-5]), -5);
    assert_eq!(sort_keys(&vec![3, -7, 3, 0]), vec![-7, 0, 3, 3]);
    let scored = vec![
        Scored { index: 4, score: 10 },
        Scored { index: 9, score: 30 },
        Scored { index: 2, score: 20 },
    ];
    let high = above(&scored, 10);
    assert_eq!(indices_of(&high), vec![9, 2]);
    assert_eq!(peak(&high), 30);
    assert_eq!(strongest(&high).index, 9);
}

#[test]
fn keys_order_as_numbers_do() {
    assert_eq!((THREE, THREE_AND_A_HALF, GRAVE), (key(3.0), key(3.5), key(5.0)));
    let numbers = [0.0f64, 1e-300, 0.1, 2.5, 2.5000001, 1e10];
    for pair in numbers.windows(2) {
        assert!(key(pair[0]) < key(pair[1]));
    }
}

#[test]
fn enough_outliers_make_a_finding() {
    let scored: Vec<Scored> =
        (0..5).map(|i| Scored { index: i, score: key(i as f64) }).collect();
    let o = find_outliers(&scored, key(2.0), 2).unwrap();
    assert_eq!(indices_of(&o.items), vec![3, 4]);
    assert_eq!((o.peak, o.strongest), (key(4.0), 4));
    assert!(find_outliers(&scored, key(2.0), 3).is_none());
    assert_eq!(outlier_severity(key(5.5)), Severity::High);
    assert_eq!(outlier_severity(key(5.0)), Severity::Medium);
    assert!(carries_signal(9, key(0.5), 9, key(0.5)));
    assert!(!carries_signal(8, key(0.5), 9, key(0.5)));
    assert!(!carries_signal(9, key(0.49), 9, key(0.5)));
}

#[test]
fn near_blocks_leave_out_the_block_itself() {
    assert_eq!(near_blocks(4, 3, 5, 1), vec![0, 1, 2, 4, 6, 8, 9, 10]);
    assert_eq!(near_blocks(4, 3, 0, 1), vec![1, 4, 5]);
    for b in 0..12usize {
        for c in 0..12usize {
            let there = near_blocks(4, 3, b, 1).contains(&c);
            assert_eq!(there, near_blocks(4, 3, c, 1).contains(&b));
        }
    }
}

#[test]
fn only_active_blocks_are_compared() {
    let values: Vec<i64> = vec![key(1.0), key(2.0), key(0.1), key(3.0), key(2.0), key(2.5)];
    let active = mark_active(&values, key(0.5));
    assert_eq!(active, vec![true, true, false, true, true, true]);
    let compared = compare_blocks(&active, 3, 2, 1, 3);
    let found: Vec<(usize, Vec<usize>)> =
        compared.into_iter().map(|c| (c.block, c.near)).collect();
    assert_eq!(
        found,
        vec![(0, vec![1, 3, 4]), (1, vec![0, 3, 4, 5]), (3, vec![0, 1, 4]), (4, vec![0, 1, 3, 5])]
    );
    assert!(compare_blocks(&active, 3, 2, 1, 5).is_empty());
}

#[test]
fn blocks_cover_their_pixels() {
    let boxed = |x, y, width, height| Region::BoundingBox { x, y, width, height };
    assert_eq!(block_region(5, 4, 3, 32), boxed(32, 32, 32, 32));
    assert_eq!(covering_region(&vec![1, 6, 5], 4, 3, 32), boxed(32, 0, 64, 64));
}

#[test]
fn sobel_measures_a_step() {
    let step = [0u8, 0, 100, 0, 0, 100, 0, 0, 100];
    let g = sobel(&step, 3, 3, 1, 1);
    assert_eq!((g.gx, g.gy), (400, 0));
    assert_eq!(squared(g), 160_000);
}

#[test]
fn shares_print_as_doubles_do() {
    for total in 1..=300u64 {
        for part in 0..=total {
            let ratio = part as f64 / total as f64;
            assert_eq!(percent(part, total), format!("{:.1}", ratio * 100.0), "{part} / {total}");
            assert_eq!(whole_percent(part, total), format!("{:.0}", ratio * 100.0));
            assert_eq!(fraction(part, total), format!("{ratio:.2}"), "{part} / {total}");
            if 10 * part <= 9 * total {
                assert_eq!(rest(part, total), format!("{:.1}", (1.0 - ratio) * 100.0));
            }
        }
    }
    for total in [4096u64, 99_999, 1_000_000, 123_456_789, 1 << 53] {
        for k in 0..2000u64 {
            let part = (total / 2000).max(1) * k % (total + 1);
            let ratio = part as f64 / total as f64;
            assert_eq!(percent(part, total), format!("{:.1}", ratio * 100.0), "{part} / {total}");
            assert_eq!(fraction(part, total), format!("{ratio:.2}"), "{part} / {total}");
        }
    }
}

#[test]
fn confidences_grow_as_doubles_do() {
    let factors = [
        (Factor { num: 1, den: 1 }, 1.0),
        (Factor { num: 1, den: 2 }, 0.5),
        (Factor { num: 2, den: 1 }, 2.0),
        (Factor { num: 3, den: 2 }, 1.5),
        (Factor { num: THREE_TENTHS, den: POWER_54 }, 0.3),
        (Factor { num: TWO_FIFTHS, den: POWER_54 }, 0.4),
        (Factor { num: TWO_FIFTHS, den: DIGITS }, 0.8),
    ];
    for (factor, slope) in factors {
        for total in 4..=120u64 {
            for part in 1..=total {
                let ratio = part as f64 / total as f64;
                let expected = (0.45 + ratio * slope).min(0.92);
                let bits = graded(U45, part, total, factor, U92);
                assert_eq!(f64::from_bits(bits), expected, "{part} / {total} * {slope}");
            }
        }
    }
    let units = [
        (U30, 0.30),
        (U40, 0.40),
        (U45, 0.45),
        (U50, 0.50),
        (U55, 0.55),
        (U60, 0.60),
        (U65, 0.65),
        (U70, 0.70),
        (U75, 0.75),
        (U80, 0.80),
        (U85, 0.85),
        (U90, 0.90),
        (U92, 0.92),
        (U95, 0.95),
    ];
    for (unit, value) in units {
        assert_eq!(f64::from_bits(encode(unit)), value);
        assert_eq!(unit as f64 / ONE as f64, value);
    }
}

#[test]
fn keys_above_a_threshold_are_counted() {
    let keys = vec![key(0.5), -key(0.5), key(0.75), key(2.0)];
    assert_eq!(count_above(&keys, key(0.5)), 2);
    assert_eq!(count_above(&keys, -key(1.0)), 4);
}
