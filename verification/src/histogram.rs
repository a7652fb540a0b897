//! Intensity histograms.

use crate::select::how_many;
use crate::select::lemma_which;
use vstd::prelude::*;

verus! {

/// How many of the first `n` samples have the value `v`.
pub open spec fn occurrences(samples: Seq<u8>, v: int, n: nat) -> nat
    decreases n,
{
    if n == 0 {
        0
    } else {
        occurrences(samples, v, (n - 1) as nat) + if samples[n - 1] == v {
            1nat
        } else {
            0nat
        }
    }
}

/// The histogram of a raster: for each value the number of its samples.
pub open spec fn histogram_of(samples: Seq<u8>) -> Seq<u64> {
    Seq::new(256, |v: int| occurrences(samples, v, samples.len()) as u64)
}

proof fn lemma_occurrences_bound(samples: Seq<u8>, v: int, n: nat)
    ensures
        occurrences(samples, v, n) <= n,
    decreases n,
{
    if n > 0 {
        lemma_occurrences_bound(samples, v, (n - 1) as nat);
    }
}

/// Counts the samples of each value.
pub fn histogram(samples: &[u8]) -> (r: Vec<u64>)
    ensures
        r@ == histogram_of(samples@),
        r.len() == 256,
        forall|v: int| 0 <= v < 256 ==> #[trigger] r@[v] <= samples.len(),
{
    let mut r: Vec<u64> = vec![0; 256];
    let mut i: usize = 0;
    while i < samples.len()
        invariant
            i <= samples.len(),
            r.len() == 256,
            forall|v: int|
                0 <= v < 256 ==> #[trigger] r@[v] == occurrences(samples@, v, i as nat),
        decreases samples.len() - i,
    {
        let v: usize = samples[i] as usize;
        proof {
            lemma_occurrences_bound(samples@, v as int, i as nat);
        }
        let c: u64 = r[v];
        r.set(v, c + 1);
        i += 1;
    }
    proof {
        assert forall|v: int| 0 <= v < 256 implies #[trigger] r@[v] <= samples.len() by {
            lemma_occurrences_bound(samples@, v, samples@.len());
        }
        assert(r@ =~= histogram_of(samples@));
    }
    r
}

/// The largest of `n` counts from position `from` on, or zero if there is none.
pub open spec fn range_max(h: Seq<u64>, from: int, n: nat) -> u64
    decreases n,
{
    if n == 0 {
        0
    } else {
        let m = range_max(h, from, (n - 1) as nat);
        if h[from + n - 1] > m {
            h[from + n - 1]
        } else {
            m
        }
    }
}

/// The largest of `n` counts from position `from` on.
pub fn max_in(h: &Vec<u64>, from: usize, n: usize) -> (r: u64)
    requires
        from + n <= h.len(),
    ensures
        r == range_max(h@, from as int, n as nat),
{
    let mut m: u64 = 0;
    let mut k: usize = 0;
    while k < n
        invariant
            k <= n,
            from + n <= h.len(),
            m == range_max(h@, from as int, k as nat),
        decreases n - k,
    {
        if h[from + k] > m {
            m = h[from + k];
        }
        k += 1;
    }
    m
}

/// The smallest of `n` counts from position `from` on, or the largest number if
/// there is none.
pub open spec fn range_min(h: Seq<u64>, from: int, n: nat) -> u64
    decreases n,
{
    if n == 0 {
        u64::MAX
    } else {
        let m = range_min(h, from, (n - 1) as nat);
        if h[from + n - 1] < m {
            h[from + n - 1]
        } else {
            m
        }
    }
}

/// The smallest of `n` counts from position `from` on.
pub fn min_in(h: &Vec<u64>, from: usize, n: usize) -> (r: u64)
    requires
        from + n <= h.len(),
    ensures
        r == range_min(h@, from as int, n as nat),
{
    let mut m: u64 = u64::MAX;
    let mut k: usize = 0;
    while k < n
        invariant
            k <= n,
            from + n <= h.len(),
            m == range_min(h@, from as int, k as nat),
        decreases n - k,
    {
        if h[from + k] < m {
            m = h[from + k];
        }
        k += 1;
    }
    m
}

/// The sum of `n` counts from position `from` on.
pub open spec fn range_sum(h: Seq<u64>, from: int, n: nat) -> nat
    decreases n,
{
    if n == 0 {
        0
    } else {
        range_sum(h, from, (n - 1) as nat) + h[from + n - 1] as nat
    }
}

/// How many of the first `n` samples lie in `lo..hi`.
pub open spec fn in_band(samples: Seq<u8>, lo: int, hi: int, n: nat) -> nat
    decreases n,
{
    if n == 0 {
        0
    } else {
        in_band(samples, lo, hi, (n - 1) as nat) + if lo <= samples[n - 1] < hi {
            1nat
        } else {
            0nat
        }
    }
}

/// Counts the samples in `lo..hi`.
pub fn count_band(samples: &[u8], lo: u16, hi: u16) -> (r: usize)
    ensures
        r == in_band(samples@, lo as int, hi as int, samples@.len()),
        r <= samples.len(),
{
    let mut c: usize = 0;
    let mut i: usize = 0;
    while i < samples.len()
        invariant
            i <= samples.len(),
            c <= i,
            c == in_band(samples@, lo as int, hi as int, i as nat),
        decreases samples.len() - i,
    {
        let v: u16 = samples[i] as u16;
        if lo <= v && v < hi {
            c += 1;
        }
        i += 1;
    }
    c
}

/// Two peaks, one among the first `dark` values and one from `light` on, with a
/// valley in `from..to` below half of the lower one.
pub open spec fn two_peaks(h: Seq<u64>, dark: nat, light: int, from: int, to: int) -> bool {
    let a = range_max(h, 0, dark);
    let b = range_max(h, light, (256 - light) as nat);
    let low = if a <= b {
        a
    } else {
        b
    };
    a > 0 && b > 0 && range_min(h, from, (to - from) as nat) < low / 2
}

/// Tells whether a histogram has a dark and a light peak with a valley between them.
pub fn is_bimodal(h: &Vec<u64>, dark: usize, light: usize, from: usize, to: usize) -> (r: bool)
    requires
        h.len() == 256,
        dark <= 256,
        light <= 256,
        from <= to <= 256,
    ensures
        r == two_peaks(h@, dark as nat, light as int, from as int, to as int),
{
    let a: u64 = max_in(h, 0, dark);
    let b: u64 = max_in(h, light, 256 - light);
    let valley: u64 = min_in(h, from, to - from);
    let low: u64 = if a <= b {
        a
    } else {
        b
    };
    a > 0 && b > 0 && valley < low / 2
}

/// A bin counts the samples of its value.
pub proof fn law_values_are_counted(samples: Seq<u8>, v: int, n: nat)
    requires
        n <= samples.len(),
    ensures
        occurrences(samples, v, n) == how_many(n, |i: int| samples[i] == v),
    decreases n,
{
    let p = |i: int| samples[i] == v;
    lemma_which(0, p);
    if n > 0 {
        law_values_are_counted(samples, v, (n - 1) as nat);
        lemma_which((n - 1) as nat, p);
    }
}

/// A band counts the samples from its lower bound on and below its upper one.
pub proof fn law_band_is_counted(samples: Seq<u8>, lo: int, hi: int, n: nat)
    requires
        n <= samples.len(),
    ensures
        in_band(samples, lo, hi, n) == how_many(n, |i: int| !(samples[i] < lo) && !(samples[i] >= hi)),
    decreases n,
{
    let p = |i: int| !(samples[i] < lo) && !(samples[i] >= hi);
    lemma_which(0, p);
    if n > 0 {
        law_band_is_counted(samples, lo, hi, (n - 1) as nat);
        lemma_which((n - 1) as nat, p);
    }
}

/// The largest count of a range is no smaller than any in it.
pub proof fn law_range_max(h: Seq<u64>, from: int, n: nat, i: int)
    requires
        0 <= i < n,
    ensures
        h[from + i] <= range_max(h, from, n),
    decreases n,
{
    if i < n - 1 {
        law_range_max(h, from, (n - 1) as nat, i);
    }
}

/// The smallest count of a range is no larger than any in it.
pub proof fn law_range_min(h: Seq<u64>, from: int, n: nat, i: int)
    requires
        0 <= i < n,
    ensures
        h[from + i] >= range_min(h, from, n),
    decreases n,
{
    if i < n - 1 {
        law_range_min(h, from, (n - 1) as nat, i);
    }
}

proof fn lemma_max_reached(h: Seq<u64>, from: int, n: nat)
    requires
        range_max(h, from, n) > 0,
    ensures
        exists|i: int| from <= i < from + n && #[trigger] h[i] == range_max(h, from, n),
    decreases n,
{
    if n > 0 {
        let m = (n - 1) as nat;
        if range_max(h, from, m) == range_max(h, from, n) {
            lemma_max_reached(h, from, m);
            let i = choose|i: int| from <= i < from + m && #[trigger] h[i] == range_max(h, from, m);
            assert(h[i] == range_max(h, from, n));
        } else {
            assert(h[from + n - 1] == range_max(h, from, n));
        }
    }
}

proof fn lemma_min_reached(h: Seq<u64>, from: int, n: nat)
    requires
        range_min(h, from, n) < u64::MAX,
    ensures
        exists|i: int| from <= i < from + n && #[trigger] h[i] == range_min(h, from, n),
    decreases n,
{
    if n > 0 {
        let m = (n - 1) as nat;
        if range_min(h, from, m) == range_min(h, from, n) {
            lemma_min_reached(h, from, m);
            let i = choose|i: int| from <= i < from + m && #[trigger] h[i] == range_min(h, from, m);
            assert(h[i] == range_min(h, from, n));
        } else {
            assert(h[from + n - 1] == range_min(h, from, n));
        }
    }
}

/// A value `v` lies in a valley between `i` and `j`: both occur more than twice as often.
pub open spec fn is_valley(h: Seq<u64>, v: int, i: int, j: int) -> bool {
    2 * h[v] + 2 <= h[i] && 2 * h[v] + 2 <= h[j]
}

/// A histogram has two peaks just where some dark value and some light value both occur more
/// than twice as often as some value between.
pub proof fn law_two_peaks(h: Seq<u64>, dark: nat, light: int, from: int, to: int)
    requires
        h.len() == 256,
        dark <= 256,
        0 <= light <= 256,
        0 <= from <= to <= 256,
    ensures
        two_peaks(h, dark, light, from, to) <==> exists|v: int, i: int, j: int|
            from <= v < to && 0 <= i < dark && light <= j < 256 && #[trigger] is_valley(h, v, i, j),
{
    let a = range_max(h, 0, dark);
    let b = range_max(h, light, (256 - light) as nat);
    let m = range_min(h, from, (to - from) as nat);
    if two_peaks(h, dark, light, from, to) {
        lemma_max_reached(h, 0, dark);
        lemma_max_reached(h, light, (256 - light) as nat);
        lemma_min_reached(h, from, (to - from) as nat);
        let i = choose|i: int| 0 <= i < dark && #[trigger] h[i] == a;
        let j = choose|j: int| light <= j < light + (256 - light) && #[trigger] h[j] == b;
        let v = choose|v: int| from <= v < from + (to - from) && #[trigger] h[v] == m;
        assert(is_valley(h, v, i, j));
    }
    if exists|v: int, i: int, j: int|
        from <= v < to && 0 <= i < dark && light <= j < 256 && #[trigger] is_valley(h, v, i, j) {
        let (v, i, j) = choose|v: int, i: int, j: int|
            from <= v < to && 0 <= i < dark && light <= j < 256 && #[trigger] is_valley(h, v, i, j);
        law_range_max(h, 0, dark, i);
        law_range_max(h, light, (256 - light) as nat, j - light);
        law_range_min(h, from, (to - from) as nat, v - from);
    }
}

/// A histogram has a bin for each of the 256 values.
pub proof fn law_bins(samples: Seq<u8>, v: int)
    requires
        0 <= v < 256,
    ensures
        histogram_of(samples).len() == 256,
        histogram_of(samples)[v] == occurrences(samples, v, samples.len()) as u64,
{
}

} // verus!
