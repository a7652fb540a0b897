//! Selections on scored items: middle values, outliers, the strongest item.
//!
//! Scores are keys: see [`crate::number`].

use crate::order::before;
use crate::order::law_order_exists;
use crate::order::order_of;
use crate::order::stable_order;
use crate::select::how_many;
use crate::select::lemma_at_least;
use crate::select::lemma_which;
use crate::select::which;
use vstd::prelude::*;

verus! {

/// An item, by its index, with its score.
#[derive(Debug, Clone, Copy, PartialEq, Eq, Structural)]
pub struct Scored {
    pub index: usize,
    pub score: i64,
}

/// Ordering keys of signed values.
pub open spec fn lifted(keys: Seq<i64>) -> Seq<u128> {
    Seq::new(keys.len(), |i: int| (keys[i] - i64::MIN) as u128)
}

/// The value at position `k` of the ascending order.
pub open spec fn nth_smallest(keys: Seq<i64>, k: int) -> i64 {
    keys[order_of(lifted(keys))[k] as int]
}

/// The value in the middle of the ascending order, the upper one of two.
pub open spec fn middle(keys: Seq<i64>) -> i64 {
    nth_smallest(keys, keys.len() as int / 2)
}

/// The values of a vector in ascending order.
pub open spec fn ascending(keys: Seq<i64>) -> Seq<i64> {
    Seq::new(keys.len(), |k: int| nth_smallest(keys, k))
}

/// Sorts values in ascending order.
pub fn sort_keys(keys: &Vec<i64>) -> (r: Vec<i64>)
    ensures
        r@ == ascending(keys@),
        r.len() == keys.len(),
{
    let mut up: Vec<u128> = Vec::new();
    let mut i: usize = 0;
    while i < keys.len()
        invariant
            i <= keys.len(),
            up@ =~= lifted(keys@).take(i as int),
        decreases keys.len() - i,
    {
        up.push((keys[i] as i128 - i64::MIN as i128) as u128);
        i += 1;
    }
    proof {
        assert(up@ =~= lifted(keys@));
    }
    let order = stable_order(&up);
    let mut r: Vec<i64> = Vec::new();
    let mut k: usize = 0;
    while k < order.len()
        invariant
            k <= order.len(),
            order.len() == keys.len(),
            order@ == order_of(lifted(keys@)),
            forall|j: int| 0 <= j < order.len() ==> #[trigger] order@[j] < keys.len(),
            r@ =~= ascending(keys@).take(k as int),
        decreases order.len() - k,
    {
        r.push(keys[order[k]]);
        k += 1;
    }
    proof {
        assert(r@ =~= ascending(keys@));
    }
    r
}

/// The value in the middle of the ascending order.
pub fn median(keys: &Vec<i64>) -> (r: i64)
    requires
        keys.len() > 0,
    ensures
        r == middle(keys@),
{
    let sorted = sort_keys(keys);
    sorted[sorted.len() / 2]
}

/// The items among the first `n` that score above a threshold.
pub open spec fn outliers(s: Seq<Scored>, threshold: i64, n: nat) -> Seq<Scored>
    decreases n,
{
    if n == 0 {
        Seq::empty()
    } else if s[n - 1].score > threshold {
        outliers(s, threshold, (n - 1) as nat).push(s[n - 1])
    } else {
        outliers(s, threshold, (n - 1) as nat)
    }
}

/// How many of the first `n` keys lie above a threshold.
pub open spec fn count_over(keys: Seq<i64>, threshold: i64, n: nat) -> nat
    decreases n,
{
    if n == 0 {
        0
    } else {
        count_over(keys, threshold, (n - 1) as nat) + if keys[n - 1] > threshold {
            1nat
        } else {
            0nat
        }
    }
}

/// Counts the keys above a threshold.
pub fn count_above(keys: &Vec<i64>, threshold: i64) -> (r: usize)
    ensures
        r == count_over(keys@, threshold, keys@.len()),
        r <= keys.len(),
{
    let mut r: usize = 0;
    let mut i: usize = 0;
    while i < keys.len()
        invariant
            i <= keys.len(),
            r <= i,
            r == count_over(keys@, threshold, i as nat),
        decreases keys.len() - i,
    {
        if keys[i] > threshold {
            r += 1;
        }
        i += 1;
    }
    r
}

/// Keeps the items that score above a threshold.
pub fn above(s: &Vec<Scored>, threshold: i64) -> (r: Vec<Scored>)
    ensures
        r@ == outliers(s@, threshold, s@.len()),
        r.len() <= s.len(),
        forall|i: int|
            0 <= i < r.len() ==> s@.contains(#[trigger] r@[i]) && r@[i].score > threshold,
{
    let mut r: Vec<Scored> = Vec::new();
    let mut i: usize = 0;
    while i < s.len()
        invariant
            i <= s.len(),
            r.len() <= i,
            r@ == outliers(s@, threshold, i as nat),
            forall|j: int|
                0 <= j < r.len() ==> s@.contains(#[trigger] r@[j]) && r@[j].score > threshold,
        decreases s.len() - i,
    {
        if s[i].score > threshold {
            proof {
                assert(s@.contains(s@[i as int]));
            }
            r.push(s[i]);
        }
        i += 1;
    }
    r
}

/// The highest score among the first `n` items, or zero if none is positive.
pub open spec fn top_score(s: Seq<Scored>, n: nat) -> i64
    decreases n,
{
    if n == 0 {
        0
    } else {
        let t = top_score(s, (n - 1) as nat);
        if s[n - 1].score > t {
            s[n - 1].score
        } else {
            t
        }
    }
}

/// The highest score of a list of items, or zero if none is positive.
pub fn peak(s: &Vec<Scored>) -> (r: i64)
    ensures
        r == top_score(s@, s@.len()),
{
    let mut t: i64 = 0;
    let mut i: usize = 0;
    while i < s.len()
        invariant
            i <= s.len(),
            t == top_score(s@, i as nat),
        decreases s.len() - i,
    {
        if s[i].score > t {
            t = s[i].score;
        }
        i += 1;
    }
    t
}

/// The position of the highest score among the first `n` items, the last of equals.
pub open spec fn last_top(s: Seq<Scored>, n: nat) -> int
    decreases n,
{
    if n <= 1 {
        0
    } else {
        let p = last_top(s, (n - 1) as nat);
        if s[n - 1].score >= s[p].score {
            n - 1
        } else {
            p
        }
    }
}

/// The item with the highest score, the last of equals.
pub fn strongest(s: &Vec<Scored>) -> (r: Scored)
    requires
        s.len() > 0,
    ensures
        r == s@[last_top(s@, s@.len())],
        s@.contains(r),
{
    let mut p: usize = 0;
    let mut i: usize = 1;
    while i < s.len()
        invariant
            1 <= i <= s.len(),
            p < i,
            p == last_top(s@, i as nat),
        decreases s.len() - i,
    {
        if s[i].score >= s[p].score {
            p = i;
        }
        i += 1;
    }
    s[p]
}

/// The indices of a list of items.
pub open spec fn indices(s: Seq<Scored>) -> Seq<usize> {
    Seq::new(s.len(), |i: int| s[i].index)
}

/// Collects the indices of a list of items.
pub fn indices_of(s: &Vec<Scored>) -> (r: Vec<usize>)
    ensures
        r@ == indices(s@),
{
    let mut r: Vec<usize> = Vec::new();
    let mut i: usize = 0;
    while i < s.len()
        invariant
            i <= s.len(),
            r@ =~= indices(s@).take(i as int),
        decreases s.len() - i,
    {
        r.push(s[i].index);
        i += 1;
    }
    proof {
        assert(r@ =~= indices(s@));
    }
    r
}

/// No item of a list scores above its highest score, which is never negative.
pub proof fn law_top_score(s: Seq<Scored>, n: nat, i: int)
    requires
        0 <= i < n <= s.len(),
    ensures
        s[i].score <= top_score(s, n),
        top_score(s, n) >= 0,
    decreases n,
{
    reveal_with_fuel(top_score, 2);
    if n > 1 && i < n - 1 {
        law_top_score(s, (n - 1) as nat, i);
    } else if n > 1 {
        law_top_score(s, (n - 1) as nat, 0);
    }
}

/// The outliers are the items that score above the threshold, in their order.
pub proof fn law_outliers_score_above(s: Seq<Scored>, threshold: i64, n: nat)
    requires
        n <= s.len(),
    ensures
        outliers(s, threshold, n) == which(n, |i: int| !(s[i].score <= threshold)).map_values(|i: int| s[i]),
    decreases n,
{
    let p = |i: int| !(s[i].score <= threshold);
    let f = |i: int| s[i];
    lemma_which(0, p);
    if n > 0 {
        let m = (n - 1) as nat;
        law_outliers_score_above(s, threshold, m);
        lemma_which(m, p);
        assert(which(n, p).map_values(f) =~= if p(m as int) {
            which(m, p).map_values(f).push(f(m as int))
        } else {
            which(m, p).map_values(f)
        });
    } else {
        assert(which(0, p).map_values(f) =~= Seq::<Scored>::empty());
    }
}

/// The count is of the keys above the threshold.
pub proof fn law_keys_are_counted(keys: Seq<i64>, threshold: i64, n: nat)
    requires
        n <= keys.len(),
    ensures
        count_over(keys, threshold, n) == how_many(n, |i: int| !(keys[i] <= threshold)),
    decreases n,
{
    let p = |i: int| !(keys[i] <= threshold);
    lemma_which(0, p);
    if n > 0 {
        law_keys_are_counted(keys, threshold, (n - 1) as nat);
        lemma_which((n - 1) as nat, p);
    }
}

/// The highest score is that of an item, unless no item scores above zero.
pub proof fn law_top_score_reached(s: Seq<Scored>, n: nat)
    requires
        n <= s.len(),
        top_score(s, n) != 0,
    ensures
        exists|i: int| 0 <= i < n && (#[trigger] s[i]).score == top_score(s, n),
    decreases n,
{
    if n > 0 {
        let m = (n - 1) as nat;
        if top_score(s, m) == top_score(s, n) {
            law_top_score_reached(s, m);
            let i = choose|i: int| 0 <= i < m && (#[trigger] s[i]).score == top_score(s, m);
            assert(s[i].score == top_score(s, n));
        } else {
            assert(s[n - 1].score == top_score(s, n));
        }
    }
}

/// The strongest item is the last of those with the highest score.
pub proof fn law_strongest_is_last(s: Seq<Scored>, n: nat, i: int)
    requires
        0 <= i < n <= s.len(),
    ensures
        0 <= last_top(s, n) < n,
        s[i].score <= s[last_top(s, n)].score,
        i > last_top(s, n) ==> s[i].score < s[last_top(s, n)].score,
    decreases n,
{
    if n > 1 {
        if i < n - 1 {
            law_strongest_is_last(s, (n - 1) as nat, i);
        } else {
            law_strongest_is_last(s, (n - 1) as nat, 0);
        }
    }
}

/// Sorted keys ascend.
pub proof fn law_ascending(keys: Seq<i64>, i: int, j: int)
    requires
        keys.len() <= usize::MAX,
        0 <= i <= j < keys.len(),
    ensures
        ascending(keys).len() == keys.len(),
        ascending(keys)[i] <= ascending(keys)[j],
{
    law_order_exists(lifted(keys));
    let o = order_of(lifted(keys));
    if i < j {
        assert(before(lifted(keys), o[i] as int, o[j] as int));
    }
}

proof fn lemma_places(keys: Seq<i64>)
    requires
        keys.len() <= usize::MAX,
    ensures
        ({
            let o = order_of(lifted(keys));
            &&& o.len() == keys.len()
            &&& forall|k: int| 0 <= k < o.len() ==> #[trigger] o[k] < keys.len()
            &&& forall|j: int, k: int|
                0 <= j < k < o.len() ==> #[trigger] o[j] != #[trigger] o[k]
        }),
{
    law_order_exists(lifted(keys));
    let o = order_of(lifted(keys));
    assert forall|j: int, k: int| 0 <= j < k < o.len() implies #[trigger] o[j] != #[trigger] o[k] by {
        assert(before(lifted(keys), o[j] as int, o[k] as int));
    }
}

/// At least `k + 1` keys are no greater than the `k`-th smallest, counted from zero, and at
/// least all but `k` are no smaller.
pub proof fn law_nth_smallest(keys: Seq<i64>, k: int)
    requires
        keys.len() <= usize::MAX,
        0 <= k < keys.len(),
    ensures
        keys.contains(nth_smallest(keys, k)),
        how_many(keys.len(), |i: int| keys[i] <= nth_smallest(keys, k)) >= k + 1,
        how_many(keys.len(), |i: int| keys[i] >= nth_smallest(keys, k)) >= keys.len() - k,
{
    let v = nth_smallest(keys, k);
    let o = order_of(lifted(keys));
    lemma_places(keys);
    law_order_exists(lifted(keys));
    let p = |i: int| keys[i] <= v;
    let q = |i: int| keys[i] >= v;
    let low = Seq::new((k + 1) as nat, |j: int| o[j] as int);
    let high = Seq::new((keys.len() - k) as nat, |j: int| o[k + j] as int);
    assert forall|j: int| 0 <= j < low.len() implies 0 <= #[trigger] low[j] < keys.len() && p(
        low[j],
    ) by {
        if j < k {
            assert(before(lifted(keys), o[j] as int, o[k] as int));
        }
    }
    assert forall|j: int| 0 <= j < high.len() implies 0 <= #[trigger] high[j] < keys.len() && q(
        high[j],
    ) by {
        if j > 0 {
            assert(before(lifted(keys), o[k] as int, o[k + j] as int));
        }
    }
    assert(low.no_duplicates());
    assert(high.no_duplicates());
    lemma_at_least(keys.len(), p, low);
    lemma_at_least(keys.len(), q, high);
}

/// The median splits the keys: at least half of them are no greater, with one more, and at
/// least half no smaller.
pub proof fn law_median_splits(keys: Seq<i64>)
    requires
        0 < keys.len() <= usize::MAX,
    ensures
        keys.contains(middle(keys)),
        2 * how_many(keys.len(), |i: int| keys[i] <= middle(keys)) > keys.len(),
        2 * how_many(keys.len(), |i: int| keys[i] >= middle(keys)) >= keys.len(),
{
    law_nth_smallest(keys, keys.len() as int / 2);
}

} // verus!
