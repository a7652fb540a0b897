//! Stable ordering of positions by key, and what is read off an ordering.
//!
//! Items are ordered through a vector of integer keys, one per item: the result
//! is the vector of positions in ascending key order, equal keys keeping their
//! positions' order. That ordering exists once for each key vector.

use vstd::prelude::*;
use vstd::relations::sorted_by;
use vstd::relations::total_ordering;
use vstd::seq_lib::lemma_sorted_unique;
use vstd::seq_lib::to_multiset_build;
use vstd::seq_lib::to_multiset_insert;

verus! {

/// Position `a` comes before position `b`: by key, then by position.
pub open spec fn before(keys: Seq<u128>, a: int, b: int) -> bool {
    keys[a] < keys[b] || (keys[a] == keys[b] && a < b)
}

/// `order` lists the positions `lo..hi`, each once, in ascending key order.
pub open spec fn orders_range(keys: Seq<u128>, lo: int, hi: int, order: Seq<usize>) -> bool {
    &&& order.len() == hi - lo
    &&& forall|i: int| 0 <= i < order.len() ==> lo <= #[trigger] order[i] < hi
    &&& forall|i: int, j: int|
        0 <= i < j < order.len() ==> before(
            keys,
            #[trigger] order[i] as int,
            #[trigger] order[j] as int,
        )
    &&& forall|k: int| lo <= k < hi ==> order.contains(#[trigger] (k as usize))
}

/// `order` is the stable ascending order of all positions of `keys`.
pub open spec fn is_order(keys: Seq<u128>, order: Seq<usize>) -> bool {
    orders_range(keys, 0, keys.len() as int, order)
}

/// The stable ascending order of the positions of `keys`.
pub open spec fn order_of(keys: Seq<u128>) -> Seq<usize> {
    choose|o: Seq<usize>| is_order(keys, o)
}

/// Two stable orders of the same keys are equal.
pub proof fn law_order_unique(keys: Seq<u128>, a: Seq<usize>, b: Seq<usize>)
    requires
        keys.len() <= usize::MAX,
        is_order(keys, a),
        is_order(keys, b),
    ensures
        a == b,
{
    lemma_range_order_unique(keys, 0, keys.len() as int, a, b, a.len());
    assert(a =~= b);
}

proof fn lemma_range_order_unique(
    keys: Seq<u128>,
    lo: int,
    hi: int,
    a: Seq<usize>,
    b: Seq<usize>,
    n: nat,
)
    requires
        0 <= lo <= hi <= keys.len(),
        keys.len() <= usize::MAX,
        orders_range(keys, lo, hi, a),
        orders_range(keys, lo, hi, b),
        n <= a.len(),
    ensures
        forall|i: int| 0 <= i < n ==> a[i] == b[i],
    decreases n,
{
    if n > 0 {
        let m = (n - 1) as nat;
        lemma_range_order_unique(keys, lo, hi, a, b, m);
        if a[m as int] != b[m as int] {
            let x = a[m as int];
            let y = b[m as int];
            assert(b.contains((x as int) as usize));
            assert(a.contains((y as int) as usize));
            let i = choose|i: int| 0 <= i < b.len() && b[i] == x;
            let j = choose|j: int| 0 <= j < a.len() && a[j] == y;
            if i < m {
                assert(a[i] == b[i]);
                assert(before(keys, a[i] as int, a[m as int] as int));
            }
            if j < m {
                assert(a[j] == b[j]);
                assert(before(keys, b[j] as int, b[m as int] as int));
            }
            assert(before(keys, b[m as int] as int, b[i] as int));
            assert(before(keys, a[m as int] as int, a[j] as int));
        }
    }
}

/// The first position from `p` on whose element comes after position `n`.
spec fn place(keys: Seq<u128>, o: Seq<usize>, n: int, p: nat) -> nat
    decreases o.len() - p,
{
    if p >= o.len() || before(keys, n, o[p as int] as int) {
        p
    } else {
        place(keys, o, n, p + 1)
    }
}

proof fn lemma_place(keys: Seq<u128>, o: Seq<usize>, n: int, p: nat)
    requires
        p <= o.len(),
    ensures
        p <= place(keys, o, n, p) <= o.len(),
        forall|i: int|
            p <= i < place(keys, o, n, p) ==> !before(keys, n, #[trigger] o[i] as int),
        place(keys, o, n, p) < o.len() ==> before(keys, n, o[place(keys, o, n, p) as int] as int),
    decreases o.len() - p,
{
    if p < o.len() && !before(keys, n, o[p as int] as int) {
        lemma_place(keys, o, n, p + 1);
    }
}

proof fn lemma_order_exists(keys: Seq<u128>, n: nat) -> (r: Seq<usize>)
    requires
        n <= keys.len() <= usize::MAX,
    ensures
        orders_range(keys, 0, n as int, r),
    decreases n,
{
    if n == 0 {
        Seq::empty()
    } else {
        let m = (n - 1) as int;
        let o = lemma_order_exists(keys, m as nat);
        let p = place(keys, o, m, 0) as int;
        lemma_place(keys, o, m, 0);
        let r = o.insert(p, m as usize);
        assert forall|i: int, j: int| 0 <= i < j < r.len() implies before(
            keys,
            #[trigger] r[i] as int,
            #[trigger] r[j] as int,
        ) by {
            let a = if i < p {
                i
            } else {
                i - 1
            };
            let b = if j < p {
                j
            } else {
                j - 1
            };
            if i != p && j != p {
                assert(before(keys, o[a] as int, o[b] as int));
            } else if i == p {
                if b > p {
                    assert(before(keys, o[p] as int, o[b] as int));
                }
            } else {
                assert(!before(keys, m, o[a] as int));
            }
        }
        assert forall|k: int| 0 <= k < n implies r.contains(#[trigger] (k as usize)) by {
            if k == m {
                assert(r[p] == m as usize);
            } else {
                assert(o.contains(k as usize));
                let q = choose|q: int| 0 <= q < o.len() && o[q] == k as usize;
                assert(r[if q < p {
                    q
                } else {
                    q + 1
                }] == k as usize);
            }
        }
        r
    }
}

/// Every key vector has its order.
pub proof fn law_order_exists(keys: Seq<u128>)
    requires
        keys.len() <= usize::MAX,
    ensures
        is_order(keys, order_of(keys)),
{
    let o = lemma_order_exists(keys, keys.len());
    assert(is_order(keys, o));
}

/// Merges two neighbouring ordered ranges.
fn merge(
    keys: &Vec<u128>,
    left: &Vec<usize>,
    right: &Vec<usize>,
    Ghost(lo): Ghost<int>,
    Ghost(mid): Ghost<int>,
    Ghost(hi): Ghost<int>,
) -> (out: Vec<usize>)
    requires
        0 <= lo <= mid <= hi <= keys.len(),
        orders_range(keys@, lo, mid, left@),
        orders_range(keys@, mid, hi, right@),
    ensures
        orders_range(keys@, lo, hi, out@),
{
    let mut out: Vec<usize> = Vec::new();
    let mut i: usize = 0;
    let mut j: usize = 0;
    while i < left.len() || j < right.len()
        invariant
            0 <= lo <= mid <= hi <= keys.len(),
            orders_range(keys@, lo, mid, left@),
            orders_range(keys@, mid, hi, right@),
            i <= left.len(),
            j <= right.len(),
            out.len() == i + j,
            forall|k: int| 0 <= k < out.len() ==> lo <= #[trigger] out@[k] < hi,
            forall|a: int, b: int|
                0 <= a < b < out.len() ==> before(
                    keys@,
                    #[trigger] out@[a] as int,
                    #[trigger] out@[b] as int,
                ),
            forall|a: int, b: int|
                0 <= a < out.len() && i <= b < left.len() ==> before(
                    keys@,
                    #[trigger] out@[a] as int,
                    #[trigger] left@[b] as int,
                ),
            forall|a: int, b: int|
                0 <= a < out.len() && j <= b < right.len() ==> before(
                    keys@,
                    #[trigger] out@[a] as int,
                    #[trigger] right@[b] as int,
                ),
            forall|a: int| 0 <= a < i ==> out@.contains(#[trigger] left@[a]),
            forall|a: int| 0 <= a < j ==> out@.contains(#[trigger] right@[a]),
        decreases left.len() - i + right.len() - j,
    {
        let ghost prev = out@;
        let take_left: bool = if i == left.len() {
            false
        } else if j == right.len() {
            true
        } else {
            keys[left[i]] <= keys[right[j]]
        };
        if take_left {
            out.push(left[i]);
            i += 1;
        } else {
            out.push(right[j]);
            j += 1;
        }
        proof {
            assert forall|x: usize| prev.contains(x) implies out@.contains(x) by {
                let k = choose|k: int| 0 <= k < prev.len() && prev[k] == x;
                assert(out@[k] == x);
            }
            assert(out@[prev.len() as int] == out@.last());
        }
    }
    proof {
        assert forall|k: int| lo <= k < hi implies out@.contains(#[trigger] (k as usize)) by {
            if k < mid {
                assert(left@.contains(k as usize));
            } else {
                assert(right@.contains(k as usize));
            }
        }
    }
    out
}

fn sort_range(keys: &Vec<u128>, lo: usize, hi: usize) -> (order: Vec<usize>)
    requires
        lo <= hi <= keys.len(),
    ensures
        orders_range(keys@, lo as int, hi as int, order@),
    decreases hi - lo,
{
    if hi - lo == 0 {
        Vec::new()
    } else if hi - lo == 1 {
        let mut v: Vec<usize> = Vec::new();
        v.push(lo);
        proof {
            assert(v@[0] == lo);
        }
        v
    } else {
        let mid: usize = lo + (hi - lo) / 2;
        let left = sort_range(keys, lo, mid);
        let right = sort_range(keys, mid, hi);
        merge(keys, &left, &right, Ghost(lo as int), Ghost(mid as int), Ghost(hi as int))
    }
}

/// Orders the positions of a key vector.
pub fn stable_order(keys: &Vec<u128>) -> (order: Vec<usize>)
    ensures
        is_order(keys@, order@),
        order@ == order_of(keys@),
{
    let order = sort_range(keys, 0, keys.len());
    proof {
        assert(is_order(keys@, order@));
        law_order_unique(keys@, order@, order_of(keys@));
    }
    order
}

/// The order of bytes.
pub open spec fn byte_leq() -> spec_fn(u8, u8) -> bool {
    |a: u8, b: u8| a <= b
}

/// The bytes of a sequence in ascending order.
pub open spec fn sorted_bytes(s: Seq<u8>) -> Seq<u8> {
    s.sort_by(byte_leq())
}

/// Sorts bytes by insertion: meant for a handful of them.
pub fn sort_bytes(v: &Vec<u8>) -> (r: Vec<u8>)
    ensures
        r@ == sorted_bytes(v@),
        r.len() == v.len(),
{
    let mut r: Vec<u8> = Vec::new();
    let mut i: usize = 0;
    proof {
        assert(v@.take(0) =~= Seq::<u8>::empty());
    }
    while i < v.len()
        invariant
            i <= v.len(),
            r.len() == i,
            sorted_by(r@, byte_leq()),
            r@.to_multiset() == v@.take(i as int).to_multiset(),
        decreases v.len() - i,
    {
        let x: u8 = v[i];
        let mut k: usize = 0;
        while k < r.len() && r[k] <= x
            invariant
                k <= r.len(),
                forall|j: int| 0 <= j < k ==> r@[j] <= x,
            decreases r.len() - k,
        {
            k += 1;
        }
        proof {
            assert(k < r.len() ==> r@[k as int] > x);
            assert forall|j: int| k <= j < r.len() implies r@[j] >= x by {
                if j > k {
                    assert(byte_leq()(r@[k as int], r@[j]));
                }
            }
            to_multiset_insert(r@, k as int, x);
            to_multiset_build(v@.take(i as int), x);
            assert(v@.take(i + 1) =~= v@.take(i as int).push(x));
        }
        let ghost prev = r@;
        r.insert(k, x);
        proof {
            assert forall|a: int, b: int| 0 <= a < b < r.len() implies #[trigger] byte_leq()(
                r@[a],
                r@[b],
            ) by {
                let pa = if a < k {
                    a
                } else {
                    a - 1
                };
                let pb = if b < k {
                    b
                } else {
                    b - 1
                };
                if a != k && b != k {
                    assert(byte_leq()(prev[pa], prev[pb]));
                }
            }
        }
        i += 1;
    }
    proof {
        assert(v@.take(v@.len() as int) =~= v@);
        assert(total_ordering(byte_leq()));
        v@.lemma_sort_by_ensures(byte_leq());
        lemma_sorted_unique(r@, sorted_bytes(v@), byte_leq());
    }
    r
}

/// Sorted bytes ascend, and are the same bytes.
pub proof fn law_sorted_bytes(s: Seq<u8>, i: int, j: int)
    requires
        0 <= i < j < s.len(),
    ensures
        sorted_bytes(s).len() == s.len(),
        sorted_bytes(s)[i] <= sorted_bytes(s)[j],
        sorted_bytes(s).to_multiset() =~= s.to_multiset(),
{
    s.lemma_sort_by_ensures(byte_leq());
    let t = sorted_bytes(s);
    assert(t.len() == s.len()) by {
        s.to_multiset_ensures();
        t.to_multiset_ensures();
    }
    assert(byte_leq()(t[i], t[j]));
}

} // verus!
