//! Positions that meet a condition.

use vstd::prelude::*;

verus! {

/// The positions below `n` that meet a condition, in ascending order.
pub open spec fn which(n: nat, p: spec_fn(int) -> bool) -> Seq<int> {
    Seq::new(n, |i: int| i).filter(p)
}

/// How many of the positions below `n` meet a condition.
pub open spec fn how_many(n: nat, p: spec_fn(int) -> bool) -> nat {
    which(n, p).len()
}

/// One more position is appended just where it meets the condition.
pub proof fn lemma_which(n: nat, p: spec_fn(int) -> bool)
    ensures
        which(0, p) == Seq::<int>::empty(),
        which(n + 1, p) == if p(n as int) {
            which(n, p).push(n as int)
        } else {
            which(n, p)
        },
        how_many(n + 1, p) == how_many(n, p) + if p(n as int) {
            1nat
        } else {
            0nat
        },
{
    reveal(Seq::filter);
    assert(Seq::new(n + 1, |i: int| i).drop_last() =~= Seq::new(n, |i: int| i));
    assert(Seq::new(n + 1, |i: int| i).last() == n);
}

/// The positions are those that meet the condition, each once and in order.
pub proof fn lemma_which_are(n: nat, p: spec_fn(int) -> bool)
    ensures
        forall|k: int|
            0 <= k < which(n, p).len() ==> 0 <= #[trigger] which(n, p)[k] < n && p(which(n, p)[k]),
        forall|i: int| 0 <= i < n && #[trigger] p(i) ==> which(n, p).contains(i),
        forall|j: int, k: int|
            0 <= j < k < which(n, p).len() ==> #[trigger] which(n, p)[j] < #[trigger] which(n, p)[k],
        how_many(n, p) <= n,
    decreases n,
{
    if n > 0 {
        let m = (n - 1) as nat;
        lemma_which_are(m, p);
        lemma_which(m, p);
        assert forall|i: int| 0 <= i < n && #[trigger] p(i) implies which(n, p).contains(i) by {
            if i < m {
                assert(which(m, p).contains(i));
                let k = which(m, p).index_of(i);
                assert(which(n, p)[k] == i);
            } else {
                assert(which(n, p)[which(m, p).len() as int] == i);
            }
        }
    } else {
        lemma_which(0, p);
    }
}

/// Conditions that hold of the same positions pick the same positions.
pub proof fn lemma_which_same(n: nat, p: spec_fn(int) -> bool, q: spec_fn(int) -> bool)
    requires
        forall|i: int| 0 <= i < n ==> #[trigger] p(i) == q(i),
    ensures
        which(n, p) == which(n, q),
    decreases n,
{
    lemma_which(0, p);
    lemma_which(0, q);
    if n > 0 {
        lemma_which_same((n - 1) as nat, p, q);
        lemma_which((n - 1) as nat, p);
        lemma_which((n - 1) as nat, q);
    }
}

/// The sum of a function over the positions below `n`.
pub open spec fn total(n: nat, f: spec_fn(int) -> int) -> int
    decreases n,
{
    if n == 0 {
        0
    } else {
        total((n - 1) as nat, f) + f(n - 1)
    }
}

/// Distinct positions that meet a condition are no more than all that do.
pub proof fn lemma_at_least(n: nat, p: spec_fn(int) -> bool, o: Seq<int>)
    requires
        o.no_duplicates(),
        forall|k: int| 0 <= k < o.len() ==> 0 <= #[trigger] o[k] < n && p(o[k]),
    ensures
        o.len() <= how_many(n, p),
{
    let w = which(n, p);
    lemma_which_are(n, p);
    o.unique_seq_to_set();
    assert(w.no_duplicates());
    w.unique_seq_to_set();
    assert forall|x: int| o.to_set().contains(x) implies w.to_set().contains(x) by {
        let k = o.index_of(x);
        assert(p(o[k]));
        assert(w.contains(x));
    }
    vstd::set_lib::lemma_len_subset(o.to_set(), w.to_set());
}

/// A position meets a condition or its opposite.
pub proof fn lemma_complement(n: nat, p: spec_fn(int) -> bool)
    ensures
        how_many(n, p) + how_many(n, |i: int| !p(i)) == n,
    decreases n,
{
    let q = |i: int| !p(i);
    lemma_which(0, p);
    lemma_which(0, q);
    if n > 0 {
        lemma_complement((n - 1) as nat, p);
        lemma_which((n - 1) as nat, p);
        lemma_which((n - 1) as nat, q);
    }
}

/// A sum taken from its first term on.
pub proof fn lemma_total_front(n: nat, f: spec_fn(int) -> int, g: spec_fn(int) -> int)
    requires
        n > 0,
        forall|k: int| 0 <= k < n - 1 ==> #[trigger] g(k) == f(k + 1),
    ensures
        total(n, f) == f(0) + total((n - 1) as nat, g),
    decreases n,
{
    if n > 1 {
        lemma_total_front((n - 1) as nat, f, g);
        assert(g(n - 2) == f(n - 1));
    } else {
        assert(total(0, f) == 0 && total(0, g) == 0);
    }
}

/// Sums of equal terms are equal.
pub proof fn lemma_total_same(n: nat, f: spec_fn(int) -> int, g: spec_fn(int) -> int)
    requires
        forall|k: int| 0 <= k < n ==> #[trigger] f(k) == g(k),
    ensures
        total(n, f) == total(n, g),
    decreases n,
{
    if n > 0 {
        lemma_total_same((n - 1) as nat, f, g);
        assert(f(n - 1) == g(n - 1));
    }
}

} // verus!
