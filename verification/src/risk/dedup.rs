//! Removing findings that carry the same message.

use crate::finding::bits_max;
use crate::finding::group_values;
use crate::finding::values;
use crate::finding::Finding;
use crate::finding::FindingView;
use vstd::prelude::*;

verus! {

/// Two findings carry the same message: code, description and severity agree.
pub open spec fn same_message(a: FindingView, b: FindingView) -> bool {
    a.code == b.code && a.description == b.description && a.severity == b.severity
}

/// The first position from `k` on whose finding carries the message of `f`; the
/// length if there is none.
pub open spec fn first_same(out: Seq<FindingView>, f: FindingView, k: nat) -> nat
    decreases out.len() - k,
{
    if k >= out.len() {
        out.len()
    } else if same_message(out[k as int], f) {
        k
    } else {
        first_same(out, f, k + 1)
    }
}

/// The findings after one more: merged into the one with its message, or appended.
pub open spec fn merged(out: Seq<FindingView>, f: FindingView) -> Seq<FindingView> {
    let k = first_same(out, f, 0);
    if k < out.len() {
        out.update(
            k as int,
            FindingView {
                confidence: bits_max(out[k as int].confidence, f.confidence),
                ..out[k as int]
            },
        )
    } else {
        out.push(f)
    }
}

/// The first `n` findings without repeated messages.
pub open spec fn deduped(s: Seq<FindingView>, n: nat) -> Seq<FindingView>
    decreases n,
{
    if n == 0 {
        Seq::empty()
    } else {
        merged(deduped(s, (n - 1) as nat), s[n - 1])
    }
}

pub proof fn lemma_first_same(out: Seq<FindingView>, f: FindingView, k: nat)
    requires
        k <= out.len(),
    ensures
        first_same(out, f, k) <= out.len(),
        first_same(out, f, k) < out.len() ==> same_message(out[first_same(out, f, k) as int], f),
        forall|i: int| k <= i < first_same(out, f, k) ==> !same_message(#[trigger] out[i], f),
    decreases out.len() - k,
{
    if k < out.len() && !same_message(out[k as int], f) {
        lemma_first_same(out, f, k + 1);
    }
}

/// No two findings of a deduplicated report carry the same message.
pub proof fn law_no_repeats(s: Seq<FindingView>, n: nat, i: int, j: int)
    requires
        n <= s.len(),
        0 <= i < j < deduped(s, n).len(),
    ensures
        !same_message(deduped(s, n)[i], deduped(s, n)[j]),
    decreases n,
{
    let out = deduped(s, (n - 1) as nat);
    let f = s[n - 1];
    lemma_first_same(out, f, 0);
    if j < out.len() {
        law_no_repeats(s, (n - 1) as nat, i, j);
    }
}

/// Every finding has a representative in the deduplicated report that carries its
/// message with at least its confidence.
pub proof fn law_represented(s: Seq<FindingView>, n: nat, i: int) -> (k: int)
    requires
        0 <= i < n <= s.len(),
    ensures
        0 <= k < deduped(s, n).len(),
        same_message(deduped(s, n)[k], s[i]),
        deduped(s, n)[k].confidence >= s[i].confidence,
    decreases n,
{
    let out = deduped(s, (n - 1) as nat);
    let f = s[n - 1];
    lemma_first_same(out, f, 0);
    if i == n - 1 {
        first_same(out, f, 0) as int
    } else {
        law_represented(s, (n - 1) as nat, i)
    }
}

/// A report without repeated messages is left as it is.
pub proof fn law_dedup_keeps_distinct(s: Seq<FindingView>, n: nat)
    requires
        n <= s.len(),
        forall|i: int, j: int|
            0 <= i < j < s.len() ==> !same_message(#[trigger] s[i], #[trigger] s[j]),
    ensures
        deduped(s, n) == s.take(n as int),
    decreases n,
{
    if n > 0 {
        law_dedup_keeps_distinct(s, (n - 1) as nat);
        let out = deduped(s, (n - 1) as nat);
        lemma_first_same(out, s[n - 1], 0);
        let k = first_same(out, s[n - 1], 0);
        if k < out.len() {
            assert(out[k as int] == s[k as int]);
            assert(!same_message(s[k as int], s[n - 1]));
        }
        assert(out.push(s[n - 1]) =~= s.take(n as int));
    } else {
        assert(s.take(0) =~= Seq::empty());
    }
}

/// Deduplicating twice changes nothing more.
pub proof fn law_dedup_idempotent(s: Seq<FindingView>)
    ensures
        deduped(deduped(s, s.len()), deduped(s, s.len()).len()) == deduped(s, s.len()),
{
    let d = deduped(s, s.len());
    assert forall|i: int, j: int| 0 <= i < j < d.len() implies !same_message(
        #[trigger] d[i],
        #[trigger] d[j],
    ) by {
        law_no_repeats(s, s.len(), i, j);
    }
    law_dedup_keeps_distinct(d, d.len());
    assert(d.take(d.len() as int) =~= d);
}

/// Remove redundant findings that carry the same message - identical
/// (code, description, severity) - even when emitted by different analyzers.
/// Keeps the first occurrence and the max confidence seen.
pub fn dedup_exact(findings: &Vec<Finding>) -> (out: Vec<Finding>)
    ensures
        values(out@) == deduped(values(findings@), findings@.len()),
{
    let mut out: Vec<Finding> = Vec::new();
    let mut i: usize = 0;
    proof {
        assert(values(out@) =~= Seq::empty());
    }
    while i < findings.len()
        invariant
            i <= findings.len(),
            values(out@) == deduped(values(findings@), i as nat),
        decreases findings.len() - i,
    {
        broadcast use group_values;

        let f = &findings[i];
        let ghost prev = values(out@);
        let mut k: usize = 0;
        while k < out.len() && !(out[k].code == f.code && out[k].description == f.description
            && out[k].severity == f.severity)
            invariant
                k <= out.len(),
                prev == values(out@),
                first_same(prev, f@, 0) == first_same(prev, f@, k as nat),
            decreases out.len() - k,
        {
            proof {
                assert(prev[k as int] == out@[k as int]@);
            }
            k += 1;
        }
        proof {
            assert(values(findings@)[i as int] == f@);
            if k < out.len() {
                assert(prev[k as int] == out@[k as int]@);
            }
            assert(first_same(prev, f@, 0) == k);
        }
        if k < out.len() {
            if f.confidence > out[k].confidence {
                let mut g = out[k].duplicate();
                g.confidence = f.confidence;
                out.set(k, g);
            }
            proof {
                assert(values(out@) =~= merged(prev, f@));
            }
        } else {
            out.push(f.duplicate());
        }
        i += 1;
    }
    out
}

/// Nothing is lost: every finding has one in the deduplicated report with its code, its
/// description and its severity, and at least its confidence.
pub proof fn law_no_message_lost(s: Seq<FindingView>, i: int)
    requires
        0 <= i < s.len(),
    ensures
        exists|k: int|
            0 <= k < deduped(s, s.len()).len() && (#[trigger] deduped(s, s.len())[k]).code
                == s[i].code && deduped(s, s.len())[k].description == s[i].description && deduped(
                s,
                s.len(),
            )[k].severity == s[i].severity && deduped(s, s.len())[k].confidence >= s[i].confidence,
{
    let k = law_represented(s, s.len(), i);
    assert(same_message(deduped(s, s.len())[k], s[i]));
}

/// Nothing is doubled: no two findings of a deduplicated report agree in code, description
/// and severity, whichever analyzers they come from.
pub proof fn law_no_message_doubled(s: Seq<FindingView>, i: int, j: int)
    requires
        0 <= i < j < deduped(s, s.len()).len(),
    ensures
        ({
            let (a, b) = (deduped(s, s.len())[i], deduped(s, s.len())[j]);
            a.code != b.code || a.description != b.description || a.severity != b.severity
        }),
{
    law_no_repeats(s, s.len(), i, j);
}

/// A finding of a deduplicated report is the first of its message, by its analyzer and its
/// region, with the highest confidence of those that carry it.
pub proof fn law_first_with_best_confidence(s: Seq<FindingView>, n: nat, k: int)
    requires
        n <= s.len(),
        0 <= k < deduped(s, n).len(),
    ensures
        exists|i: int|
            0 <= i < n && same_message(#[trigger] s[i], deduped(s, n)[k]) && s[i].analyzer
                == deduped(s, n)[k].analyzer && s[i].region == deduped(s, n)[k].region && (forall|
                j: int,
            |
                0 <= j < i ==> !same_message(#[trigger] s[j], deduped(s, n)[k])),
        exists|i: int|
            0 <= i < n && same_message(#[trigger] s[i], deduped(s, n)[k]) && s[i].confidence
                == deduped(s, n)[k].confidence,
        forall|i: int|
            0 <= i < n && same_message(#[trigger] s[i], deduped(s, n)[k]) ==> s[i].confidence
                <= deduped(s, n)[k].confidence,
    decreases n,
{
    let m = (n - 1) as nat;
    let out = deduped(s, m);
    let all = deduped(s, n);
    let f = s[n - 1];
    lemma_first_same(out, f, 0);
    if k < out.len() {
        law_first_with_best_confidence(s, m, k);
        let i = choose|i: int|
            0 <= i < m && same_message(#[trigger] s[i], out[k]) && s[i].analyzer == out[k].analyzer
                && s[i].region == out[k].region && (forall|j: int|
                0 <= j < i ==> !same_message(#[trigger] s[j], out[k]));
        let b = choose|i: int|
            0 <= i < m && same_message(#[trigger] s[i], out[k]) && s[i].confidence
                == out[k].confidence;
        assert(same_message(all[k], out[k]));
        assert(same_message(s[i], all[k]));
        assert(s[b].confidence == all[k].confidence || f.confidence == all[k].confidence);
        assert forall|j: int| 0 <= j < n && same_message(#[trigger] s[j], all[k]) implies s[
            j
        ].confidence <= all[k].confidence by {
            if j < m {
                assert(same_message(s[j], out[k]));
            } else {
                let p = first_same(out, f, 0);
                if p != k {
                    if p < out.len() {
                        if p < k {
                            law_no_repeats(s, m, p as int, k);
                        } else {
                            assert(!same_message(out[k], f));
                        }
                    } else {
                        assert(!same_message(out[k], f));
                    }
                }
            }
        }
        assert forall|j: int| 0 <= j < i implies !same_message(#[trigger] s[j], all[k]) by {
            assert(!same_message(s[j], out[k]));
        }
    } else {
        assert(all[k] == f);
        assert(same_message(s[n - 1], all[k]));
        assert forall|j: int| 0 <= j < m implies !same_message(#[trigger] s[j], all[k]) by {
            if same_message(s[j], f) {
                let p = law_represented(s, m, j);
                assert(!same_message(out[p], f));
            }
        }
    }
}

} // verus!
