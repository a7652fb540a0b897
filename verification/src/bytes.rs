//! Searching raw bytes.

use crate::text::{occurs_at, occurs_in};
use vstd::prelude::*;

verus! {

/// The first position from `i` on at which `needle` occurs.
pub open spec fn first_from(hay: Seq<u8>, needle: Seq<u8>, i: int) -> Option<int>
    decreases hay.len() - i,
{
    if i < 0 || i + needle.len() > hay.len() || i >= hay.len() {
        None
    } else if occurs_at(hay, needle, i) {
        Some(i)
    } else {
        first_from(hay, needle, i + 1)
    }
}

/// Tells whether `needle` stands in `hay` at position `at`.
pub fn bytes_match_at(hay: &[u8], needle: &[u8], at: usize) -> (r: bool)
    ensures
        r == occurs_at(hay@, needle@, at as int),
{
    if needle.len() > hay.len() || at > hay.len() - needle.len() {
        return false;
    }
    let mut k: usize = 0;
    while k < needle.len()
        invariant
            at + needle.len() <= hay.len(),
            k <= needle@.len(),
            forall|j: int| 0 <= j < k ==> hay@[at + j] == needle@[j],
        decreases needle@.len() - k,
    {
        if hay[at + k] != needle[k] {
            proof {
                let sub = hay@.subrange(at as int, at + needle@.len());
                assert(sub[k as int] == hay@[at + k]);
            }
            return false;
        }
        k += 1;
    }
    assert(hay@.subrange(at as int, at + needle@.len()) =~= needle@);
    true
}

/// Find a byte pattern from an offset.
pub fn find_bytes(haystack: &[u8], needle: &[u8], start: usize) -> (r: Option<usize>)
    requires
        needle@.len() > 0,
    ensures
        match r {
            Some(p) => first_from(haystack@, needle@, start as int) == Some(p as int) && start <= p
                && p + needle.len() <= haystack.len(),
            None => first_from(haystack@, needle@, start as int) is None,
        },
{
    let mut i: usize = start;
    while i < haystack.len() && needle.len() <= haystack.len() - i
        invariant
            start <= i,
            needle@.len() > 0,
            first_from(haystack@, needle@, start as int) == first_from(
                haystack@,
                needle@,
                i as int,
            ),
        decreases haystack@.len() - i,
    {
        if bytes_match_at(haystack, needle, i) {
            return Some(i);
        }
        i += 1;
    }
    None
}

proof fn lemma_first(hay: Seq<u8>, needle: Seq<u8>, i: int)
    requires
        0 <= i,
        needle.len() > 0,
    ensures
        match first_from(hay, needle, i) {
            Some(p) => i <= p && occurs_at(hay, needle, p) && forall|q: int|
                i <= q < p ==> !occurs_at(hay, needle, q),
            None => forall|q: int| i <= q ==> !occurs_at(hay, needle, q),
        },
    decreases hay.len() - i,
{
    if i + needle.len() <= hay.len() && !occurs_at(hay, needle, i) {
        lemma_first(hay, needle, i + 1);
    }
}

/// Tells whether a byte pattern occurs.
pub fn contains_bytes(haystack: &[u8], needle: &[u8]) -> (r: bool)
    requires
        needle@.len() > 0,
    ensures
        r == occurs_in(haystack@, needle@),
{
    proof {
        lemma_first(haystack@, needle@, 0);
    }
    find_bytes(haystack, needle, 0).is_some()
}

/// What is found first occurs, and nothing occurs before it; where nothing is found, nothing
/// occurs.
pub proof fn law_find_first(hay: Seq<u8>, needle: Seq<u8>, start: int)
    requires
        0 <= start,
        needle.len() > 0,
    ensures
        match first_from(hay, needle, start) {
            Some(p) => start <= p && occurs_at(hay, needle, p) && forall|q: int|
                start <= q < p ==> !occurs_at(hay, needle, q),
            None => forall|q: int| start <= q ==> !occurs_at(hay, needle, q),
        },
{
    lemma_first(hay, needle, start);
}

/// Whether a byte is an ASCII digit.
pub open spec fn digit_byte(b: u8) -> bool {
    0x30 <= b <= 0x39
}

/// How many digits stand in a row from `i` on.
pub open spec fn digit_run(d: Seq<u8>, i: int) -> nat
    decreases d.len() - i,
{
    if 0 <= i < d.len() && digit_byte(d[i]) {
        1 + digit_run(d, i + 1)
    } else {
        0
    }
}

/// The number that the `n` digits from `i` on write.
pub open spec fn number_at(d: Seq<u8>, i: int, n: nat) -> nat
    decreases n,
{
    if n == 0 {
        0
    } else {
        number_at(d, i, (n - 1) as nat) * 10 + (d[i + n - 1] - 0x30) as nat
    }
}

/// The integer that follows the first occurrence of a key: zero where there is none, or
/// none that fits 32 bits.
pub open spec fn integer_after(dict: Seq<u8>, key: Seq<u8>) -> u32 {
    match first_from(dict, key, 0) {
        Some(p) => {
            let at = p + key.len();
            let v = number_at(dict, at, digit_run(dict, at));
            if v <= u32::MAX {
                v as u32
            } else {
                0
            }
        },
        None => 0,
    }
}

proof fn lemma_run(d: Seq<u8>, i: int, k: int)
    requires
        0 <= i,
        0 <= k,
        i + k <= d.len(),
        forall|j: int| i <= j < i + k ==> digit_byte(#[trigger] d[j]),
    ensures
        digit_run(d, i) == k + digit_run(d, i + k),
    decreases k,
{
    if k > 0 {
        lemma_run(d, i + 1, k - 1);
    }
}

proof fn lemma_number_grows(d: Seq<u8>, i: int, k: nat, n: nat)
    requires
        k <= n,
        forall|j: int| i <= j < i + n ==> digit_byte(#[trigger] d[j]),
    ensures
        number_at(d, i, k) <= number_at(d, i, n),
    decreases n,
{
    if k < n {
        lemma_number_grows(d, i, k, (n - 1) as nat);
        assert(digit_byte(d[i + n - 1]));
    }
}

proof fn lemma_run_digits(d: Seq<u8>, i: int, j: int)
    requires
        i <= j < i + digit_run(d, i),
    ensures
        digit_byte(d[j]),
    decreases j - i,
{
    if j > i {
        lemma_run_digits(d, i + 1, j);
    }
}

/// Extract the integer following a PDF key (e.g. `/Width 1228`).
pub fn extract_int(dict: &[u8], key: &[u8]) -> (r: u32)
    requires
        key@.len() > 0,
    ensures
        r == integer_after(dict@, key@),
{
    let p = match find_bytes(dict, key, 0) {
        Some(p) => p,
        None => return 0,
    };
    let at: usize = p + key.len();
    let mut i: usize = at;
    let mut v: u64 = 0;
    while i < dict.len() && 0x30 <= dict[i] && dict[i] <= 0x39
        invariant
            at <= i <= dict@.len(),
            v == number_at(dict@, at as int, (i - at) as nat),
            v <= u32::MAX,
            first_from(dict@, key@, 0) == Some(p as int),
            at == p + key@.len(),
            forall|j: int| at <= j < i ==> digit_byte(#[trigger] dict@[j]),
        decreases dict@.len() - i,
    {
        v = v * 10 + (dict[i] - 0x30) as u64;
        i += 1;
        if v > u32::MAX as u64 {
            proof {
                lemma_run(dict@, at as int, i - at);
                assert forall|j: int| at <= j < at + digit_run(dict@, at as int) implies digit_byte(
                    #[trigger] dict@[j],
                ) by {
                    lemma_run_digits(dict@, at as int, j);
                }
                lemma_number_grows(
                    dict@,
                    at as int,
                    (i - at) as nat,
                    digit_run(dict@, at as int),
                );
            }
            return 0;
        }
    }
    proof {
        lemma_run(dict@, at as int, i - at);
    }
    v as u32
}

/// The first place is where the text stands and no earlier one from `i` on is; there is none
/// where it stands nowhere.
pub proof fn law_first_place(hay: Seq<u8>, needle: Seq<u8>, i: int, j: int)
    requires
        0 <= i <= j,
        needle.len() > 0,
    ensures
        first_from(hay, needle, i) matches Some(p) ==> i <= p && p + needle.len() <= hay.len()
            && hay.subrange(p, p + needle.len()) == needle,
        j + needle.len() <= hay.len() && hay.subrange(j, j + needle.len()) == needle ==> (
        first_from(hay, needle, i) matches Some(p) && p <= j),
    decreases hay.len() - i,
{
    if i + needle.len() <= hay.len() {
        if occurs_at(hay, needle, i) {
            assert(hay.subrange(i, i + needle.len()) =~= needle);
        } else {
            if hay.subrange(i, i + needle.len()) == needle {
                assert(hay.subrange(i, i + needle.len()) =~= needle);
                assert(occurs_at(hay, needle, i));
            }
            if j > i {
                law_first_place(hay, needle, i + 1, j);
            } else {
                law_first_place(hay, needle, i + 1, i + 1);
            }
        }
    }
}

/// A run of digits goes on to the first byte that is none, and not beyond the data.
pub proof fn law_digit_run(d: Seq<u8>, i: int, j: int)
    requires
        0 <= i <= d.len(),
    ensures
        i + digit_run(d, i) <= d.len(),
        i <= j < i + digit_run(d, i) ==> 48 <= d[j] <= 57,
        i + digit_run(d, i) < d.len() ==> d[i + digit_run(d, i)] < 48 || d[i + digit_run(d, i)] > 57,
    decreases d.len() - i,
{
    if i < d.len() && digit_byte(d[i]) {
        law_digit_run(d, i + 1, j);
    }
}

/// A number is its first digits times ten and the last; in front of it zeros do not matter.
pub proof fn law_number(d: Seq<u8>, i: int, n: nat)
    requires
        0 <= i,
        i + n <= d.len(),
        n > 0,
        forall|k: int| i <= k < i + n ==> 48 <= #[trigger] d[k] <= 57,
    ensures
        number_at(d, i, 1) == d[i] - 48,
        n > 1 ==> number_at(d, i, n) == 10 * number_at(d, i, (n - 1) as nat) + (d[i + n - 1] - 48),
        d[i] == 48 ==> number_at(d, i, n) == number_at(d, i + 1, (n - 1) as nat),
    decreases n,
{
    assert(number_at(d, i, 0) == 0 && number_at(d, i + 1, 0) == 0);
    assert(d[i] >= 48);
    if n > 1 {
        law_number(d, i, (n - 1) as nat);
        assert(d[i + n - 1] == d[(i + 1) + (n - 1) - 1]);
        assert(d[i + n - 1] >= 48);
    }
}

/// The number behind a key is that of the digits there where they fit in 32 bits, and zero
/// where they do not, where there are none, or without the key.
pub proof fn law_integer_after(dict: Seq<u8>, key: Seq<u8>)
    requires
        key.len() > 0,
    ensures
        first_from(dict, key, 0) is None ==> integer_after(dict, key) == 0,
        first_from(dict, key, 0) matches Some(p) ==> ({
            let v = number_at(dict, p + key.len(), digit_run(dict, p + key.len()));
            integer_after(dict, key) == if v < 4_294_967_296 {
                v as int
            } else {
                0
            }
        }),
{
}

} // verus!
