//! Text building and searching.
//!
//! Texts are seen through their views, sequences of characters. What these
//! functions compute is stated over such sequences.

use vstd::prelude::*;
use vstd::string::*;

verus! {

/// The decimal digit of a value below ten.
pub open spec fn digit(n: nat) -> char {
    if n == 0 {
        '0'
    } else if n == 1 {
        '1'
    } else if n == 2 {
        '2'
    } else if n == 3 {
        '3'
    } else if n == 4 {
        '4'
    } else if n == 5 {
        '5'
    } else if n == 6 {
        '6'
    } else if n == 7 {
        '7'
    } else if n == 8 {
        '8'
    } else {
        '9'
    }
}

/// A natural number in decimal notation, without leading zeros.
pub open spec fn decimal_text(n: nat) -> Seq<char>
    decreases n,
{
    if n < 10 {
        seq![digit(n)]
    } else {
        decimal_text(n / 10).push(digit(n % 10))
    }
}

fn digit_str(n: u64) -> (r: &'static str)
    requires
        n < 10,
    ensures
        r@ =~= seq![digit(n as nat)],
{
    proof {
        reveal_strlit("0");
        reveal_strlit("1");
        reveal_strlit("2");
        reveal_strlit("3");
        reveal_strlit("4");
        reveal_strlit("5");
        reveal_strlit("6");
        reveal_strlit("7");
        reveal_strlit("8");
        reveal_strlit("9");
    }
    if n == 0 {
        "0"
    } else if n == 1 {
        "1"
    } else if n == 2 {
        "2"
    } else if n == 3 {
        "3"
    } else if n == 4 {
        "4"
    } else if n == 5 {
        "5"
    } else if n == 6 {
        "6"
    } else if n == 7 {
        "7"
    } else if n == 8 {
        "8"
    } else {
        "9"
    }
}

/// Writes a number in decimal notation.
pub fn decimal(n: u64) -> (r: String)
    ensures
        r@ == decimal_text(n as nat),
    decreases n,
{
    if n < 10 {
        digit_str(n).to_string()
    } else {
        let mut s = decimal(n / 10);
        s.append(digit_str(n % 10));
        proof {
            assert(decimal_text((n / 10) as nat) + seq![digit((n % 10) as nat)] =~= decimal_text(
                (n / 10) as nat,
            ).push(digit((n % 10) as nat)));
        }
        s
    }
}

/// Appends a number in decimal notation.
pub fn append_decimal(s: &mut String, n: u64)
    ensures
        final(s)@ == old(s)@ + decimal_text(n as nat),
{
    let d = decimal(n);
    s.append(d.as_str());
}

/// The characters of a text as a vector.
pub fn chars_of(s: &str) -> (r: Vec<char>)
    ensures
        r@ == s@,
{
    let mut v: Vec<char> = Vec::new();
    for c in it: s.chars()
        invariant
            v@ =~= s@.take(it.index() as int),
            it.seq() == s@,
    {
        v.push(c);
    }
    proof {
        assert(s@.take(s@.len() as int) =~= s@);
    }
    v
}

/// Whether `needle` occurs in `hay` at position `at`.
pub open spec fn occurs_at<T>(hay: Seq<T>, needle: Seq<T>, at: int) -> bool {
    0 <= at && at + needle.len() <= hay.len() && hay.subrange(at, at + needle.len()) == needle
}

/// Whether `needle` occurs anywhere in `hay`.
pub open spec fn occurs_in<T>(hay: Seq<T>, needle: Seq<T>) -> bool {
    exists|at: int| occurs_at(hay, needle, at)
}

/// Whether `hay` begins with `prefix`.
pub open spec fn begins_with<T>(hay: Seq<T>, prefix: Seq<T>) -> bool {
    occurs_at(hay, prefix, 0)
}

/// Tells whether `needle` stands in `hay` at position `at`.
pub fn chars_match_at(hay: &Vec<char>, needle: &Vec<char>, at: usize) -> (r: bool)
    ensures
        r == occurs_at(hay@, needle@, at as int),
{
    if needle.len() > hay.len() || at > hay.len() - needle.len() {
        return false;
    }
    let mut k: usize = 0;
    while k < needle.len()
        invariant
            at + needle.len() <= hay.len(),
            k <= needle.len(),
            forall|j: int| 0 <= j < k ==> hay@[at + j] == needle@[j],
        decreases needle.len() - k,
    {
        if hay[at + k] != needle[k] {
            proof {
                let sub = hay@.subrange(at as int, at + needle@.len());
                assert(sub[k as int] == hay@[at + k]);
            }
            return false;
        }
        k += 1;
    }
    proof {
        assert(hay@.subrange(at as int, at + needle@.len()) =~= needle@);
    }
    true
}

/// Tells whether one character sequence occurs in another.
pub fn chars_contain(hay: &Vec<char>, needle: &Vec<char>) -> (r: bool)
    ensures
        r == occurs_in(hay@, needle@),
{
    if needle.len() > hay.len() {
        return false;
    }
    let last: usize = hay.len() - needle.len();
    let mut at: usize = 0;
    while at < last
        invariant
            last == hay.len() - needle.len(),
            at <= last,
            forall|j: int| 0 <= j < at ==> !occurs_at(hay@, needle@, j),
        decreases last - at,
    {
        if chars_match_at(hay, needle, at) {
            return true;
        }
        at += 1;
    }
    chars_match_at(hay, needle, last)
}

/// Tells whether `needle` occurs in `hay`.
pub fn contains(hay: &str, needle: &str) -> (r: bool)
    ensures
        r == occurs_in(hay@, needle@),
{
    let h = chars_of(hay);
    let n = chars_of(needle);
    chars_contain(&h, &n)
}

/// Tells whether `s` begins with `prefix`.
pub fn starts_with(s: &str, prefix: &str) -> (r: bool)
    ensures
        r == begins_with(s@, prefix@),
{
    let h = chars_of(s);
    let n = chars_of(prefix);
    chars_match_at(&h, &n, 0)
}

/// The values of a list of texts.
pub open spec fn texts(v: Seq<&'static str>) -> Seq<Seq<char>> {
    Seq::new(v.len(), |k: int| v[k]@)
}

/// The values of a list of owned texts.
pub open spec fn strings(v: Seq<String>) -> Seq<Seq<char>> {
    Seq::new(v.len(), |k: int| v[k]@)
}

/// Counts the different texts of a list.
pub fn count_distinct(v: &Vec<String>) -> (r: usize)
    ensures
        r == strings(v@).to_set().len(),
{
    let mut count: usize = 0;
    let mut i: usize = 0;
    let ghost s = strings(v@);
    assert(s.take(0).to_set() =~= Set::<Seq<char>>::empty());
    while i < v.len()
        invariant
            s == strings(v@),
            count <= i <= v@.len(),
            count == s.take(i as int).to_set().len(),
            s.take(i as int).to_set().finite(),
        decreases v@.len() - i,
    {
        let mut seen = false;
        let mut j: usize = 0;
        while j < i
            invariant
                j <= i < v@.len(),
                s == strings(v@),
                seen == exists|k: int| 0 <= k < j && #[trigger] s[k] == s[i as int],
            decreases i - j,
        {
            let same = same_text(v[j].as_str(), v[i].as_str());
            assert(s[j as int] == v@[j as int]@ && s[i as int] == v@[i as int]@);
            if same {
                seen = true;
            }
            j += 1;
        }
        proof {
            let before = s.take(i as int);
            let after = s.take(i + 1);
            assert(after =~= before.push(s[i as int]));
            assert(after.to_set() =~= before.to_set().insert(s[i as int])) by {
                assert forall|x: Seq<char>|
                    after.to_set().contains(x) == before.to_set().insert(s[i as int]).contains(
                        x,
                    ) by {
                    if after.contains(x) {
                        let k = choose|k: int| 0 <= k < after.len() && after[k] == x;
                        if k < i {
                            assert(before[k] == x);
                        }
                    }
                    if before.contains(x) {
                        let k = choose|k: int| 0 <= k < before.len() && before[k] == x;
                        assert(after[k] == x);
                    }
                    assert(after[i as int] == s[i as int]);
                }
            }
            if seen {
                let k = choose|k: int| 0 <= k < i && #[trigger] s[k] == s[i as int];
                assert(before[k] == s[i as int]);
            } else if before.contains(s[i as int]) {
                let k = choose|k: int| 0 <= k < before.len() && before[k] == s[i as int];
                assert(s[k] == s[i as int]);
            }
        }
        if !seen {
            count += 1;
        }
        i += 1;
    }
    assert(s.take(i as int) =~= s);
    count
}

/// The first `n` texts with a separator between them.
pub open spec fn joined(t: Seq<Seq<char>>, separator: Seq<char>, n: nat) -> Seq<char>
    decreases n,
{
    if n == 0 {
        Seq::empty()
    } else if n == 1 {
        t[0]
    } else {
        joined(t, separator, (n - 1) as nat) + separator + t[n - 1]
    }
}

/// Joins the first `n` texts with a separator.
pub fn join(t: &Vec<String>, separator: &str, n: usize) -> (r: String)
    requires
        n <= t.len(),
    ensures
        r@ == joined(strings(t@), separator@, n as nat),
{
    if n == 0 {
        return String::new();
    }
    let mut s = t[0].clone();
    let mut i: usize = 1;
    proof {
        assert(strings(t@)[0] == t@[0]@);
    }
    while i < n
        invariant
            1 <= i <= n <= t.len(),
            s@ == joined(strings(t@), separator@, i as nat),
        decreases n - i,
    {
        proof {
            assert(strings(t@)[i as int] == t@[i as int]@);
        }
        s.append(separator);
        s.append(t[i].as_str());
        i += 1;
    }
    s
}

/// Whether some text of a list occurs in `hay`.
pub open spec fn any_in(hay: Seq<char>, list: Seq<Seq<char>>) -> bool {
    exists|k: int| 0 <= k < list.len() && occurs_in(hay, #[trigger] list[k])
}

/// Tells whether some text of a list occurs in `hay`.
pub fn contains_any(hay: &Vec<char>, list: &Vec<&'static str>) -> (r: bool)
    ensures
        r == any_in(hay@, texts(list@)),
{
    let mut k: usize = 0;
    while k < list.len()
        invariant
            k <= list@.len(),
            forall|j: int| 0 <= j < k ==> !occurs_in(hay@, #[trigger] texts(list@)[j]),
        decreases list@.len() - k,
    {
        let needle = chars_of(list[k]);
        assert(texts(list@)[k as int] == needle@);
        if chars_contain(hay, &needle) {
            return true;
        }
        k += 1;
    }
    false
}

/// Tells whether two texts are equal.
pub fn same_text(a: &str, b: &str) -> (r: bool)
    ensures
        r == (a@ == b@),
{
    a.to_string() == b.to_string()
}

/// Lexicographic order of two texts by character code.
pub open spec fn text_before(a: Seq<char>, b: Seq<char>) -> bool
    decreases a.len(),
{
    if b.len() == 0 {
        false
    } else if a.len() == 0 {
        true
    } else if a[0] == b[0] {
        text_before(a.drop_first(), b.drop_first())
    } else {
        a[0] < b[0]
    }
}

/// Tells whether one text comes strictly before another.
pub fn is_text_before(a: &str, b: &str) -> (r: bool)
    ensures
        r == text_before(a@, b@),
{
    let x = chars_of(a);
    let y = chars_of(b);
    let mut k: usize = 0;
    proof {
        assert(a@.skip(0) =~= a@);
        assert(b@.skip(0) =~= b@);
    }
    while k < x.len() && k < y.len() && x[k] == y[k]
        invariant
            k <= x.len(),
            k <= y.len(),
            x@ == a@,
            y@ == b@,
            text_before(a@, b@) == text_before(a@.skip(k as int), b@.skip(k as int)),
        decreases x.len() - k,
    {
        proof {
            assert(a@.skip(k as int).drop_first() =~= a@.skip(k + 1));
            assert(b@.skip(k as int).drop_first() =~= b@.skip(k + 1));
        }
        k += 1;
    }
    if k == y.len() {
        false
    } else if k == x.len() {
        true
    } else {
        x[k] < y[k]
    }
}

/// An integer in decimal notation, with its sign.
pub open spec fn signed_text(n: int) -> Seq<char> {
    if n < 0 {
        "-"@ + decimal_text((-n) as nat)
    } else {
        "+"@ + decimal_text(n as nat)
    }
}

/// Writes an integer in decimal notation, with its sign.
pub fn signed_decimal(n: i64) -> (r: String)
    requires
        n > i64::MIN,
    ensures
        r@ == signed_text(n as int),
{
    if n < 0 {
        let mut s = "-".to_string();
        append_decimal(&mut s, (-n) as u64);
        s
    } else {
        let mut s = "+".to_string();
        append_decimal(&mut s, n as u64);
        s
    }
}

/// A sorted list of texts with one more, which is left out if it is there already.
pub open spec fn with_text(s: Seq<Seq<char>>, t: Seq<char>, k: nat) -> Seq<Seq<char>>
    decreases s.len() - k,
{
    if k >= s.len() {
        s.push(t)
    } else if s[k as int] == t {
        s
    } else if text_before(t, s[k as int]) {
        s.insert(k as int, t)
    } else {
        with_text(s, t, k + 1)
    }
}

/// Adds a text to a sorted list, unless it is there already.
pub fn insert_text(sources: &mut Vec<String>, t: &String)
    ensures
        strings(final(sources)@) == with_text(strings(old(sources)@), t@, 0),
{
    let ghost s = strings(sources@);
    let mut k: usize = 0;
    while k < sources.len()
        invariant
            k <= sources.len(),
            s == strings(sources@),
            s == strings(old(sources)@),
            with_text(s, t@, 0) == with_text(s, t@, k as nat),
        decreases sources.len() - k,
    {
        proof {
            assert(s[k as int] == sources@[k as int]@);
        }
        if sources[k] == *t {
            return;
        }
        if is_text_before(t.as_str(), sources[k].as_str()) {
            sources.insert(k, t.clone());
            proof {
                assert(strings(sources@) =~= s.insert(k as int, t@));
            }
            return;
        }
        k += 1;
    }
    sources.push(t.clone());
    proof {
        assert(strings(sources@) =~= s.push(t@));
    }
}

/// A list of texts in alphabetical order, with none twice.
pub open spec fn ascending_texts(s: Seq<Seq<char>>) -> bool {
    forall|i: int, j: int| 0 <= i < j < s.len() ==> text_before(#[trigger] s[i], #[trigger] s[j])
}

proof fn lemma_text_total(a: Seq<char>, b: Seq<char>)
    ensures
        a == b || text_before(a, b) || text_before(b, a),
    decreases a.len(),
{
    if a.len() > 0 && b.len() > 0 && a[0] == b[0] {
        lemma_text_total(a.drop_first(), b.drop_first());
        if a.drop_first() == b.drop_first() {
            assert(a =~= seq![a[0]] + a.drop_first());
            assert(b =~= seq![b[0]] + b.drop_first());
        }
    } else if a.len() == 0 && b.len() == 0 {
        assert(a =~= b);
    } else if a.len() > 0 && b.len() > 0 {
        assert(text_before(a, b) == (a[0] < b[0]));
        assert(text_before(b, a) == (b[0] < a[0]));
    }
}

proof fn lemma_text_transitive(a: Seq<char>, b: Seq<char>, c: Seq<char>)
    requires
        text_before(a, b),
        text_before(b, c),
    ensures
        text_before(a, c),
    decreases a.len(),
{
    if a.len() > 0 && a[0] == b[0] && b[0] == c[0] {
        lemma_text_transitive(a.drop_first(), b.drop_first(), c.drop_first());
    }
}

proof fn lemma_inserted(s: Seq<Seq<char>>, t: Seq<char>, k: nat)
    requires
        ascending_texts(s),
        k <= s.len(),
        forall|i: int| 0 <= i < k ==> text_before(#[trigger] s[i], t),
    ensures
        ascending_texts(with_text(s, t, k)),
        with_text(s, t, k).contains(t),
        forall|u: Seq<char>| s.contains(u) ==> with_text(s, t, k).contains(u),
        forall|u: Seq<char>| with_text(s, t, k).contains(u) ==> u == t || s.contains(u),
    decreases s.len() - k,
{
    let r = with_text(s, t, k);
    if k >= s.len() {
        assert(r =~= s.push(t));
        assert(r[s.len() as int] == t);
        assert forall|u: Seq<char>| s.contains(u) implies r.contains(u) by {
            let i = choose|i: int| 0 <= i < s.len() && s[i] == u;
            assert(r[i] == u);
        }
        assert forall|u: Seq<char>| r.contains(u) implies u == t || s.contains(u) by {
            let i = choose|i: int| 0 <= i < r.len() && r[i] == u;
            if i < s.len() {
                assert(s[i] == u);
            }
        }
    } else if s[k as int] == t {
    } else if text_before(t, s[k as int]) {
        assert(r == s.insert(k as int, t));
        assert(r[k as int] == t);
        assert forall|i: int, j: int| 0 <= i < j < r.len() implies text_before(
            #[trigger] r[i],
            #[trigger] r[j],
        ) by {
            let i0 = if i < k {
                i
            } else {
                i - 1
            };
            let j0 = if j < k {
                j
            } else {
                j - 1
            };
            if i != k && j != k {
                assert(r[i] == s[i0] && r[j] == s[j0]);
            } else if i == k {
                assert(r[j] == s[j0]);
                if j0 > k {
                    lemma_text_transitive(t, s[k as int], s[j0]);
                }
            } else {
                assert(r[i] == s[i]);
            }
        }
        assert forall|u: Seq<char>| s.contains(u) implies r.contains(u) by {
            let i = choose|i: int| 0 <= i < s.len() && s[i] == u;
            if i < k {
                assert(r[i] == u);
            } else {
                assert(r[i + 1] == u);
            }
        }
        assert forall|u: Seq<char>| r.contains(u) implies u == t || s.contains(u) by {
            let i = choose|i: int| 0 <= i < r.len() && r[i] == u;
            if i < k {
                assert(s[i] == u);
            } else if i > k {
                assert(s[i - 1] == u);
            }
        }
    } else {
        lemma_text_total(s[k as int], t);
        lemma_inserted(s, t, k + 1);
    }
}

/// Adding a text to a list in alphabetical order keeps the order, adds the text and loses
/// none.
pub proof fn law_insert_keeps_order(s: Seq<Seq<char>>, t: Seq<char>)
    requires
        ascending_texts(s),
    ensures
        ascending_texts(with_text(s, t, 0)),
        with_text(s, t, 0).contains(t),
        forall|u: Seq<char>| s.contains(u) ==> with_text(s, t, 0).contains(u),
        forall|u: Seq<char>| with_text(s, t, 0).contains(u) ==> u == t || s.contains(u),
{
    lemma_inserted(s, t, 0);
}

/// A text is in a list with one more just where it was there or is the one more.
pub proof fn lemma_with_text(s: Seq<Seq<char>>, t: Seq<char>, k: nat, x: Seq<char>)
    requires
        k <= s.len(),
    ensures
        with_text(s, t, k).contains(x) <==> s.contains(x) || x == t,
    decreases s.len() - k,
{
    let r = with_text(s, t, k);
    if k >= s.len() {
        assert(r[s.len() as int] == t);
        if s.contains(x) {
            assert(r[s.index_of(x)] == x);
        }
    } else if s[k as int] == t {
        assert(s.contains(t));
    } else if text_before(t, s[k as int]) {
        assert(r[k as int] == t);
        if s.contains(x) {
            let i = s.index_of(x);
            assert(r[if i < k {
                i
            } else {
                i + 1
            }] == x);
        }
        if r.contains(x) && x != t {
            let i = r.index_of(x);
            assert(s[if i < k {
                i
            } else {
                i - 1
            }] == x);
        }
    } else {
        lemma_with_text(s, t, k + 1, x);
    }
}

/// The characters of the digits follow each other from zero on.
pub proof fn law_digit(n: nat)
    requires
        n < 10,
    ensures
        digit(n) as int == 48 + n,
{
}

/// Texts are joined with the separator between each two.
pub proof fn law_joined(t: Seq<Seq<char>>, separator: Seq<char>, n: nat)
    requires
        n < t.len(),
    ensures
        joined(t, separator, 0).len() == 0,
        joined(t, separator, 1) == t[0],
        n > 0 ==> joined(t, separator, n + 1) == joined(t, separator, n) + separator + t[n as int],
{
}

/// Of two different texts one comes before the other, and no text before itself; the first
/// character that differs decides.
pub proof fn law_text_order(a: Seq<char>, b: Seq<char>)
    ensures
        a != b ==> (text_before(a, b) <==> !text_before(b, a)),
        !text_before(a, a),
        a.len() > 0 && b.len() > 0 && a[0] < b[0] ==> text_before(a, b),
        a.len() == 0 && b.len() > 0 ==> text_before(a, b),
    decreases a.len(),
{
    if a.len() > 0 {
        law_text_order(a.drop_first(), a.drop_first());
    }
    if a.len() > 0 && b.len() > 0 && a[0] == b[0] {
        law_text_order(a.drop_first(), b.drop_first());
        if a != b && a.drop_first() == b.drop_first() {
            assert(a =~= seq![a[0]] + a.drop_first());
            assert(b =~= seq![b[0]] + b.drop_first());
        }
    } else if a.len() == 0 && b.len() == 0 {
        assert(a =~= b);
    }
}

/// A signed number shows its sign, plus at zero.
pub proof fn law_signed(n: nat)
    ensures
        signed_text(n as int) == "+"@ + decimal_text(n),
        n > 0 ==> signed_text(-(n as int)) == "-"@ + decimal_text(n),
{
}

/// One word of a list is enough.
pub proof fn law_any_word(hay: Seq<char>, list: Seq<Seq<char>>, k: int)
    ensures
        0 <= k < list.len() && occurs_in(hay, list[k]) ==> any_in(hay, list),
        list.len() == 0 ==> !any_in(hay, list),
        (forall|j: int| 0 <= j < list.len() ==> !occurs_in(hay, #[trigger] list[j])) ==> !any_in(
            hay,
            list,
        ),
{
}

} // verus!
