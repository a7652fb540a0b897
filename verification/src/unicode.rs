//! Bytes as text: decoding, letter case, white space and numbers.

use crate::text::decimal_text;
use vstd::prelude::*;
use vstd::string::*;
use vstd::utf8::{decode_utf8, valid_utf8};

verus! {

/// The text of bytes with every ill-formed sequence replaced
/// (`String::from_utf8_lossy`).
pub uninterp spec fn lossy_chars(bytes: Seq<u8>) -> Seq<char>;

/// A text in lower case (`str::to_lowercase`).
pub uninterp spec fn lowercase(s: Seq<char>) -> Seq<char>;

/// Whether a character is white space: one of those with the `White_Space` property of
/// Unicode.
pub open spec fn white_space(c: char) -> bool {
    let n = c as u32;
    ||| 0x0009 <= n <= 0x000d
    ||| n == 0x0020
    ||| n == 0x0085
    ||| n == 0x00a0
    ||| n == 0x1680
    ||| 0x2000 <= n <= 0x200a
    ||| n == 0x2028
    ||| n == 0x2029
    ||| n == 0x202f
    ||| n == 0x205f
    ||| n == 0x3000
}

/// Decodes bytes with `String::from_utf8_lossy`, which replaces every ill-formed sequence.
/// Well-formed bytes are decoded exactly; the result on any bytes is named by
/// [`lossy_chars`].
#[verifier::external_body]
pub(crate) fn lossy(bytes: &[u8]) -> (r: String)
    ensures
        r@ == lossy_chars(bytes@),
        valid_utf8(bytes@) ==> r@ == decode_utf8(bytes@),
{
    String::from_utf8_lossy(bytes).into_owned()
}

/// Decodes bytes with `std::str::from_utf8`, which succeeds on well-formed bytes only.
#[verifier::external_body]
pub(crate) fn utf8_text(bytes: &[u8]) -> (r: Option<String>)
    ensures
        match r {
            Some(s) => valid_utf8(bytes@) && s@ == decode_utf8(bytes@),
            None => !valid_utf8(bytes@),
        },
{
    std::str::from_utf8(bytes).ok().map(|s| s.to_string())
}

/// A text in lower case, by `str::to_lowercase`. The result is named by [`lowercase`].
#[verifier::external_body]
pub(crate) fn lowered(s: &str) -> (r: String)
    ensures
        r@ == lowercase(s@),
{
    s.to_lowercase()
}

/// Whether a character is white space, by `char::is_whitespace`: whether it has the
/// `White_Space` property of Unicode, which is that of the characters that [`white_space`]
/// lists.
#[verifier::external_body]
pub(crate) fn is_white(c: char) -> (r: bool)
    ensures
        r == white_space(c),
{
    c.is_whitespace()
}

/// `String::push` appends one character.
pub assume_specification[ String::push ](s: &mut String, c: char)
    ensures
        final(s)@ == old(s)@.push(c),
;

/// A text without the white space before it.
pub open spec fn without_lead(s: Seq<char>) -> Seq<char>
    decreases s.len(),
{
    if s.len() > 0 && white_space(s[0]) {
        without_lead(s.drop_first())
    } else {
        s
    }
}

/// A text without the white space after it.
pub open spec fn without_tail(s: Seq<char>) -> Seq<char>
    decreases s.len(),
{
    if s.len() > 0 && white_space(s.last()) {
        without_tail(s.drop_last())
    } else {
        s
    }
}

/// A text without the white space around it.
pub open spec fn trimmed(s: Seq<char>) -> Seq<char> {
    without_tail(without_lead(s))
}

/// Removes the white space around a text.
pub fn trim(s: &Vec<char>) -> (r: Vec<char>)
    ensures
        r@ == trimmed(s@),
{
    let mut from: usize = 0;
    assert(s@.subrange(0, s@.len() as int) =~= s@);
    while from < s.len() && is_white(s[from])
        invariant
            from <= s@.len(),
            without_lead(s@) == without_lead(s@.subrange(from as int, s@.len() as int)),
        decreases s@.len() - from,
    {
        proof {
            assert(s@.subrange(from as int, s@.len() as int).drop_first() =~= s@.subrange(
                from + 1,
                s@.len() as int,
            ));
        }
        from += 1;
    }
    let mut to: usize = s.len();
    while to > from && is_white(s[to - 1])
        invariant
            from <= to <= s@.len(),
            trimmed(s@) == without_tail(s@.subrange(from as int, to as int)),
        decreases to,
    {
        proof {
            assert(s@.subrange(from as int, to as int).drop_last() =~= s@.subrange(
                from as int,
                to - 1,
            ));
        }
        to -= 1;
    }
    let mut r: Vec<char> = Vec::new();
    let mut i: usize = from;
    while i < to
        invariant
            from <= i <= to <= s@.len(),
            r@ == s@.subrange(from as int, i as int),
        decreases to - i,
    {
        r.push(s[i]);
        i += 1;
        assert(r@ =~= s@.subrange(from as int, i as int));
    }
    r
}

/// Whether a character is a decimal digit.
pub open spec fn is_digit(c: char) -> bool {
    '0' <= c <= '9'
}

/// The number that digits write.
pub open spec fn digits_value(s: Seq<char>) -> nat
    decreases s.len(),
{
    if s.len() == 0 {
        0
    } else {
        digits_value(s.drop_last()) * 10 + (s.last() as int - '0' as int) as nat
    }
}

/// The digits of a number that may have a plus sign.
pub open spec fn unsigned_digits(s: Seq<char>) -> Seq<char> {
    if s.len() > 0 && s[0] == '+' {
        s.drop_first()
    } else {
        s
    }
}

/// The 32-bit number that a text writes: digits, at least one, after an optional plus sign.
pub open spec fn number_in(s: Seq<char>) -> Option<u32> {
    let d = unsigned_digits(s);
    if d.len() > 0 && (forall|i: int| 0 <= i < d.len() ==> is_digit(#[trigger] d[i]))
        && digits_value(d) <= u32::MAX {
        Some(digits_value(d) as u32)
    } else {
        None
    }
}

proof fn lemma_digits_grow(s: Seq<char>, n: int)
    requires
        0 <= n <= s.len(),
        forall|i: int| 0 <= i < s.len() ==> is_digit(#[trigger] s[i]),
    ensures
        digits_value(s.take(n)) <= digits_value(s),
    decreases s.len(),
{
    if n == s.len() {
        assert(s.take(n) =~= s);
    } else {
        lemma_digits_grow(s.drop_last(), n);
        assert(s.drop_last().take(n) =~= s.take(n));
    }
}

/// Reads a 32-bit number.
pub fn parse_number(s: &Vec<char>) -> (r: Option<u32>)
    ensures
        r == number_in(s@),
{
    let from: usize = if s.len() > 0 && s[0] == '+' {
        1
    } else {
        0
    };
    let ghost d = unsigned_digits(s@);
    assert(d =~= s@.subrange(from as int, s@.len() as int));
    if s.len() == from {
        return None;
    }
    let mut v: u64 = 0;
    let mut i: usize = from;
    assert(d.take(0) =~= seq![]);
    while i < s.len()
        invariant
            from <= i <= s@.len(),
            from <= 1,
            d == unsigned_digits(s@),
            d == s@.subrange(from as int, s@.len() as int),
            v == digits_value(d.take(i - from)),
            v <= u32::MAX,
            forall|j: int| 0 <= j < i - from ==> is_digit(#[trigger] d[j]),
        decreases s@.len() - i,
    {
        let c = s[i];
        assert(d[i - from] == c);
        if c < '0' || c > '9' {
            return None;
        }
        v = v * 10 + (c as u64 - '0' as u64);
        proof {
            assert(d.take(i + 1 - from).drop_last() =~= d.take(i - from));
            assert(d.take(i + 1 - from).last() == c);
        }
        i += 1;
        if v > u32::MAX as u64 {
            proof {
                if forall|j: int| 0 <= j < d.len() ==> is_digit(#[trigger] d[j]) {
                    lemma_digits_grow(d, i - from);
                }
            }
            return None;
        }
    }
    assert(d.take(s@.len() - from) =~= d);
    Some(v as u32)
}

/// How many bytes a character takes in UTF-8.
pub open spec fn char_bytes(c: char) -> nat {
    if c as int <= 0x7f {
        1
    } else if c as int <= 0x7ff {
        2
    } else if c as int <= 0xffff {
        3
    } else {
        4
    }
}

/// How many bytes a text takes in UTF-8.
pub open spec fn text_bytes(s: Seq<char>) -> nat
    decreases s.len(),
{
    if s.len() == 0 {
        0
    } else {
        text_bytes(s.drop_last()) + char_bytes(s.last())
    }
}

/// The bytes that a character takes in UTF-8.
pub fn char_len(c: char) -> (r: usize)
    ensures
        r == char_bytes(c),
        1 <= r <= 4,
{
    let n: u32 = c as u32;
    if n <= 0x7f {
        1
    } else if n <= 0x7ff {
        2
    } else if n <= 0xffff {
        3
    } else {
        4
    }
}

/// The number of a text that shows a number is that number.
pub proof fn law_decimal_reads_back(n: nat)
    ensures
        digits_value(decimal_text(n)) == n,
        n <= u32::MAX ==> number_in(decimal_text(n)) == Some(n as u32),
        n <= u32::MAX ==> number_in("+"@ + decimal_text(n)) == Some(n as u32),
{
    lemma_shown_digits(n);
    let t = decimal_text(n);
    assert(is_digit(t[0]));
    reveal_strlit("+");
    assert(("+"@ + t).drop_first() =~= t);
}

proof fn lemma_shown_digits(n: nat)
    ensures
        decimal_text(n).len() > 0,
        forall|i: int| 0 <= i < decimal_text(n).len() ==> is_digit(#[trigger] decimal_text(n)[i]),
        digits_value(decimal_text(n)) == n,
    decreases n,
{
    let t = decimal_text(n);
    if n < 10 {
        assert(t.drop_last() =~= Seq::<char>::empty());
        assert(digits_value(t.drop_last()) == 0);
    } else {
        lemma_shown_digits(n / 10);
        let s = decimal_text(n / 10);
        assert(t.drop_last() =~= s);
        assert forall|i: int| 0 <= i < t.len() implies is_digit(#[trigger] t[i]) by {
            if i < s.len() {
                assert(t[i] == s[i]);
            }
        }
    }
}

/// A number fits in 32 bits and is all digits, behind one plus at most.
pub proof fn law_no_number(s: Seq<char>, i: int)
    requires
        0 <= i < s.len(),
        s[i] != '+' || i > 0,
        (s[i] as int) < 48 || (s[i] as int) > 57,
    ensures
        number_in(s) is None,
        number_in(Seq::empty()) is None,
{
    let d = unsigned_digits(s);
    let k = if s[0] == '+' {
        i - 1
    } else {
        i
    };
    assert(d[k] == s[i]);
    assert(!is_digit(d[k]));
}

/// A trimmed text neither begins nor ends with white space, and only white space was cut.
pub proof fn law_trimmed(s: Seq<char>)
    ensures
        trimmed(s).len() > 0 ==> !white_space(trimmed(s)[0]) && !white_space(trimmed(s).last()),
        s.len() > 0 && !white_space(s[0]) && !white_space(s.last()) ==> trimmed(s) == s,
        white_space(' ') && white_space('\t') && white_space('\n'),
{
    lemma_lead(s);
    lemma_tail(without_lead(s));
}

proof fn lemma_lead(s: Seq<char>)
    ensures
        without_lead(s).len() > 0 ==> !white_space(without_lead(s)[0]),
    decreases s.len(),
{
    if s.len() > 0 && white_space(s[0]) {
        lemma_lead(s.drop_first());
    }
}

proof fn lemma_tail(s: Seq<char>)
    requires
        s.len() > 0 ==> !white_space(s[0]),
    ensures
        without_tail(s).len() > 0 ==> !white_space(without_tail(s).last()) && !white_space(
            without_tail(s)[0],
        ),
    decreases s.len(),
{
    if s.len() > 0 && white_space(s.last()) {
        if s.len() > 1 {
            assert(s.drop_last()[0] == s[0]);
        }
        lemma_tail(s.drop_last());
    }
}

/// White space in front or behind changes nothing of a trimmed text.
pub proof fn law_trimmed_again(s: Seq<char>, c: char)
    requires
        white_space(c),
        s.len() > 0 && !white_space(s[0]),
    ensures
        trimmed(seq![c] + s) == trimmed(s),
        trimmed(s.push(c)) == trimmed(s),
{
    assert((seq![c] + s).drop_first() =~= s);
    assert(s.push(c).drop_last() =~= s);
    assert(s.push(c)[0] == s[0]);
}

/// The characters that are white space.
pub proof fn law_white_space(c: char)
    ensures
        white_space(c) <==> ({
            let n = c as int;
            (9 <= n < 14) || n == 32 || n == 133 || n == 160 || n == 5760 || (8192 <= n < 8203) || n
                == 8232 || n == 8233 || n == 8239 || n == 8287 || n == 12288
        }),
{
}

/// Of white space alone nothing is left.
pub proof fn law_trimmed_blank(s: Seq<char>)
    requires
        forall|i: int| 0 <= i < s.len() ==> white_space(#[trigger] s[i]),
    ensures
        trimmed(s).len() == 0,
        without_tail(s).len() == 0,
    decreases s.len(),
{
    if s.len() > 0 {
        assert(white_space(s[0]) && white_space(s.last()));
        assert forall|i: int| 0 <= i < s.drop_first().len() implies white_space(
            #[trigger] s.drop_first()[i],
        ) by {
            assert(white_space(s[i + 1]));
        }
        law_trimmed_blank(s.drop_first());
        assert forall|i: int| 0 <= i < s.drop_last().len() implies white_space(
            #[trigger] s.drop_last()[i],
        ) by {
            assert(white_space(s[i]));
        }
        law_trimmed_blank(s.drop_last());
    }
}

} // verus!
