use paddock_forensics::bytes::{bytes_match_at, contains_bytes, extract_int, find_bytes};
use paddock_forensics::double::{round, ONE};
use paddock_forensics::number::{is_share_above, is_share_below, round_half_even};
use paddock_forensics::text::{
    chars_contain, chars_of, contains, contains_any, count_distinct, decimal, insert_text,
    is_text_before, join, same_text, signed_decimal, starts_with,
};
use paddock_forensics::unicode::{char_len, parse_number, trim};

fn number(s: &str) -> Option<u32> {
    parse_number(&chars_of(s))
}

#[test]
fn decimals() {
    assert_eq!(decimal(0), "0");
    assert_eq!(decimal(1234567890), "1234567890");
    assert_eq!(decimal(u64::MAX), u64::MAX.to_string());
    assert_eq!(signed_decimal(-42), "-42");
    assert_eq!(signed_decimal(0), "+0");
    assert_eq!(signed_decimal(7), "+7");
}

#[test]
fn searching_texts() {
    assert!(contains("hello world", "o w"));
    assert!(contains("abc", ""));
    assert!(!contains("abc", "abcd"));
    assert!(starts_with("pdf_images", "pdf"));
    assert!(!starts_with("pd", "pdf"));
    assert!(same_text("ä", "ä"));
    assert!(!same_text("a", "b"));
    assert!(contains_any(&chars_of("adobe photoshop"), &vec!["gimp", "photoshop"]));
    assert!(!contains_any(&chars_of("adobe"), &vec!["gimp", "photoshop"]));
    assert!(chars_contain(&chars_of("xref"), &chars_of("ref")));
}

#[test]
fn joining_and_counting() {
    let v = vec!["a".to_string(), "b".to_string(), "a".to_string()];
    assert_eq!(join(&v, ", ", 3), "a, b, a");
    assert_eq!(join(&v, ", ", 1), "a");
    assert_eq!(join(&v, ", ", 0), "");
    assert_eq!(count_distinct(&v), 2);
    assert_eq!(count_distinct(&vec![]), 0);
}

#[test]
fn inserting_keeps_alphabetical_order() {
    let mut v: Vec<String> = vec![];
    for t in ["noise", "ela", "prnu", "ela", "cfa", "noise"] {
        insert_text(&mut v, &t.to_string());
    }
    assert_eq!(v, vec!["cfa", "ela", "noise", "prnu"]);
    assert!(is_text_before("cfa", "ela"));
    assert!(is_text_before("cf", "cfa"));
    assert!(!is_text_before("ela", "ela"));
}

#[test]
fn white_space_is_trimmed() {
    let t: String = trim(&chars_of(" \t\u{a0}4 2\n\u{3000}")).into_iter().collect();
    assert_eq!(t, "4 2");
    assert!(trim(&chars_of("  ")).is_empty());
    for n in 0..=0x10ffffu32 {
        if let Some(c) = char::from_u32(n) {
            let listed = matches!(n,
                0x09..=0x0d | 0x20 | 0x85 | 0xa0 | 0x1680 | 0x2000..=0x200a | 0x2028 | 0x2029
                | 0x202f | 0x205f | 0x3000);
            assert_eq!(trim(&vec![c]).is_empty(), listed, "{n:x}");
        }
    }
}

#[test]
fn numbers_are_read() {
    assert_eq!(number("0"), Some(0));
    assert_eq!(number("+17"), Some(17));
    assert_eq!(number("4294967295"), Some(u32::MAX));
    assert_eq!(number("4294967296"), None);
    assert_eq!(number("00000000000000000001"), Some(1));
    assert_eq!(number(""), None);
    assert_eq!(number("+"), None);
    assert_eq!(number("-1"), None);
    assert_eq!(number("1 "), None);
    for s in ["12", "+0", "+", "", "x", "99999999999999999999"] {
        assert_eq!(number(s), s.parse::<u32>().ok());
    }
}

#[test]
fn characters_have_utf8_lengths() {
    for c in ['a', '\u{7f}', '\u{80}', '\u{7ff}', '\u{800}', '\u{ffff}', '\u{10000}', '😀'] {
        assert_eq!(char_len(c), c.len_utf8());
    }
}

#[test]
fn bytes_are_found_first() {
    let hay = b"obj 1 0 obj 2 0 obj";
    assert_eq!(find_bytes(hay, b" 0 obj", 0), Some(5));
    assert_eq!(find_bytes(hay, b" 0 obj", 6), Some(13));
    assert_eq!(find_bytes(hay, b" 0 obj", 14), None);
    assert_eq!(find_bytes(hay, b"obj", 99), None);
    assert_eq!(find_bytes(b"ab", b"abc", 0), None);
    assert!(contains_bytes(hay, b"2 0"));
    assert!(!contains_bytes(hay, b"3 0"));
    assert!(bytes_match_at(hay, b"1 0", 4));
    assert!(!bytes_match_at(hay, b"obj", 18));
}

#[test]
fn integers_follow_keys() {
    assert_eq!(extract_int(b"<< /Width 1228 /Height 9>>", b"/Width "), 1228);
    assert_eq!(extract_int(b"<< /Width 1228 /Height 9>>", b"/Height "), 9);
    assert_eq!(extract_int(b"<< /Width x >>", b"/Width "), 0);
    assert_eq!(extract_int(b"<< /Width 4294967296 >>", b"/Width "), 0);
    assert_eq!(extract_int(b"<< /Width 4294967295 >>", b"/Width "), u32::MAX);
    assert_eq!(extract_int(b"<<>>", b"/Width "), 0);
    assert_eq!(extract_int(b"/Width 1 /Width 2", b"/Width "), 1);
}

#[test]
fn shares_compare_as_fractions() {
    assert!(!is_share_above(5, 100, 5, 100));
    assert!(is_share_above(6, 100, 5, 100));
    assert!(!is_share_above(0, 0, 5, 100));
    assert!(is_share_below(4, 100, 5, 100));
    assert!(!is_share_below(5, 100, 5, 100));
    for part in 0..200u64 {
        for total in 1..200u64 {
            assert_eq!(is_share_above(part, total, 15, 100), part as f64 / total as f64 > 0.15);
            assert_eq!(is_share_below(part, total, 2, 100), (part as f64 / total as f64) < 0.02);
        }
    }
}

#[test]
fn halves_round_to_even() {
    assert_eq!(round_half_even(5, 10), 0);
    assert_eq!(round_half_even(15, 10), 2);
    assert_eq!(round_half_even(25, 10), 2);
    assert_eq!(round_half_even(26, 10), 3);
    assert_eq!(round_half_even(1000, 10), 100);
}

#[test]
fn quotients_round_as_doubles_do() {
    for n in 1..300u64 {
        for d in 1..300u64 {
            let exact = round(n as u128 * ONE, d as u128);
            let double = n as f64 / d as f64;
            assert_eq!(exact as f64 / ONE as f64, double);
            assert_eq!(exact, (double * ONE as f64) as u128);
        }
    }
}
