use ims_rs::text::{
    decimal_string, digit_of, find_char, from_chars, parse_usize, push_decimal,
    push_signed_decimal, replace_chars, same_text, slice_chars, split_chars, split_words,
    to_chars, to_strings, whitespace,
};

fn chars(s: &str) -> Vec<char> {
    s.chars().collect()
}

fn strings(parts: Vec<Vec<char>>) -> Vec<String> {
    parts.into_iter().map(|p| p.into_iter().collect()).collect()
}

#[test]
fn characters_round_trip() {
    for s in ["", "a", "häß 🎨 x"] {
        assert_eq!(to_chars(s), chars(s));
        assert_eq!(from_chars(&chars(s)), s);
    }
    assert_eq!(to_strings(&vec![chars("a"), chars(""), chars("bc")]), vec!["a", "", "bc"]);
}

#[test]
fn decimal_matches_the_usual_writing() {
    for n in [0u128, 1, 9, 10, 11, 99, 100, 101, 65535, 1_000_000, u64::MAX as u128, u128::MAX] {
        assert_eq!(decimal_string(n), n.to_string());
    }
    let mut out = chars("n=");
    push_decimal(&mut out, 507);
    assert_eq!(out, chars("n=507"));
}

#[test]
fn signed_decimal_matches_the_usual_writing() {
    for i in [0i64, 7, -7, 127, -128, i64::MAX, i64::MIN] {
        let mut out = Vec::new();
        push_signed_decimal(&mut out, i);
        assert_eq!(out, chars(&i.to_string()));
    }
}

#[test]
fn whitespace_is_that_of_the_standard_library() {
    let mut count = 0;
    for u in 0..=0x10FFFFu32 {
        if let Some(c) = char::from_u32(u) {
            assert_eq!(whitespace(c), c.is_whitespace(), "U+{:04X}", u);
            if whitespace(c) {
                count += 1;
            }
        }
    }
    assert_eq!(count, 25);
}

#[test]
fn splitting_keeps_empty_pieces() {
    for s in ["", "a", ",", "a,b", "a,,b", ",a,", "1,2,3", ",,"] {
        let expected: Vec<String> = s.split(',').map(|p| p.to_string()).collect();
        assert_eq!(strings(split_chars(&chars(s), ',')), expected, "{:?}", s);
    }
    assert_eq!(strings(split_chars(&chars("a b  c"), ' ')), vec!["a", "b", "", "c"]);
}

#[test]
fn words_are_runs_without_white_space() {
    for s in ["", " ", "a", " a ", "a b", "a\t\nb  c", "  cjxl -d 1\u{a0}-e\u{3000}7 ", "é\u{2003}ü"] {
        let expected: Vec<String> = s.split_whitespace().map(|p| p.to_string()).collect();
        assert_eq!(strings(split_words(&chars(s))), expected, "{:?}", s);
    }
}

#[test]
fn replacing_matches_the_standard_library() {
    let cases = [
        ("cjxl -d %1% -e %1%", "%1%", "5"),
        ("%1%%1%", "%1%", ""),
        ("aaaa", "aa", "b"),
        ("aaa", "aa", "b"),
        ("abc", "abcd", "x"),
        ("abc", "c", "cc"),
        ("", "a", "b"),
        ("%1%2%", "%2%", "x"),
        ("ab", "ab", "abab"),
    ];
    for (s, pat, with) in cases {
        let got: String = replace_chars(&chars(s), &chars(pat), &chars(with)).into_iter().collect();
        assert_eq!(got, s.replace(pat, with), "{:?} {:?} {:?}", s, pat, with);
    }
}

#[test]
fn empty_pattern_replaces_nothing() {
    let got: String = replace_chars(&chars("abc"), &chars(""), &chars("x")).into_iter().collect();
    assert_eq!(got, "abc");
}

#[test]
fn numbers_parse_as_in_the_standard_library() {
    let max = usize::MAX.to_string();
    let over = format!("{}0", max);
    let above = "18446744073709551616";
    for s in ["0", "7", "007", "+5", "42", "", "+", "-1", "1a", " 1", "1 ", "++1", "x", &max, &over, above]
    {
        assert_eq!(parse_usize(&chars(s)), s.parse::<usize>().ok(), "{:?}", s);
    }
}

#[test]
fn digits_have_their_value() {
    assert_eq!(digit_of('0'), Some(0));
    assert_eq!(digit_of('9'), Some(9));
    assert_eq!(digit_of('/'), None);
    assert_eq!(digit_of(':'), None);
    assert_eq!(digit_of('٣'), None);
}

#[test]
fn finding_and_slicing() {
    assert_eq!(find_char(&chars("ab(c(d"), '('), 2);
    assert_eq!(find_char(&chars("abc"), '('), 3);
    assert_eq!(find_char(&chars(""), '('), 0);
    assert_eq!(slice_chars(&chars("abcdef"), 2, 4), chars("cd"));
    assert_eq!(slice_chars(&chars("abcdef"), 3, 3), chars(""));
    assert!(same_text("abc", "abc"));
    assert!(!same_text("abc", "abd"));
    assert!(!same_text("abc", "ab"));
}
