use butterup::text::{
    chars_of, dec_chars, dec_signed_chars, find_chars, join_chars, lines_of, parse_u32_chars,
    parse_u64_chars, split_str_chars, string_of, trim_chars, words_of,
};

fn c(s: &str) -> Vec<char> {
    chars_of(s)
}

fn text(v: &[Vec<char>]) -> Vec<String> {
    v.iter().map(|w| string_of(w)).collect()
}

#[test]
fn lines_like_str_lines() {
    for s in ["", "a", "a\n", "a\nb", "a\r\nb\r\n", "\n\n", "a\r", "x\n\ny\n", " \r\n"] {
        let expected: Vec<String> = s.lines().map(|l| l.to_string()).collect();
        assert_eq!(text(&lines_of(&c(s))), expected, "{s:?}");
    }
}

#[test]
fn words_like_split_whitespace() {
    for s in ["", "  a  b\tc\n", "a\u{a0}b\u{3000}c", "\u{2003}"] {
        let expected: Vec<String> = s.split_whitespace().map(|w| w.to_string()).collect();
        assert_eq!(text(&words_of(&c(s))), expected, "{s:?}");
    }
}

#[test]
fn trim_like_str_trim() {
    for s in ["", "  a b  ", "\u{85}x\u{205f}", "   "] {
        assert_eq!(string_of(&trim_chars(&c(s))), s.trim());
    }
}

#[test]
fn split_and_find_like_str() {
    for (s, p) in [("a), b), c", "), "), ("aaa", "aa"), ("", "x"), ("x", "x"), ("\n\n\n", "\n\n")] {
        let expected: Vec<String> = s.split(p).map(|w| w.to_string()).collect();
        assert_eq!(text(&split_str_chars(&c(s), &c(p))), expected, "{s:?} {p:?}");
        let byte_index = s.find(p);
        let char_index = find_chars(&c(s), &c(p));
        assert_eq!(char_index, byte_index.map(|b| s[..b].chars().count()));
    }
}

#[test]
fn join_like_slice_join() {
    let parts = vec![c("a"), c(""), c("b")];
    assert_eq!(string_of(&join_chars(&parts, &c(", "))), "a, , b");
    assert_eq!(string_of(&join_chars(&Vec::new(), &c(", "))), "");
}

#[test]
fn decimal_numbers() {
    for n in [0u64, 7, 10, 42, 1000, u64::MAX] {
        assert_eq!(string_of(&dec_chars(n)), n.to_string());
    }
    for i in [0i64, -1, -123, i64::MAX, i64::MIN + 1] {
        assert_eq!(string_of(&dec_signed_chars(i)), i.to_string());
    }
}

#[test]
fn parsing_like_str_parse() {
    for s in ["0", "42", "+7", "", "+", "-1", " 1", "18446744073709551615", "18446744073709551616", "4294967296", "12a", "007"] {
        assert_eq!(parse_u64_chars(&c(s)), s.parse::<u64>().ok(), "{s:?}");
        assert_eq!(parse_u32_chars(&c(s)), s.parse::<u32>().ok(), "{s:?}");
    }
}
