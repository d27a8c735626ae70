use jcode_surfaces::strings::{
    decimal_text, find_char, has_prefix, has_text, is_in_class, join, parse_bool, parse_usize,
    same_text, same_text_in_any_case, signed_decimal_text, split_once, strip_of, text_before,
    to_ascii_lower, trim, trim_end_of, trim_start_of, CharClass,
};

#[test]
fn white_space_is_that_of_the_standard_library() {
    for c in '\0'..=char::MAX {
        assert_eq!(
            is_in_class(CharClass::WhiteSpace, c),
            c.is_whitespace(),
            "{c:?}"
        );
    }
}

#[test]
fn trimming_agrees_with_the_standard_library() {
    for text in ["", " ", "a", " a ", "\t\u{3000}x y\u{a0}\n", "é\u{85}", "\u{200b}z"] {
        assert_eq!(trim(text), text.trim());
    }
    assert_eq!(trim_end_of("a//", CharClass::Only('/')), "a");
    assert_eq!(trim_start_of("// a", CharClass::Either('/', ' ')), "a");
    assert_eq!(strip_of("\"quoted\"", CharClass::Only('"')), "quoted");
    assert_eq!(strip_of("\"\"", CharClass::Only('"')), "");
}

#[test]
fn ascii_case_leaves_other_letters_alone() {
    for text in ["", "ABCxyz[@`{", "ÄÖÜ", "ſK"] {
        assert_eq!(to_ascii_lower(text), text.to_ascii_lowercase());
    }
    assert!(same_text_in_any_case("MiniMax", "minimax"));
    assert!(!same_text_in_any_case("minimäx", "minimÄx"));
    assert!(same_text("é", "é"));
    assert!(!same_text("a", "ab"));
}

#[test]
fn searching_agrees_with_the_standard_library() {
    assert!(has_prefix("image-01", "image-"));
    assert!(!has_prefix("image", "image-"));
    assert!(has_prefix("x", ""));
    for (text, needle) in [("", ""), ("abc", ""), ("", "a"), ("xaab", "aab"), ("aaab", "aab"), ("ab", "abc")] {
        assert_eq!(has_text(text, needle), text.contains(needle), "{text:?} {needle:?}");
    }
    assert_eq!(find_char("héy=b=c", '='), Some(3));
    assert_eq!(find_char("none", '='), None);
    assert_eq!(split_once("ké=y=z", '='), Some(("ké", "y=z")));
    assert_eq!(split_once("plain", '='), None);
    assert_eq!(text_before("value # note # more", '#'), "value ");
    assert_eq!(text_before("value", '#'), "value");
}

#[test]
fn numbers_agree_with_the_standard_library() {
    for text in [
        "", "0", "7", "+7", "-0", "+", "007", "18446744073709551615", "18446744073709551616",
        "99999999999999999999999", " 1", "1_000", "½", "٣", "++1", "0x1",
    ] {
        assert_eq!(parse_usize(text), text.parse::<usize>().ok(), "{text:?}");
    }
    for text in ["true", "false", "True", " true", "", "1"] {
        assert_eq!(parse_bool(text), text.parse::<bool>().ok(), "{text:?}");
    }
    for n in [0, 9, 10, 1_234_567_890, u128::from(u64::MAX), u128::MAX] {
        assert_eq!(decimal_text(n), n.to_string());
    }
    for n in [0, -1, 7, -1001, i64::MAX, i64::MIN] {
        assert_eq!(signed_decimal_text(n), n.to_string());
    }
}

#[test]
fn a_written_number_reads_back() {
    for n in [0usize, 1, 10, 4096, usize::MAX] {
        assert_eq!(parse_usize(&decimal_text(n as u128)), Some(n));
    }
}

#[test]
fn joining_puts_separators_between() {
    let parts = vec!["a".to_string(), String::new(), "é".to_string()];
    assert_eq!(join(&parts, "\n\n"), parts.join("\n\n"));
    assert_eq!(join(&vec!["one".to_string()], ","), "one");
    assert_eq!(join(&Vec::new(), ","), "");
}
