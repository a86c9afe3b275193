use rustscraper::text::{
    fits_column, hyphens, join, optional_text_not_after, pad, same_text, shorten, split,
    split_at_first, split_at_last, text_not_after, trim, white_space, write_integer, write_natural,
};

#[test]
fn white_space_agrees_with_the_standard_library() {
    for code in 0..=0x10ffff_u32 {
        if let Some(c) = char::from_u32(code) {
            assert_eq!(white_space(c), c.is_whitespace(), "{code:x}");
        }
    }
}

#[test]
fn trim_agrees_with_the_standard_library() {
    for text in ["", " ", " a ", "a b", "\u{a0}\t x\u{3000}", "\u{200b}y\u{200b}", "é \n"] {
        assert_eq!(trim(text), text.trim());
        assert_eq!(trim(&trim(text)), text.trim());
    }
}

#[test]
fn split_agrees_with_the_standard_library() {
    for text in ["", "/", "a", "a/b", "//", "https://example.com/a/b", "é/ü"] {
        let expected: Vec<String> = text.split('/').map(|s| s.to_string()).collect();
        assert_eq!(split(text, '/'), expected);
        assert_eq!(join(&split(text, '/'), "/"), text);
    }
}

#[test]
fn splitting_once_agrees_with_the_standard_library() {
    for text in ["", "=", "a", "a=b", "a=b=c", "é=ü=", "=x"] {
        let owned = |halves: Option<(&str, &str)>| {
            halves.map(|(a, b)| (a.to_string(), b.to_string()))
        };
        assert_eq!(split_at_first(text, '='), owned(text.split_once('=')));
        assert_eq!(split_at_last(text, '='), owned(text.rsplit_once('=')));
    }
}

#[test]
fn join_puts_the_separator_between() {
    let parts: Vec<String> = vec!["a".to_string(), "".to_string(), "b".to_string()];
    assert_eq!(join(&parts, ", "), "a, , b");
    assert_eq!(join(&Vec::new(), ", "), "");
}

#[test]
fn pad_agrees_with_the_standard_library() {
    for text in ["", "a", "é", "exactly ten", "日本語"] {
        assert_eq!(pad(text, 10), format!("{:<10}", text));
    }
}

#[test]
fn hyphens_make_a_rule() {
    assert_eq!(hyphens(0), "");
    assert_eq!(hyphens(70), "-".repeat(70));
}

#[test]
fn numbers_are_written_in_decimal() {
    assert_eq!(write_natural(0), "0");
    assert_eq!(write_natural(10), "10");
    assert_eq!(write_natural(u64::MAX), "18446744073709551615");
    assert_eq!(write_integer(-7), "-7");
    assert_eq!(write_integer(i64::MIN), "-9223372036854775808");
    assert_eq!(write_integer(i64::MAX), "9223372036854775807");
}

#[test]
fn shorten_cuts_only_what_is_too_long() {
    let exact = "x".repeat(48);
    assert_eq!(shorten(&exact, 48, 45), exact);
    let long = "x".repeat(49);
    assert_eq!(shorten(&long, 48, 45), format!("{}...", "x".repeat(45)));
    assert_eq!(shorten(&long, 48, 45).len(), 48);
}

#[test]
fn shorten_counts_bytes() {
    let text = "é".repeat(25);
    assert!(!fits_column(&text, 48, 45));
    assert!(fits_column(&text, 48, 44));
    assert_eq!(shorten(&text, 48, 44), format!("{}...", "é".repeat(22)));
    assert!(fits_column("é", 48, 45));
}

#[test]
fn texts_are_ordered_by_their_bytes() {
    for a in ["", "a", "ab", "b", "Z", "é", "\u{ffff}", "\u{10000}"] {
        for b in ["", "a", "ab", "b", "Z", "é", "\u{ffff}", "\u{10000}"] {
            assert_eq!(text_not_after(a, b), a.as_bytes() <= b.as_bytes());
            assert_eq!(same_text(a, b), a == b);
        }
    }
}

#[test]
fn absent_texts_come_first() {
    let none: Option<String> = None;
    let empty = Some(String::new());
    assert!(optional_text_not_after(&none, &empty));
    assert!(!optional_text_not_after(&empty, &none));
    assert!(optional_text_not_after(&none, &none));
}
