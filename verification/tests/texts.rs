use c2rust_transpile::errors::{DisplaySrcSpan, TranslationError};
use c2rust_transpile::text::{
    chars_of, contains_text, decimal_text, find_class, find_text, holds_text, parse_usize,
    replaced, same_text, split_at_char, string_of, trim_to_class, CharClass,
};

fn text(chars: &[char]) -> String {
    string_of(chars)
}

#[test]
fn texts_are_split_and_join_again() {
    for s in ["", ",", "a,b", ",a,,b,", "no"] {
        let pieces: Vec<String> =
            split_at_char(&chars_of(s), ',').iter().map(|p| text(p)).collect();
        assert_eq!(pieces.join(","), s);
        assert_eq!(pieces.len(), s.matches(',').count() + 1);
    }
}

#[test]
fn numerals_denote_numbers() {
    for n in [0usize, 7, 10, 4096, usize::MAX] {
        assert_eq!(text(&decimal_text(n)), n.to_string());
        assert_eq!(parse_usize(&decimal_text(n)), Some(n));
    }
    assert_eq!(parse_usize(&chars_of("007")), Some(7));
    assert_eq!(parse_usize(&chars_of("99999999999999999999999")), None);
    assert_eq!(parse_usize(&chars_of("")), None);
    assert_eq!(parse_usize(&chars_of("1a")), None);
}

#[test]
fn texts_are_searched() {
    let s = chars_of("one, two, two");
    assert_eq!(find_text(&s, "two", 0), Some(5));
    assert_eq!(find_text(&s, "two", 6), Some(10));
    assert_eq!(find_text(&s, "six", 0), None);
    assert!(contains_text(&s, ", t"));
    assert_eq!(find_class(&s, CharClass::Is(','), 4), 8);
    assert_eq!(find_class(&s, CharClass::Digit, 0), s.len());
    assert_eq!(text(&trim_to_class(&chars_of("\u{3000} a b\t"), CharClass::NonSpace)), "a b");
    assert_eq!(text(&trim_to_class(&chars_of("={12}"), CharClass::Digit)), "12");
    assert_eq!(text(&replaced(&chars_of("a-b-"), '-', '_')), "a_b_");
    assert!(same_text("\u{e9}", "\u{e9}") && !same_text("a", "ab"));
    assert!(holds_text(&["x".to_string(), "y".to_string()], "y"));
    assert!(!holds_text(&[], ""));
}

#[test]
fn arrows_can_be_blue() {
    let e = TranslationError::generic("x")
        .add_loc(Some(DisplaySrcSpan { text: "a.c".to_string() }));
    colored::control::set_override(true);
    assert_eq!(e.display(None), "x\n\u{1b}[34m-->\u{1b}[0m a.c\n");
    colored::control::set_override(false);
    assert_eq!(e.display(None), "x\n--> a.c\n");
    colored::control::unset_override();
}
