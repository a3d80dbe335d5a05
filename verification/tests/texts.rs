use luafix::rules::fluid_boxes::snap;
use luafix::text::{
    char_is_space, chars_of, contains_text, decimal_string, find_in_range, is_one_of, trim_range,
};
use luafix::value::Number;

#[test]
fn decimal_string_writes_numerals() {
    assert_eq!(decimal_string(0), "0");
    assert_eq!(decimal_string(7), "7");
    assert_eq!(decimal_string(10), "10");
    assert_eq!(decimal_string(109), "109");
    assert_eq!(decimal_string(1234567890), "1234567890");
    assert_eq!(decimal_string(usize::MAX), usize::MAX.to_string());
}

#[test]
fn chars_of_lists_the_characters() {
    assert_eq!(chars_of(""), Vec::<char>::new());
    assert_eq!(chars_of("aé\n"), vec!['a', 'é', '\n']);
}

#[test]
fn white_space_is_what_unicode_says() {
    for c in ['\t', '\n', '\u{b}', '\u{c}', '\r', ' ', '\u{85}', '\u{a0}', '\u{1680}', '\u{2000}',
        '\u{200a}', '\u{2028}', '\u{2029}', '\u{202f}', '\u{205f}', '\u{3000}'] {
        assert!(char_is_space(c), "{c:?}");
    }
    for c in ['a', '0', '_', '\u{8}', '\u{e}', '\u{200b}', '\u{feff}', '\u{180e}'] {
        assert!(!char_is_space(c), "{c:?}");
    }
    for code in 0..0x3100u32 {
        if let Some(c) = char::from_u32(code) {
            assert_eq!(char_is_space(c), c.is_whitespace(), "{code:#x}");
        }
    }
}

#[test]
fn trim_range_narrows_to_what_is_left() {
    let chars = chars_of("  ab c \t");
    assert_eq!(trim_range(&chars, 0, chars.len()), (2, 6));
    assert_eq!(trim_range(&chars, 3, 5), (3, 4));
    assert_eq!(trim_range(&chars, 0, 2), (2, 2));
    assert_eq!(trim_range(&chars, 4, 4), (4, 4));
    let chars = chars_of("x");
    assert_eq!(trim_range(&chars, 0, 1), (0, 1));
}

#[test]
fn find_in_range_finds_the_first() {
    let chars = chars_of("a=b=c");
    assert_eq!(find_in_range(&chars, 0, 5, '='), Some(1));
    assert_eq!(find_in_range(&chars, 2, 5, '='), Some(3));
    assert_eq!(find_in_range(&chars, 4, 5, '='), None);
    assert_eq!(find_in_range(&chars, 0, 1, '='), None);
    assert_eq!(find_in_range(&chars, 1, 1, '='), None);
}

#[test]
fn contains_text_finds_a_part() {
    assert!(contains_text("angels-void-item", "void"));
    assert!(contains_text("void", "void"));
    assert!(contains_text("slag-crushed", "slag"));
    assert!(contains_text("xslag", "slag"));
    assert!(contains_text("anything", ""));
    assert!(contains_text("", ""));
    assert!(!contains_text("voi", "void"));
    assert!(!contains_text("vo-id", "void"));
    assert!(!contains_text("", "void"));
    assert!(!contains_text("sla", "slag"));
}

#[test]
fn is_one_of_is_membership() {
    assert!(is_one_of("b", &["a", "b"]));
    assert!(!is_one_of("c", &["a", "b"]));
    assert!(!is_one_of("a", &[]));
    assert!(!is_one_of("", &["a"]));
}

fn snapped(negative: bool, text: &str) -> (bool, String) {
    let result = snap(Number { negative, text: text.to_string() });
    (result.negative, result.text)
}

#[test]
fn positions_are_rounded_towards_zero_to_halves() {
    assert_eq!(snapped(false, "1.3"), (false, "1".to_string()));
    assert_eq!(snapped(false, "2.7"), (false, "2.5".to_string()));
    assert_eq!(snapped(true, "1.3"), (true, "1".to_string()));
    assert_eq!(snapped(true, "2.7"), (true, "2.5".to_string()));
    assert_eq!(snapped(false, "0.49"), (false, "0".to_string()));
    assert_eq!(snapped(false, "0.99"), (false, "0.5".to_string()));
    assert_eq!(snapped(false, "12.05"), (false, "12".to_string()));
}

#[test]
fn numbers_on_the_grid_stay() {
    assert_eq!(snapped(false, "1"), (false, "1".to_string()));
    assert_eq!(snapped(false, "1.0"), (false, "1".to_string()));
    assert_eq!(snapped(false, "1.5"), (false, "1.5".to_string()));
    assert_eq!(snapped(true, "3.50"), (true, "3.5".to_string()));
    assert_eq!(snapped(false, "0"), (false, "0".to_string()));
    assert_eq!(snapped(false, "2."), (false, "2".to_string()));
    assert_eq!(snapped(false, ".5"), (false, "0.5".to_string()));
    assert_eq!(snapped(false, ".25"), (false, "0".to_string()));
}

#[test]
fn zero_has_no_sign() {
    assert_eq!(snapped(true, "0.3"), (false, "0".to_string()));
    assert_eq!(snapped(true, "0"), (false, "0".to_string()));
    assert_eq!(snapped(true, ".4"), (false, "0".to_string()));
    assert_eq!(snapped(true, "0.5"), (true, "0.5".to_string()));
    assert_eq!(snapped(true, "00.1"), (false, "00".to_string()));
}

#[test]
fn other_numerals_stay_as_they_are() {
    assert_eq!(snapped(false, "1e3"), (false, "1e3".to_string()));
    assert_eq!(snapped(true, "0x1F"), (true, "0x1F".to_string()));
    assert_eq!(snapped(false, "1.2.3"), (false, "1.2.3".to_string()));
    assert_eq!(snapped(false, "."), (false, ".".to_string()));
    assert_eq!(snapped(false, ""), (false, "".to_string()));
    assert_eq!(snapped(false, "1.5e2"), (false, "1.5e2".to_string()));
}
