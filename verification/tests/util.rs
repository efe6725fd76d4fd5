use number2name::util::{chars_of, lower, lower_ascii, single_char, try_lower};

#[test]
fn test_valid_lowercase() {
    assert_eq!(lower('A'), 'a');
    assert_eq!(lower('a'), 'a');
}

#[test]
fn test_no_case() {
    assert_eq!(lower('8'), '8');
    assert_eq!(lower('+'), '+');
    assert_eq!(lower('中'), '中');
}

#[test]
fn try_lower_agrees_with_lower() {
    assert_eq!(try_lower('A'), Some('a'));
    assert_eq!(try_lower('Z'), Some('z'));
    assert_eq!(try_lower('@'), Some('@'));
    assert_eq!(try_lower('['), Some('['));
    assert_eq!(try_lower('8'), Some('8'));
    assert_eq!(try_lower('中'), Some('中'));
    assert_eq!(try_lower('\u{c9}'), Some('\u{e9}'));
    assert_eq!(lower('\u{c9}'), '\u{e9}');
}

#[test]
fn try_lower_refuses_long_lowercase() {
    // Example from the documentation of `char::to_lowercase`.
    assert_eq!(try_lower('İ'), None);
}

#[test]
fn ascii_lowercase_matches_std() {
    for code in 0u8..=0x7f {
        let character = code as char;
        assert_eq!(lower_ascii(character), character.to_ascii_lowercase());
        assert_eq!(try_lower(character), Some(character.to_ascii_lowercase()));
        let mapped: Vec<char> = character.to_lowercase().collect();
        assert_eq!(single_char(&mapped), Some(character.to_ascii_lowercase()));
    }
}

#[test]
fn single_char_wants_exactly_one() {
    assert_eq!(single_char(&vec![]), None);
    assert_eq!(single_char(&vec!['x']), Some('x'));
    assert_eq!(single_char(&vec!['i', '\u{307}']), None);
}

#[test]
fn chars_of_keeps_order() {
    assert_eq!(chars_of(""), Vec::<char>::new());
    assert_eq!(chars_of("a中b"), vec!['a', '中', 'b']);
}
