use number2name::charset::Case;
use number2name::Charset;

#[test]
fn valid_charset() {
    let charset = Charset::try_new("Abc", Case::Insensitive);
    assert!(charset.is_some());
    let charset = charset.unwrap();
    assert_eq!(charset.len(), 3);
}

#[test]
fn valid_case_duplicate() {
    let charset = Charset::try_new("abBA", Case::Sensitive);
    assert!(charset.is_some());
    let charset = charset.unwrap();
    assert_eq!(charset.len(), 4);
}

#[test]
fn invalid_duplicate() {
    let charset = Charset::try_new("aba", Case::Insensitive);
    assert!(charset.is_none());
}

#[test]
fn invalid_case_insensitive_duplicate() {
    let charset = Charset::try_new("abBA", Case::Insensitive);
    assert!(charset.is_none());
}

#[test]
fn case_sensitive() {
    let charset = Charset::case_sensitive("abBA");
    assert_eq!(charset[0], 'a');
    assert_eq!(charset[1], 'b');
    assert_eq!(charset[2], 'B');
    assert_eq!(charset[3], 'A');
}

#[test]
fn case_insensitive() {
    let charset = Charset::case_insensitive("AbCd");
    assert_eq!(charset[0], 'A');
    assert_eq!(charset[1], 'b');
    assert_eq!(charset[2], 'C');
    assert_eq!(charset[3], 'd');
}

#[test]
fn charset_case_sensitive() {
    let charset = Charset::case_sensitive("abBA");
    assert_eq!(charset.index_of('a').unwrap(), 0);
    assert_eq!(charset.index_of('b').unwrap(), 1);
    assert_eq!(charset.index_of('B').unwrap(), 2);
    assert_eq!(charset.index_of('A').unwrap(), 3);
}

#[test]
fn charset_case_insensitive() {
    let charset = Charset::case_insensitive("AbCd");
    assert_eq!(charset.index_of('A').unwrap(), 0);
    assert_eq!(charset.index_of('b').unwrap(), 1);
    assert_eq!(charset.index_of('C').unwrap(), 2);
    assert_eq!(charset.index_of('d').unwrap(), 3);
}

#[test]
fn do_not_ignore_case() {
    let charset = Charset::case_sensitive("Ab");
    assert!(charset.index_of('a').is_none());
    assert!(charset.index_of('B').is_none());
}

#[test]
fn ignore_case_digit() {
    let charset = Charset::case_insensitive("0123456789");
    assert_eq!(charset.index_of('0').unwrap(), 0);
    assert_eq!(charset.index_of('1').unwrap(), 1);
    assert_eq!(charset.index_of('2').unwrap(), 2);
    assert_eq!(charset.index_of('3').unwrap(), 3);
    assert_eq!(charset.index_of('4').unwrap(), 4);
    assert_eq!(charset.index_of('5').unwrap(), 5);
    assert_eq!(charset.index_of('6').unwrap(), 6);
    assert_eq!(charset.index_of('7').unwrap(), 7);
    assert_eq!(charset.index_of('8').unwrap(), 8);
    assert_eq!(charset.index_of('9').unwrap(), 9);
}

#[test]
fn ignore_case_single() {
    let charset = Charset::case_insensitive("A");
    assert_eq!(charset.index_of('a').unwrap(), 0);
}

#[test]
fn ignore_case_long() {
    let charset = Charset::case_insensitive("AbCdEfGhIjKlMnOp");
    assert_eq!(charset.index_of('a').unwrap(), 0);
    assert_eq!(charset.index_of('B').unwrap(), 1);
    assert_eq!(charset.index_of('c').unwrap(), 2);
    assert_eq!(charset.index_of('D').unwrap(), 3);
    assert_eq!(charset.index_of('e').unwrap(), 4);
    assert_eq!(charset.index_of('F').unwrap(), 5);
    assert_eq!(charset.index_of('g').unwrap(), 6);
    assert_eq!(charset.index_of('H').unwrap(), 7);
    assert_eq!(charset.index_of('i').unwrap(), 8);
    assert_eq!(charset.index_of('J').unwrap(), 9);
    assert_eq!(charset.index_of('k').unwrap(), 10);
    assert_eq!(charset.index_of('L').unwrap(), 11);
    assert_eq!(charset.index_of('m').unwrap(), 12);
    assert_eq!(charset.index_of('N').unwrap(), 13);
    assert_eq!(charset.index_of('o').unwrap(), 14);
    assert_eq!(charset.index_of('P').unwrap(), 15);
}

#[test]
fn empty_alphabet_is_refused() {
    assert!(Charset::try_new("", Case::Sensitive).is_none());
    assert!(Charset::try_new("", Case::Insensitive).is_none());
}

#[test]
fn multi_character_lowercase_is_refused() {
    // The lowercase of U+0130 is two code points long.
    assert!(Charset::try_new("ab\u{130}", Case::Insensitive).is_none());
    let charset = Charset::try_new("ab\u{130}", Case::Sensitive).unwrap();
    assert_eq!(charset.len(), 3);
    assert_eq!(charset.index_of('\u{130}'), Some(2));
}

#[test]
fn multi_character_lowercase_is_not_found() {
    let charset = Charset::case_insensitive("abc");
    assert!(charset.index_of('\u{130}').is_none());
}

#[test]
fn non_ascii_case_is_ignored() {
    let charset = Charset::case_insensitive("\u{e9}\u{c0}x");
    assert_eq!(charset.index_of('\u{c9}'), Some(0));
    assert_eq!(charset.index_of('\u{e0}'), Some(1));
    assert_eq!(charset.index_of('X'), Some(2));
    assert!(Charset::try_new("\u{e9}\u{c9}", Case::Insensitive).is_none());
}

#[test]
fn kelvin_sign_collides_with_k() {
    // U+212A lower-cases to the ASCII letter k.
    assert!(Charset::try_new("k\u{212a}", Case::Insensitive).is_none());
    assert!(Charset::try_new("k\u{212a}", Case::Sensitive).is_some());
}

#[test]
fn render_gives_symbols_in_order() {
    assert_eq!(Charset::case_insensitive("AbCd").render(), "AbCd");
    assert_eq!(Charset::case_sensitive("\u{4e2d}+8").render(), "\u{4e2d}+8");
}

#[test]
fn symbol_at_agrees_with_index() {
    let charset = Charset::case_sensitive("aBcD");
    for position in 0..charset.len() {
        assert_eq!(charset.symbol_at(position), charset[position]);
        assert_eq!(charset.index_of(charset[position]), Some(position as u64));
    }
}

#[test]
fn clone_is_equal_in_use() {
    let charset = Charset::case_insensitive("AbCd");
    let copy = charset.clone();
    assert_eq!(copy.len(), 4);
    assert_eq!(copy.render(), charset.render());
    assert_eq!(copy.index_of('c'), Some(2));
    assert_eq!(copy.encode(744), charset.encode(744));
}

#[test]
fn describe_names_case_and_symbols() {
    assert_eq!(
        Charset::case_sensitive("aBcD").describe(),
        "(case-sensitive character set: [aBcD])"
    );
    assert_eq!(
        Charset::case_insensitive("0a").describe(),
        "(case-insensitive character set: [0a])"
    );
}
