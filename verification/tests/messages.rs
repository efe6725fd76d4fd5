use number2name::{name2number, name2number_u16, Charset, N2NErr};

#[test]
fn message_for_empty_input() {
    let charset = Charset::case_sensitive("aBcD");
    let error = name2number("", &charset).unwrap_err();
    assert_eq!(error.message(), "input was empty while decoding");
    let text: String = error.into();
    assert_eq!(text, "input was empty while decoding");
}

#[test]
fn message_for_too_large() {
    let charset = Charset::case_sensitive("aBcDeFgHiJkLmNoPqRsTuVwXyZ");
    let error = name2number("gkgwByLwRXTLPq", &charset).unwrap_err();
    assert_eq!(
        error.message(),
        "input was too long to decode number; maximum: gkgwByLwRXTLPP"
    );
    // The maximum that the message names is that of 64 bits, whatever the width.
    let error = name2number_u16("cRXq", &charset).unwrap_err();
    let text: String = error.into();
    assert_eq!(text, "input was too long to decode number; maximum: gkgwByLwRXTLPP");
}

#[test]
fn message_for_invalid_character() {
    let charset = Charset::case_insensitive("aBcD");
    let error = name2number("ae", &charset).unwrap_err();
    assert_eq!(
        error.message(),
        "encountered invalid character 'e' while decoding to number; allowed: 'aBcD'"
    );
    let text: String = String::from(error);
    assert_eq!(
        text,
        "encountered invalid character 'e' while decoding to number; allowed: 'aBcD'"
    );
}

#[test]
fn error_clone_keeps_the_failure() {
    let charset = Charset::case_insensitive("aBcD");
    let error = name2number("a\u{4e2d}", &charset).unwrap_err();
    let copy = error.clone();
    assert_eq!(copy.message(), error.message());
    match copy {
        N2NErr::InvalidCharacter { character, charset } => {
            assert_eq!(character, '\u{4e2d}');
            assert_eq!(charset.len(), 4);
        }
        _ => panic!("wrong error"),
    }
    assert!(matches!(N2NErr::EmptyInput.clone(), N2NErr::EmptyInput));
}
