use number2name::builtin;
use number2name::charset_by_identifier;

#[test]
fn hex() {
    let charset = builtin::hex();
    assert_eq!(charset[0], '0');
    assert_eq!(charset[15], 'f');
    assert_eq!(charset.index_of('0').unwrap(), 0);
    assert_eq!(charset.index_of('f').unwrap(), 15);
}

#[test]
fn base32() {
    let charset = builtin::base32();
    assert_eq!(charset[0], 'A');
    assert_eq!(charset[31], '7');
    assert_eq!(charset.index_of('A').unwrap(), 0);
    assert_eq!(charset.index_of('7').unwrap(), 31);
}

#[test]
fn base32scny() {
    let charset = builtin::base32scny();
    assert_eq!(charset[0], '一');
    assert_eq!(charset[31], '下');
    assert_eq!(charset.index_of('一').unwrap(), 0);
    assert_eq!(charset.index_of('下').unwrap(), 31);
}

#[test]
fn base32human() {
    let charset = builtin::base32human();
    assert_eq!(charset[0], 'a');
    assert_eq!(charset[31], '_');
    assert_eq!(charset.index_of('a').unwrap(), 0);
    assert_eq!(charset.index_of('_').unwrap(), 31);
}

#[test]
fn base32crockford() {
    let charset = builtin::base32crockford();
    assert_eq!(charset[0], '0');
    assert_eq!(charset[31], 'Z');
    assert_eq!(charset.index_of('0').unwrap(), 0);
    assert_eq!(charset.index_of('Z').unwrap(), 31);
}

#[test]
fn base32hex() {
    let charset = builtin::base32hex();
    assert_eq!(charset[0], '0');
    assert_eq!(charset[31], 'V');
    assert_eq!(charset.index_of('0').unwrap(), 0);
    assert_eq!(charset.index_of('V').unwrap(), 31);
}

#[test]
fn base64() {
    let charset = builtin::base64();
    assert_eq!(charset[0], 'A');
    assert_eq!(charset[63], '/');
    assert_eq!(charset.index_of('A').unwrap(), 0);
    assert_eq!(charset.index_of('/').unwrap(), 63);
}

#[test]
fn base64url() {
    let charset = builtin::base64url();
    assert_eq!(charset[0], 'A');
    assert_eq!(charset[63], '_');
    assert_eq!(charset.index_of('A').unwrap(), 0);
    assert_eq!(charset.index_of('_').unwrap(), 63);
}

#[test]
fn lowercase_variants_mind_case() {
    let charset = builtin::hexlowercase();
    assert_eq!(charset.len(), 16);
    assert_eq!(charset.index_of('f'), Some(15));
    assert_eq!(charset.index_of('F'), None);
    assert_eq!(builtin::hex().index_of('F'), Some(15));
    let charset = builtin::base32lowercase();
    assert_eq!(charset.len(), 32);
    assert_eq!(charset.index_of('A'), Some(0));
    assert_eq!(charset.index_of('a'), None);
    assert_eq!(builtin::base32().index_of('a'), Some(0));
}

#[test]
fn builtin_sizes() {
    assert_eq!(builtin::hex().len(), 16);
    assert_eq!(builtin::base32().len(), 32);
    assert_eq!(builtin::base32human().len(), 32);
    assert_eq!(builtin::base32crockford().len(), 32);
    assert_eq!(builtin::base32scny().len(), 32);
    assert_eq!(builtin::base32hex().len(), 32);
    assert_eq!(builtin::base64().len(), 64);
    assert_eq!(builtin::base64url().len(), 64);
}

#[test]
fn builtin_by_name_wants_upper_case() {
    assert_eq!(builtin::builtin_by_name("HEX").unwrap().render(), "0123456789abcdef");
    assert_eq!(
        builtin::builtin_by_name("BASE32HUMAN").unwrap().render(),
        "abcdefghjkmnpqrstuvwxyz23456789_"
    );
    assert_eq!(
        builtin::builtin_by_name("BASE64URL").unwrap().render(),
        builtin::BASE64URL_SYMBOLS
    );
    assert!(builtin::builtin_by_name("hex").is_none());
    assert!(builtin::builtin_by_name("HEXA").is_none());
    assert!(builtin::builtin_by_name("").is_none());
}

#[test]
fn identifier_names_a_builtin_in_any_case() {
    let charset = charset_by_identifier("base32Crockford").unwrap();
    assert_eq!(charset.render(), "0123456789ABCDEFGHJKMNPQRSTVWXYZ");
    assert_eq!(charset.index_of('z'), Some(31));
    let charset = charset_by_identifier("hexlowercase").unwrap();
    assert_eq!(charset.index_of('A'), None);
    let charset = charset_by_identifier("BASE32SCNY").unwrap();
    assert_eq!(charset[4], '五');
}

#[test]
fn identifier_spells_an_alphabet() {
    let charset = charset_by_identifier("'aBcD'").unwrap();
    assert_eq!(charset.render(), "aBcD");
    assert_eq!(charset.index_of('b'), None);
    let charset = charset_by_identifier("\"xyz\"").unwrap();
    assert_eq!(charset.render(), "xyz");
    let charset = charset_by_identifier("qwerty").unwrap();
    assert_eq!(charset.render(), "qwerty");
    // A lower-case name that the upper-casing wrapper did not touch would be
    // taken for the alphabet h, e, x.
    assert_eq!(charset_by_identifier("hex").unwrap().len(), 16);
    assert_eq!(charset_by_identifier("'hex'").unwrap().len(), 3);
}

#[test]
fn identifier_failures() {
    assert_eq!(
        charset_by_identifier("'").unwrap_err(),
        "charset starts with a quote that is never closed"
    );
    assert_eq!(
        charset_by_identifier("''").unwrap_err(),
        "failed to initialize charset due to duplicate data"
    );
    assert_eq!(
        charset_by_identifier("").unwrap_err(),
        "failed to initialize charset due to duplicate data"
    );
    assert_eq!(
        charset_by_identifier("'abca'").unwrap_err(),
        "failed to initialize charset due to duplicate data"
    );
    assert_eq!(
        charset_by_identifier("noon").unwrap_err(),
        "failed to initialize charset due to duplicate data"
    );
}

#[test]
fn unquoted_literals_are_told_apart() {
    assert!(builtin::is_unquoted_literal("QWERTY", "qwerty"));
    assert!(builtin::is_unquoted_literal("", ""));
    assert!(!builtin::is_unquoted_literal("'QWERTY'", "'qwerty'"));
    assert!(!builtin::is_unquoted_literal("\"Q\"", "\"q\""));
    assert!(!builtin::is_unquoted_literal("HEX", "hex"));
    assert!(!builtin::is_unquoted_literal("BASE64", "Base64"));
}
