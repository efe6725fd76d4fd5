use number2name::charset::Case;
use number2name::decode::name2number_up_to;
use number2name::{
    name2number, name2number_i128, name2number_i16, name2number_i64, name2number_u128,
    name2number_u16, name2number_u32, name2number_u64, number2name_i128, number2name_i16,
    number2name_i64, number2name_u128, number2name_u16, number2name_u32, number2name_u64,
};
use number2name::{Charset, N2NErr};

fn alphabets() -> Vec<Charset> {
    vec![
        Charset::case_sensitive("0"),
        Charset::case_sensitive("aB"),
        Charset::case_sensitive("aBcD"),
        Charset::case_insensitive("AbCdEfGhIj"),
        Charset::case_sensitive("aBcDeFgHiJkLmNoPqRsTuVwXyZ"),
        number2name::base64(),
    ]
}

#[test]
fn round_trip_u16_exhaustive() {
    for charset in alphabets() {
        if charset.len() == 1 {
            continue;
        }
        for number in 0..=u16::MAX {
            let name = number2name_u16(number, &charset);
            assert_eq!(name2number_u16(&name, &charset).unwrap(), number);
        }
    }
}

#[test]
fn round_trip_i16_exhaustive() {
    let charset = Charset::case_insensitive("AbCdEfGhIj");
    for number in i16::MIN..=i16::MAX {
        let name = number2name_i16(number, &charset);
        assert_eq!(name2number_i16(&name, &charset).unwrap(), number);
    }
}

#[test]
fn round_trip_single_symbol_alphabet() {
    let charset = Charset::case_sensitive("0");
    for number in 0..300u16 {
        let name = number2name_u16(number, &charset);
        assert_eq!(name.len(), number as usize + 1);
        assert_eq!(name2number_u16(&name, &charset).unwrap(), number);
    }
}

#[test]
fn round_trip_wide_samples() {
    for charset in alphabets() {
        if charset.len() == 1 {
            continue;
        }
        let mut number: u128 = 0;
        loop {
            let name = number2name_u128(number, &charset);
            assert_eq!(name2number_u128(&name, &charset).unwrap(), number);
            let narrow = (number >> 64) as u64;
            let name = number2name_u64(narrow, &charset);
            assert_eq!(name2number_u64(&name, &charset).unwrap(), narrow);
            assert_eq!(charset.decode(&charset.encode(narrow)).unwrap(), narrow);
            let narrower = (number >> 96) as u32;
            let name = number2name_u32(narrower, &charset);
            assert_eq!(name2number_u32(&name, &charset).unwrap(), narrower);
            let signed = number as i128;
            let name = number2name_i128(signed, &charset);
            assert_eq!(name2number_i128(&name, &charset).unwrap(), signed);
            let signed = narrow as i64;
            let name = number2name_i64(signed, &charset);
            assert_eq!(name2number_i64(&name, &charset).unwrap(), signed);
            match number.checked_mul(3).and_then(|tripled| tripled.checked_add(12_345_678_901)) {
                Some(next) => number = next,
                None => break,
            }
        }
        for number in [u128::MAX, u128::MAX - 1, u64::MAX as u128 + 1] {
            let name = number2name_u128(number, &charset);
            assert_eq!(name2number_u128(&name, &charset).unwrap(), number);
        }
    }
}

#[test]
fn names_do_not_collide() {
    for charset in alphabets() {
        let mut seen = std::collections::HashSet::new();
        for number in 0..5000u16 {
            if charset.len() == 1 && number > 300 {
                break;
            }
            assert!(seen.insert(number2name_u16(number, &charset)));
        }
    }
}

#[test]
fn names_have_no_spare_leading_symbol() {
    let charset = Charset::case_sensitive("aBcD");
    assert_eq!(number2name_u64(0, &charset), "a");
    assert_eq!(number2name_u64(3, &charset), "D");
    assert_eq!(number2name_u64(4, &charset), "aa");
    assert_eq!(number2name_u64(19, &charset), "DD");
    assert_eq!(number2name_u64(20, &charset), "aaa");
    // A leading first symbol counts: no text decodes like a shorter one.
    assert_eq!(name2number("a", &charset).unwrap(), 0);
    assert_eq!(name2number("aa", &charset).unwrap(), 4);
    assert_eq!(name2number("aaa", &charset).unwrap(), 20);
    assert_eq!(name2number("aD", &charset).unwrap(), 7);
    assert_eq!(name2number("D", &charset).unwrap(), 3);
}

#[test]
fn every_text_is_the_name_of_its_number() {
    let charset = Charset::case_sensitive("xYz");
    let symbols = ['x', 'Y', 'z'];
    let mut texts: Vec<String> = symbols.iter().map(|symbol| symbol.to_string()).collect();
    let mut expected: u64 = 0;
    for _length in 1..=6 {
        let mut longer = Vec::new();
        for text in &texts {
            assert_eq!(name2number(text, &charset).unwrap(), expected);
            assert_eq!(&number2name_u64(expected, &charset), text);
            expected += 1;
            for symbol in symbols {
                longer.push(format!("{}{}", text, symbol));
            }
        }
        longer.sort_by_key(|text| name2number(text, &charset).unwrap());
        texts = longer;
    }
}

#[test]
fn decode_ignores_case_where_charset_does() {
    let charset = Charset::case_insensitive("aBcDeFgHiJkLmNoPqRsTuVwXyZ");
    for number in (0..60000u16).step_by(7) {
        let name = number2name_u16(number, &charset);
        assert_eq!(name2number_u16(&name.to_lowercase(), &charset).unwrap(), number);
        assert_eq!(name2number_u16(&name.to_uppercase(), &charset).unwrap(), number);
    }
    assert_eq!(name2number("BD", &charset).unwrap(), name2number("bd", &charset).unwrap());
    assert!(Charset::try_new("abBA", Case::Insensitive).is_none());
    assert_eq!(Charset::try_new("abBA", Case::Sensitive).unwrap().len(), 4);
}

#[test]
fn overflow_boundary_per_width() {
    let charset = Charset::case_sensitive("aBcDeFgHiJkLmNoPqRsTuVwXyZ");
    assert_eq!(name2number_u16("cRXP", &charset).unwrap(), u16::MAX);
    assert!(matches!(name2number_u16("cRXq", &charset), Err(N2NErr::TooLarge { .. })));
    assert!(matches!(name2number_u16("aaaaa", &charset), Err(N2NErr::TooLarge { .. })));
    assert_eq!(name2number_u32("mwLqkwV", &charset).unwrap(), u32::MAX);
    assert!(matches!(name2number_u32("mwLqkww", &charset), Err(N2NErr::TooLarge { .. })));
    assert_eq!(name2number_u64("gkgwByLwRXTLPP", &charset).unwrap(), u64::MAX);
    assert!(matches!(name2number_u64("gkgwByLwRXTLPq", &charset), Err(N2NErr::TooLarge { .. })));
    assert_eq!(
        name2number_u128("BcgDeNLqRqwDsLRugsNLBTmFiJaV", &charset).unwrap(),
        u128::MAX
    );
    assert!(matches!(
        name2number_u128("BcgDeNLqRqwDsLRugsNLBTmFiJaw", &charset),
        Err(N2NErr::TooLarge { .. })
    ));
    assert!(matches!(
        name2number_u128("ZZZZZZZZZZZZZZZZZZZZZZZZZZZZZZZZZZZZZZZZ", &charset),
        Err(N2NErr::TooLarge { .. })
    ));
    // A narrower width refuses what a wider one holds; nothing is cut off.
    let name = number2name_u32(u16::MAX as u32 + 1, &charset);
    assert!(matches!(name2number_u16(&name, &charset), Err(N2NErr::TooLarge { .. })));
    assert_eq!(name2number_u32(&name, &charset).unwrap(), 65536);
    assert!(matches!(name2number_i16(&name, &charset), Err(N2NErr::TooLarge { .. })));
}

#[test]
fn limit_is_the_last_number_that_decodes() {
    let charset = Charset::case_sensitive("aBcD");
    for limit in [0u128, 1, 3, 4, 19, 20, 743, 744, 745, 100_000] {
        for number in 0..limit + 30 {
            let name = number2name_u128(number, &charset);
            match name2number_up_to(&name, &charset, limit) {
                Ok(value) => {
                    assert!(number <= limit);
                    assert_eq!(value, number);
                }
                Err(N2NErr::TooLarge { .. }) => assert!(number > limit),
                Err(_) => panic!("wrong error"),
            }
            if limit > 100 && number > 40 {
                break;
            }
        }
    }
}

#[test]
fn invalid_character_wherever_it_stands() {
    let charset = Charset::case_sensitive("aBcDeFgHiJkLmNoPqRsTuVwXyZ");
    let name = "gkgwByLwRXTLP";
    for at in 0..=name.len() {
        let mut text = String::from(&name[..at]);
        text.push('?');
        text.push_str(&name[at..]);
        match name2number_u128(&text, &charset) {
            Err(N2NErr::InvalidCharacter { character, charset }) => {
                assert_eq!(character, '?');
                assert_eq!(charset.render(), "aBcDeFgHiJkLmNoPqRsTuVwXyZ");
            }
            _ => panic!("wrong error"),
        }
    }
}

#[test]
fn fault_nearest_the_end_is_reported() {
    let charset = Charset::case_sensitive("aBcD");
    // Of two invalid characters the later one is named.
    assert!(matches!(
        name2number("a?a!a", &charset),
        Err(N2NErr::InvalidCharacter { character: '!', .. })
    ));
    // An invalid character in front of what already is too large goes unseen.
    assert!(matches!(name2number_u16("?DDDDDDDDD", &charset), Err(N2NErr::TooLarge { .. })));
    // In front of what still fits, it is reported.
    assert!(matches!(
        name2number_u16("?DDDDDDD", &charset),
        Err(N2NErr::InvalidCharacter { character: '?', .. })
    ));
    // An invalid character at the very end is reported whatever stands before.
    assert!(matches!(
        name2number_u16("DDDDDDDDDDDDDDDDDDDDDD?", &charset),
        Err(N2NErr::InvalidCharacter { character: '?', .. })
    ));
}

#[test]
fn empty_text_for_every_width() {
    let charset = Charset::case_insensitive("abc");
    assert!(matches!(name2number_u16("", &charset), Err(N2NErr::EmptyInput)));
    assert!(matches!(name2number_u32("", &charset), Err(N2NErr::EmptyInput)));
    assert!(matches!(name2number_u64("", &charset), Err(N2NErr::EmptyInput)));
    assert!(matches!(name2number_u128("", &charset), Err(N2NErr::EmptyInput)));
    assert!(matches!(name2number_i16("", &charset), Err(N2NErr::EmptyInput)));
    assert!(matches!(name2number_i128("", &charset), Err(N2NErr::EmptyInput)));
    assert!(matches!(name2number_up_to("", &charset, 0), Err(N2NErr::EmptyInput)));
    assert!(matches!(charset.decode(""), Err(N2NErr::EmptyInput)));
}

#[test]
fn concrete_scenario() {
    let charset = Charset::case_sensitive("aBcD");
    assert_eq!(number2name_u64(744, &charset), "BcBBa");
    assert_eq!(name2number("BcBBa", &charset).unwrap(), 744);
}

#[test]
fn methods_agree_with_functions() {
    let charset = Charset::case_sensitive("aBcDeFgHiJkLmNoPqRsTuVwXyZ");
    assert_eq!(charset.encode(744), "aBq");
    assert_eq!(charset.encode_u16(u16::MAX), "cRXP");
    assert_eq!(charset.encode_u32(u32::MAX), "mwLqkwV");
    assert_eq!(charset.encode_u64(u64::MAX), "gkgwByLwRXTLPP");
    assert_eq!(charset.encode_u128(u128::MAX), "BcgDeNLqRqwDsLRugsNLBTmFiJaV");
    assert_eq!(charset.encode_i16(i16::MIN), "cRXP");
    assert_eq!(charset.encode_i32(i32::MAX), "mwLqkwu");
    assert_eq!(charset.encode_i64(i64::MIN), "gkgwByLwRXTLPP");
    assert_eq!(charset.encode_i128(i128::MAX), "BcgDeNLqRqwDsLRugsNLBTmFiJau");
    assert_eq!(charset.decode("aBq").unwrap(), 744);
    assert_eq!(charset.decode_u16("cRXP").unwrap(), u16::MAX);
    assert_eq!(charset.decode_u32("mwLqkwV").unwrap(), u32::MAX);
    assert_eq!(charset.decode_u64("gkgwByLwRXTLPP").unwrap(), u64::MAX);
    assert_eq!(charset.decode_u128("BcgDeNLqRqwDsLRugsNLBTmFiJaV").unwrap(), u128::MAX);
    assert_eq!(charset.decode_i16("cRXP").unwrap(), i16::MIN);
    assert_eq!(charset.decode_i32("mwLqkwu").unwrap(), i32::MAX);
    assert_eq!(charset.decode_i64("gkgwByLwRXTLPP").unwrap(), i64::MIN);
    assert_eq!(charset.decode_i128("BcgDeNLqRqwDsLRugsNLBTmFiJau").unwrap(), i128::MAX);
    assert!(matches!(charset.decode_u16("cRXq"), Err(N2NErr::TooLarge { .. })));
    assert!(matches!(charset.decode_i16("cRXq"), Err(N2NErr::TooLarge { .. })));
}
