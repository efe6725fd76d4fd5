//! Numbers as a user writes and reads them: decimal text to integers and
//! back, and whole lists of arguments to lines of output.

use crate::builtin::{charset_by_identifier, resolve_spec};
use crate::charset::{Alphabet, Charset};
use crate::decode::{decode_spec, name2number_i128, name2number_u128};
use crate::encode::{encode_spec, number2name_i128, number2name_u128};
use crate::signs::{fold, unfold};
use crate::typ::message_spec;
use crate::util::{chars_of, push_char, unicode_uppercase};
use vstd::prelude::*;
use vstd::string::StringExecFns;

verus! {

/// Whether a character is one of the ten decimal digits.
pub open spec fn is_digit(character: char) -> bool {
    '0' <= character && character <= '9'
}

/// Whether a text consists of decimal digits only.
pub open spec fn all_digits(text: Seq<char>) -> bool {
    forall|i: int| 0 <= i < text.len() ==> is_digit(#[trigger] text[i])
}

/// The value of a decimal digit.
pub open spec fn digit_value(character: char) -> nat {
    (character as u32 - '0' as u32) as nat
}

/// The number that a text of decimal digits stands for; leading zeros count
/// for nothing.
pub open spec fn decimal_value(digits: Seq<char>) -> nat
    decreases digits.len(),
{
    if digits.len() == 0 {
        0
    } else {
        decimal_value(digits.drop_last()) * 10 + digit_value(digits.last())
    }
}

/// The number that a text of decimal digits stands for, if it is a number at
/// all and at most `limit`.
pub open spec fn decimal_within(digits: Seq<char>, limit: nat) -> Option<nat> {
    if digits.len() > 0 && all_digits(digits) && decimal_value(digits) <= limit {
        Some(decimal_value(digits))
    } else {
        None
    }
}

/// What an unsigned 128-bit number is read from: digits, with `+` in front of
/// them or nothing.
pub open spec fn parse_u128_spec(text: Seq<char>) -> Option<u128> {
    let digits = if text.len() > 0 && text[0] == '+' {
        text.drop_first()
    } else {
        text
    };
    match decimal_within(digits, u128::MAX as nat) {
        Some(value) => Some(value as u128),
        None => None,
    }
}

/// What a signed 128-bit number is read from: digits, with `+` or `-` in
/// front of them or nothing.
pub open spec fn parse_i128_spec(text: Seq<char>) -> Option<i128> {
    if text.len() > 0 && text[0] == '-' {
        match decimal_within(text.drop_first(), (-(i128::MIN as int)) as nat) {
            Some(value) => Some((-(value as int)) as i128),
            None => None,
        }
    } else {
        let digits = if text.len() > 0 && text[0] == '+' {
            text.drop_first()
        } else {
            text
        };
        match decimal_within(digits, i128::MAX as nat) {
            Some(value) => Some(value as i128),
            None => None,
        }
    }
}

/// More digits never make a smaller number.
pub proof fn lemma_decimal_value_grows(digits: Seq<char>, count: int)
    requires
        0 <= count <= digits.len(),
    ensures
        decimal_value(digits.take(count)) <= decimal_value(digits),
    decreases digits.len() - count,
{
    if count == digits.len() {
        assert(digits.take(count) =~= digits);
    } else {
        lemma_decimal_value_grows(digits.drop_last(), count);
        assert(digits.drop_last().take(count) =~= digits.take(count));
    }
}

/// The number that the characters from `from` on stand for, if they are
/// decimal digits, at least one, and the number is at most `limit`.
fn parse_digits(text: &Vec<char>, from: usize, limit: u128) -> (number: Option<u128>)
    requires
        from <= text@.len(),
    ensures
        number == match decimal_within(
            text@.subrange(from as int, text@.len() as int),
            limit as nat,
        ) {
            Some(value) => Some(value as u128),
            None => None,
        },
{
    let ghost digits = text@.subrange(from as int, text@.len() as int);
    if from == text.len() {
        return None;
    }
    let mut value: u128 = 0;
    let mut at: usize = from;
    while at < text.len()
        invariant
            from <= at <= text@.len(),
            digits == text@.subrange(from as int, text@.len() as int),
            all_digits(digits.take(at - from)),
            value == decimal_value(digits.take(at - from)),
            value <= limit,
        decreases text@.len() - at,
    {
        let character = text[at];
        if !('0' <= character && character <= '9') {
            assert(!is_digit(digits[at - from]));
            return None;
        }
        let digit: u128 = (character as u8 - 48) as u128;
        proof {
            let longer = digits.take(at - from + 1);
            assert(longer.drop_last() =~= digits.take(at - from));
            assert(longer.last() == character);
            assert(digit == digit_value(character));
            assert(decimal_value(longer) == value * 10 + digit);
            lemma_decimal_value_grows(digits, at - from + 1);
            assert(all_digits(longer)) by {
                assert forall|i: int| 0 <= i < longer.len() implies is_digit(
                    #[trigger] longer[i],
                ) by {
                    if i < at - from {
                        assert(digits.take(at - from)[i] == longer[i]);
                    }
                }
            }
        }
        let tenfold: u128 = match value.checked_mul(10) {
            Some(tenfold) => tenfold,
            None => {
                return None;
            },
        };
        let next: u128 = match tenfold.checked_add(digit) {
            Some(next) => next,
            None => {
                return None;
            },
        };
        if next > limit {
            return None;
        }
        value = next;
        at += 1;
    }
    proof {
        assert(digits.take(at - from) =~= digits);
    }
    Some(value)
}

/// Read an unsigned number in decimal notation.
pub fn parse_u128(text: &str) -> (number: Option<u128>)
    ensures
        number == parse_u128_spec(text@),
{
    let characters = chars_of(text);
    let from: usize = if characters.len() > 0 && characters[0] == '+' {
        1
    } else {
        0
    };
    proof {
        assert(text@.subrange(0, text@.len() as int) =~= text@);
        if from == 1 {
            assert(text@.subrange(1, text@.len() as int) =~= text@.drop_first());
        }
    }
    parse_digits(&characters, from, u128::MAX)
}

/// Read a signed number in decimal notation.
pub fn parse_i128(text: &str) -> (number: Option<i128>)
    ensures
        number == parse_i128_spec(text@),
{
    let characters = chars_of(text);
    proof {
        assert(text@.subrange(0, text@.len() as int) =~= text@);
        if text@.len() > 0 {
            assert(text@.subrange(1, text@.len() as int) =~= text@.drop_first());
        }
    }
    if characters.len() > 0 && characters[0] == '-' {
        match parse_digits(&characters, 1, 0x8000_0000_0000_0000_0000_0000_0000_0000u128) {
            Some(magnitude) => {
                if magnitude == 0x8000_0000_0000_0000_0000_0000_0000_0000u128 {
                    Some(i128::MIN)
                } else {
                    Some(-(magnitude as i128))
                }
            },
            None => None,
        }
    } else {
        let from: usize = if characters.len() > 0 && characters[0] == '+' {
            1
        } else {
            0
        };
        match parse_digits(&characters, from, i128::MAX as u128) {
            Some(magnitude) => Some(magnitude as i128),
            None => None,
        }
    }
}

/// What a user gets for a number written in decimal: its name, or why there
/// is none.
pub open spec fn encode_argument_spec(text: Seq<char>, signed: bool, symbols: Seq<char>) -> Result<
    Seq<char>,
    Seq<char>,
> {
    if signed {
        match parse_i128_spec(text) {
            Some(number) => Ok(encode_spec(fold(number as int) as nat, symbols)),
            None => Err(
                "The input '"@ + text + "' was not recognized as a valid number"@,
            ),
        }
    } else {
        match parse_u128_spec(text) {
            Some(number) => Ok(encode_spec(number as nat, symbols)),
            None => Err(
                "The input '"@ + text + "' was not recognized as a valid unsigned number"@,
            ),
        }
    }
}

/// Encode a number that is given in decimal notation, signed or unsigned.
pub fn encode_argument(text: &str, signed: bool, charset: &Charset) -> (name: Result<
    String,
    String,
>)
    ensures
        match name {
            Ok(found) => encode_argument_spec(text@, signed, charset@.symbols) == Ok::<
                Seq<char>,
                Seq<char>,
            >(found@),
            Err(reason) => encode_argument_spec(text@, signed, charset@.symbols) == Err::<
                Seq<char>,
                Seq<char>,
            >(reason@),
        },
{
    if signed {
        match parse_i128(text) {
            Some(number) => Ok(number2name_i128(number, charset)),
            None => {
                let mut reason = String::from_str("The input '");
                reason.append(text);
                reason.append("' was not recognized as a valid number");
                Err(reason)
            },
        }
    } else {
        match parse_u128(text) {
            Some(number) => Ok(number2name_u128(number, charset)),
            None => {
                let mut reason = String::from_str("The input '");
                reason.append(text);
                reason.append("' was not recognized as a valid unsigned number");
                Err(reason)
            },
        }
    }
}

/// The character that writes a decimal digit.
pub open spec fn digit_char(digit: nat) -> char {
    ('0' as u32 + digit) as char
}

/// The decimal notation of a natural number, without leading zeros.
pub open spec fn decimal_digits(number: nat) -> Seq<char>
    decreases number,
{
    if number < 10 {
        seq![digit_char(number)]
    } else {
        decimal_digits(number / 10).push(digit_char(number % 10))
    }
}

/// The decimal notation of an integer: a `-` in front of a negative one.
pub open spec fn decimal_text(number: int) -> Seq<char> {
    if number < 0 {
        seq!['-'] + decimal_digits((-number) as nat)
    } else {
        decimal_digits(number as nat)
    }
}

/// What is written for a number is read back as that number.
pub proof fn lemma_decimal_round_trip(number: nat)
    ensures
        decimal_digits(number).len() >= 1,
        all_digits(decimal_digits(number)),
        decimal_value(decimal_digits(number)) == number,
    decreases number,
{
    if number < 10 {
        let text = seq![digit_char(number)];
        assert(text.drop_last() =~= Seq::<char>::empty());
        assert(decimal_value(text.drop_last()) == 0);
        assert(digit_value(digit_char(number)) == number);
    } else {
        lemma_decimal_round_trip(number / 10);
        let front = decimal_digits(number / 10);
        let text = front.push(digit_char(number % 10));
        assert(text.drop_last() =~= front);
        assert(digit_value(digit_char(number % 10)) == number % 10);
        assert forall|i: int| 0 <= i < text.len() implies is_digit(#[trigger] text[i]) by {
            if i < front.len() {
                assert(text[i] == front[i]);
            }
        }
    }
}

/// Write an unsigned number in decimal notation.
pub fn format_u128(number: u128) -> (text: String)
    ensures
        text@ == decimal_digits(number as nat),
{
    let mut rest: u128 = number;
    let mut collected: Vec<char> = Vec::new();
    loop
        invariant_except_break
            decimal_digits(number as nat) == decimal_digits(rest as nat) + Seq::new(
                collected@.len(),
                |i: int| collected@[collected@.len() - 1 - i],
            ),
        ensures
            decimal_digits(number as nat) == Seq::new(
                collected@.len(),
                |i: int| collected@[collected@.len() - 1 - i],
            ),
        decreases rest,
    {
        let ghost before = rest as nat;
        let ghost earlier = collected@;
        let digit: u8 = (rest % 10) as u8;
        collected.push((48 + digit) as char);
        rest = rest / 10;
        proof {
            assert((48 + digit) as char == digit_char(before % 10));
            assert(Seq::new(
                collected@.len(),
                |i: int| collected@[collected@.len() - 1 - i],
            ) =~= seq![digit_char(before % 10)] + Seq::new(
                earlier.len(),
                |i: int| earlier[earlier.len() - 1 - i],
            ));
        }
        if rest == 0 {
            break ;
        }
        proof {
            assert(decimal_digits(before) == decimal_digits(rest as nat).push(
                digit_char(before % 10),
            ));
            assert(decimal_digits(number as nat) =~= decimal_digits(rest as nat) + Seq::new(
                collected@.len(),
                |i: int| collected@[collected@.len() - 1 - i],
            ));
        }
    }
    let mut text = String::new();
    let mut left: usize = collected.len();
    while left > 0
        invariant
            0 <= left <= collected@.len(),
            text@ == Seq::new(
                (collected@.len() - left) as nat,
                |i: int| collected@[collected@.len() - 1 - i],
            ),
        decreases left,
    {
        left -= 1;
        push_char(&mut text, collected[left]);
        proof {
            assert(text@ =~= Seq::new(
                (collected@.len() - left) as nat,
                |i: int| collected@[collected@.len() - 1 - i],
            ));
        }
    }
    text
}

/// Write a signed number in decimal notation.
pub fn format_i128(number: i128) -> (text: String)
    ensures
        text@ == decimal_text(number as int),
{
    if number < 0 {
        let magnitude: u128 = if number == i128::MIN {
            0x8000_0000_0000_0000_0000_0000_0000_0000u128
        } else {
            (-number) as u128
        };
        let digits = format_u128(magnitude);
        let mut text = String::from_str("-");
        text.append(digits.as_str());
        proof {
            reveal_strlit("-");
            assert("-"@ =~= seq!['-']);
        }
        text
    } else {
        format_u128(number as u128)
    }
}

/// What a user gets for a name: the number it stands for in decimal, or why
/// there is none.
pub open spec fn decode_argument_spec(name: Seq<char>, signed: bool, alphabet: Alphabet) -> Result<
    Seq<char>,
    Seq<char>,
> {
    match decode_spec(name, alphabet, u128::MAX as nat) {
        Ok(number) => if signed {
            Ok(decimal_text(unfold(number as int)))
        } else {
            Ok(decimal_digits(number))
        },
        Err(failure) => Err(message_spec(failure)),
    }
}

/// Decode a name and write the number in decimal notation, signed or
/// unsigned.
pub fn decode_argument(name: &str, signed: bool, charset: &Charset) -> (number: Result<
    String,
    String,
>)
    ensures
        match number {
            Ok(found) => decode_argument_spec(name@, signed, charset@) == Ok::<
                Seq<char>,
                Seq<char>,
            >(found@),
            Err(reason) => decode_argument_spec(name@, signed, charset@) == Err::<
                Seq<char>,
                Seq<char>,
            >(reason@),
        },
{
    if signed {
        match name2number_i128(name, charset) {
            Ok(number) => Ok(format_i128(number)),
            Err(error) => Err(error.message()),
        }
    } else {
        match name2number_u128(name, charset) {
            Ok(number) => Ok(format_u128(number)),
            Err(error) => Err(error.message()),
        }
    }
}

/// What the encoding command was asked: the numbers, in decimal; the
/// character set, by name or spelled out; and whether the numbers are signed.
pub struct Nr2NameArgs {
    pub names: Vec<String>,
    pub charset: String,
    pub signed: bool,
}

/// What the decoding command was asked: the names; the character set, by name
/// or spelled out; and whether the numbers are signed.
pub struct Name2NrArgs {
    pub names: Vec<String>,
    pub charset: String,
    pub signed: bool,
}

/// What a command has to say: lines of output, and after them the failure
/// that made it stop, if one did.
pub struct Outcome {
    pub lines: Vec<String>,
    pub failure: Option<String>,
}

/// What a command has to say, as plain text.
pub struct Report {
    pub lines: Seq<Seq<char>>,
    pub failure: Option<Seq<char>>,
}

impl View for Outcome {
    type V = Report;

    open spec fn view(&self) -> Report {
        Report {
            lines: self.lines@.map_values(|line: String| line@),
            failure: match self.failure {
                Some(reason) => Some(reason@),
                None => None,
            },
        }
    }
}

/// The report on a run of answers: each answer is a line until the first
/// failure, which ends the report.
pub open spec fn report_of(answers: Seq<Result<Seq<char>, Seq<char>>>) -> Report
    decreases answers.len(),
{
    if answers.len() == 0 {
        Report { lines: Seq::empty(), failure: None }
    } else {
        let before = report_of(answers.drop_last());
        if before.failure is Some {
            before
        } else {
            match answers.last() {
                Ok(line) => Report { lines: before.lines.push(line), failure: None },
                Err(reason) => Report { lines: before.lines, failure: Some(reason) },
            }
        }
    }
}

/// Once a run of answers has met a failure, the answers after it change
/// nothing.
pub proof fn lemma_report_stops(answers: Seq<Result<Seq<char>, Seq<char>>>, count: int)
    requires
        0 <= count <= answers.len(),
        report_of(answers.take(count)).failure is Some,
    ensures
        report_of(answers) == report_of(answers.take(count)),
    decreases answers.len() - count,
{
    if count == answers.len() {
        assert(answers.take(count) =~= answers);
    } else {
        assert(answers.drop_last().take(count) =~= answers.take(count));
        lemma_report_stops(answers.drop_last(), count);
    }
}

/// The texts of some strings.
pub open spec fn texts(strings: Seq<String>) -> Seq<Seq<char>> {
    strings.map_values(|text: String| text@)
}

/// What the encoding command answers.
pub open spec fn encode_arguments_spec(
    names: Seq<Seq<char>>,
    charset: Seq<char>,
    signed: bool,
) -> Report {
    match resolve_spec(unicode_uppercase(charset), charset) {
        Err(reason) => Report { lines: Seq::empty(), failure: Some(reason) },
        Ok(alphabet) => report_of(
            names.map_values(
                |name: Seq<char>| encode_argument_spec(name, signed, alphabet.symbols),
            ),
        ),
    }
}

/// What the decoding command answers.
pub open spec fn decode_arguments_spec(
    names: Seq<Seq<char>>,
    charset: Seq<char>,
    signed: bool,
) -> Report {
    match resolve_spec(unicode_uppercase(charset), charset) {
        Err(reason) => Report { lines: Seq::empty(), failure: Some(reason) },
        Ok(alphabet) => report_of(
            names.map_values(|name: Seq<char>| decode_argument_spec(name, signed, alphabet)),
        ),
    }
}

/// Encode each number in turn, up to the first that cannot be.
pub fn encode_arguments(args: &Nr2NameArgs) -> (outcome: Outcome)
    ensures
        outcome@ == encode_arguments_spec(texts(args.names@), args.charset@, args.signed),
{
    let charset = match charset_by_identifier(args.charset.as_str()) {
        Ok(charset) => charset,
        Err(reason) => {
            let outcome = Outcome { lines: Vec::new(), failure: Some(reason) };
            proof {
                assert(outcome@.lines =~= Seq::<Seq<char>>::empty());
            }
            return outcome;
        },
    };
    let ghost answers = texts(args.names@).map_values(
        |name: Seq<char>| encode_argument_spec(name, args.signed, charset@.symbols),
    );
    let mut lines: Vec<String> = Vec::new();
    let mut at: usize = 0;
    proof {
        assert(answers.take(0).len() == 0);
        assert(texts(lines@) =~= Seq::<Seq<char>>::empty());
    }
    while at < args.names.len()
        invariant
            0 <= at <= args.names@.len(),
            resolve_spec(unicode_uppercase(args.charset@), args.charset@) == Ok::<
                Alphabet,
                Seq<char>,
            >(charset@),
            answers == texts(args.names@).map_values(
                |name: Seq<char>| encode_argument_spec(name, args.signed, charset@.symbols),
            ),
            report_of(answers.take(at as int)) == (Report { lines: texts(lines@), failure: None }),
        decreases args.names@.len() - at,
    {
        let ghost earlier = lines@;
        proof {
            assert(answers.take(at + 1).drop_last() =~= answers.take(at as int));
            assert(answers.take(at + 1).last() == answers[at as int]);
        }
        match encode_argument(args.names[at].as_str(), args.signed, &charset) {
            Ok(line) => {
                lines.push(line);
                proof {
                    assert(texts(lines@) =~= texts(earlier).push(line@));
                }
            },
            Err(reason) => {
                proof {
                    assert(report_of(answers.take(at + 1)) == (Report {
                        lines: texts(lines@),
                        failure: Some(reason@),
                    }));
                    lemma_report_stops(answers, at + 1);
                }
                return Outcome { lines, failure: Some(reason) };
            },
        }
        at += 1;
    }
    proof {
        assert(answers.take(at as int) =~= answers);
    }
    Outcome { lines, failure: None }
}

/// Decode each name in turn, up to the first that cannot be.
pub fn decode_arguments(args: &Name2NrArgs) -> (outcome: Outcome)
    ensures
        outcome@ == decode_arguments_spec(texts(args.names@), args.charset@, args.signed),
{
    let charset = match charset_by_identifier(args.charset.as_str()) {
        Ok(charset) => charset,
        Err(reason) => {
            let outcome = Outcome { lines: Vec::new(), failure: Some(reason) };
            proof {
                assert(outcome@.lines =~= Seq::<Seq<char>>::empty());
            }
            return outcome;
        },
    };
    let ghost answers = texts(args.names@).map_values(
        |name: Seq<char>| decode_argument_spec(name, args.signed, charset@),
    );
    let mut lines: Vec<String> = Vec::new();
    let mut at: usize = 0;
    proof {
        assert(answers.take(0).len() == 0);
        assert(texts(lines@) =~= Seq::<Seq<char>>::empty());
    }
    while at < args.names.len()
        invariant
            0 <= at <= args.names@.len(),
            resolve_spec(unicode_uppercase(args.charset@), args.charset@) == Ok::<
                Alphabet,
                Seq<char>,
            >(charset@),
            answers == texts(args.names@).map_values(
                |name: Seq<char>| decode_argument_spec(name, args.signed, charset@),
            ),
            report_of(answers.take(at as int)) == (Report { lines: texts(lines@), failure: None }),
        decreases args.names@.len() - at,
    {
        let ghost earlier = lines@;
        proof {
            assert(answers.take(at + 1).drop_last() =~= answers.take(at as int));
            assert(answers.take(at + 1).last() == answers[at as int]);
        }
        match decode_argument(args.names[at].as_str(), args.signed, &charset) {
            Ok(line) => {
                lines.push(line);
                proof {
                    assert(texts(lines@) =~= texts(earlier).push(line@));
                }
            },
            Err(reason) => {
                proof {
                    assert(report_of(answers.take(at + 1)) == (Report {
                        lines: texts(lines@),
                        failure: Some(reason@),
                    }));
                    lemma_report_stops(answers, at + 1);
                }
                return Outcome { lines, failure: Some(reason) };
            },
        }
        at += 1;
    }
    proof {
        assert(answers.take(at as int) =~= answers);
    }
    Outcome { lines, failure: None }
}

} // verus!
