//! Names back to numbers.

use crate::charset::{Alphabet, Charset};
use crate::numeral::{
    lemma_weight_concat, lemma_weight_grows_leftwards, lemma_weight_single, weight,
};
use crate::signs::{
    unfold, unsigned2signed_128, unsigned2signed_16, unsigned2signed_32, unsigned2signed_64,
};
use crate::typ::{Failure, N2NErr};
use crate::util::chars_of;
use vstd::arithmetic::power::pow;
use vstd::prelude::*;

verus! {

/// The digit that a character stands for; 0 for a character outside the
/// alphabet, which no caller should ask about.
pub open spec fn digit_of(alphabet: Alphabet, character: char) -> nat {
    match alphabet.position_of(character) {
        Some(position) => position,
        None => 0,
    }
}

/// The digits that the characters of `text` stand for.
pub open spec fn positions(text: Seq<char>, alphabet: Alphabet) -> Seq<nat> {
    text.map_values(|character: char| digit_of(alphabet, character))
}

/// How many characters at the end of `text` belong to the alphabet, counting
/// back from the last one until one does not.
pub open spec fn readable_len(text: Seq<char>, alphabet: Alphabet) -> nat
    decreases text.len(),
{
    if text.len() == 0 || alphabet.position_of(text.last()) is None {
        0
    } else {
        1 + readable_len(text.drop_last(), alphabet)
    }
}

/// The end of `text` that can be read: its longest suffix of characters of the
/// alphabet.
pub open spec fn readable_tail(text: Seq<char>, alphabet: Alphabet) -> Seq<char> {
    text.subrange(text.len() - readable_len(text, alphabet), text.len() as int)
}

/// The number that `text` stands for when all of it is readable.
pub open spec fn number_of_text(text: Seq<char>, alphabet: Alphabet) -> int {
    weight(positions(text, alphabet), alphabet.symbols.len()) - 1
}

/// What decoding `text` gives when numbers up to `limit` can be held.
///
/// The text is read from its end. Reading stops with `TooLarge` once what has
/// been read stands for more than `limit`, and with `InvalidCharacter` at the
/// first character that is no symbol of the alphabet; so of two such faults
/// the one nearer to the end of the text is reported.
pub open spec fn decode_spec(text: Seq<char>, alphabet: Alphabet, limit: nat) -> Result<
    nat,
    Failure,
> {
    let readable = readable_len(text, alphabet);
    let tail = readable_tail(text, alphabet);
    if text.len() == 0 {
        Err(Failure::EmptyInput)
    } else if readable > 0 && number_of_text(tail, alphabet) > limit {
        Err(Failure::TooLarge { alphabet })
    } else if readable < text.len() {
        Err(Failure::InvalidCharacter { character: text[text.len() - readable - 1], alphabet })
    } else {
        Ok(number_of_text(text, alphabet) as nat)
    }
}

/// Whether the last `count` characters of `text` all belong to the alphabet.
pub open spec fn ends_readable(text: Seq<char>, alphabet: Alphabet, count: nat) -> bool {
    &&& count <= text.len()
    &&& forall|i: int|
        text.len() - count <= i < text.len() ==> alphabet.position_of(#[trigger] text[i]) is Some
}

/// If the last `count` characters belong to the alphabet, at least that many
/// are readable; exactly that many if the character before them does not
/// belong, or there is none.
pub proof fn lemma_readable_len(text: Seq<char>, alphabet: Alphabet, count: nat)
    requires
        ends_readable(text, alphabet, count),
    ensures
        readable_len(text, alphabet) >= count,
        readable_len(text, alphabet) <= text.len(),
        ends_readable(text, alphabet, readable_len(text, alphabet)),
        count == text.len() || alphabet.position_of(text[text.len() - count - 1]) is None
            ==> readable_len(text, alphabet) == count,
    decreases text.len(),
{
    if text.len() > 0 && alphabet.position_of(text.last()) is Some {
        let shorter = text.drop_last();
        if count > 0 {
            assert(ends_readable(shorter, alphabet, (count - 1) as nat)) by {
                assert forall|i: int|
                    shorter.len() - (count - 1) <= i < shorter.len() implies alphabet.position_of(
                    #[trigger] shorter[i],
                ) is Some by {
                    assert(shorter[i] == text[i]);
                }
            }
            lemma_readable_len(shorter, alphabet, (count - 1) as nat);
        } else {
            lemma_readable_len(shorter, alphabet, 0);
        }
        let found = readable_len(shorter, alphabet);
        assert forall|i: int|
            text.len() - (found + 1) <= i < text.len() implies alphabet.position_of(
            #[trigger] text[i],
        ) is Some by {
            if i < shorter.len() {
                assert(shorter[i] == text[i]);
            }
        }
    }
}

/// What the readable tail stands for is at least what any readable end of
/// the text stands for.
pub proof fn lemma_tail_outweighs(text: Seq<char>, alphabet: Alphabet, count: nat)
    requires
        ends_readable(text, alphabet, count),
    ensures
        readable_len(text, alphabet) >= count,
        number_of_text(readable_tail(text, alphabet), alphabet) >= number_of_text(
            text.subrange(text.len() - count, text.len() as int),
            alphabet,
        ),
{
    lemma_readable_len(text, alphabet, count);
    let readable = readable_len(text, alphabet);
    let tail = readable_tail(text, alphabet);
    let end = text.subrange(text.len() - count, text.len() as int);
    let front = text.subrange(text.len() - readable, text.len() - count);
    assert(tail =~= front + end);
    assert(positions(tail, alphabet) =~= positions(front, alphabet) + positions(end, alphabet));
    lemma_weight_grows_leftwards(
        positions(front, alphabet),
        positions(end, alphabet),
        alphabet.symbols.len(),
    );
}

/// One more character in front adds its digit, plus one, times the power of
/// the base that its place gives it.
pub proof fn lemma_number_of_text_step(text: Seq<char>, alphabet: Alphabet, at: int)
    requires
        0 <= at < text.len() - 1,
    ensures
        number_of_text(text.subrange(at, text.len() as int), alphabet) == (digit_of(
            alphabet,
            text[at],
        ) + 1) * pow(alphabet.symbols.len() as int, (text.len() - at - 1) as nat) + number_of_text(
            text.subrange(at + 1, text.len() as int),
            alphabet,
        ),
{
    let base = alphabet.symbols.len();
    let longer = text.subrange(at, text.len() as int);
    let shorter = text.subrange(at + 1, text.len() as int);
    let digit = digit_of(alphabet, text[at]);
    assert(positions(longer, alphabet) =~= seq![digit] + positions(shorter, alphabet));
    lemma_weight_concat(seq![digit], positions(shorter, alphabet), base);
    lemma_weight_single(digit, base);
    assert(positions(shorter, alphabet).len() == text.len() - at - 1);
    assert(weight(positions(longer, alphabet), base) == (digit + 1) * pow(
        base as int,
        (text.len() - at - 1) as nat,
    ) + weight(positions(shorter, alphabet), base));
}

/// Convert a string encoded using the given charset back to the number it
/// represents, if that number is at most `limit`.
pub fn name2number_up_to(text: &str, charset: &Charset, limit: u128) -> (number: Result<
    u128,
    N2NErr,
>)
    ensures
        match number {
            Ok(value) => decode_spec(text@, charset@, limit as nat) == Ok::<nat, Failure>(
                value as nat,
            ),
            Err(error) => decode_spec(text@, charset@, limit as nat) == Err::<nat, Failure>(
                error@,
            ),
        },
        text@.len() == 0 ==> number matches Err(N2NErr::EmptyInput),
        number matches Ok(value) ==> value <= limit,
{
    let symbols = chars_of(text);
    let length: usize = symbols.len();
    if length == 0 {
        return Err(N2NErr::EmptyInput);
    }
    let size: u128 = charset.len() as u128;
    let ghost alphabet = charset@;
    let ghost base = size as nat;
    let mut at: usize = length - 1;
    // Handle the last letter separately: it counts for its position alone.
    let mut number: u128 = match charset.index_of(symbols[at]) {
        Some(position) => position as u128,
        None => {
            proof {
                lemma_readable_len(text@, alphabet, 0);
            }
            return Err(
                N2NErr::InvalidCharacter { character: symbols[at], charset: charset.clone() },
            );
        },
    };
    proof {
        let end = text@.subrange(at as int, length as int);
        assert(positions(end, alphabet) =~= seq![digit_of(alphabet, text@[at as int])]);
        lemma_weight_single(digit_of(alphabet, text@[at as int]), base);
        assert(ends_readable(text@, alphabet, 1));
        lemma_tail_outweighs(text@, alphabet, 1);
    }
    if number > limit {
        return Err(N2NErr::TooLarge { charset: charset.clone() });
    }
    // Handle the other letters, each scaled by the power of the base of its place.
    let mut scale: u128 = 1;
    proof {
        reveal(pow);
        assert(pow(base as int, 0) == 1);
    }
    while at > 0
        invariant
            symbols@ == text@,
            alphabet == charset@,
            base == size,
            base == alphabet.symbols.len(),
            1 <= base <= usize::MAX,
            length == symbols@.len(),
            0 <= at < length,
            ends_readable(text@, alphabet, (length - at) as nat),
            number == number_of_text(text@.subrange(at as int, length as int), alphabet),
            scale == pow(base as int, (length - 1 - at) as nat),
            number <= limit,
        decreases at,
    {
        let ghost before = at as int;
        at -= 1;
        let character = symbols[at];
        let value: u128 = match charset.index_of(character) {
            Some(position) => position as u128,
            None => {
                proof {
                    lemma_readable_len(text@, alphabet, (length - before) as nat);
                    assert(readable_tail(text@, alphabet) =~= text@.subrange(
                        before,
                        length as int,
                    ));
                }
                return Err(N2NErr::InvalidCharacter { character, charset: charset.clone() });
            },
        };
        proof {
            charset@.lemma_position_in_range(character);
            assert(value == digit_of(alphabet, text@[at as int]));
            assert(value < base);
            assert(ends_readable(text@, alphabet, (length - at) as nat)) by {
                assert forall|i: int| at <= i < length implies alphabet.position_of(
                #[trigger] text@[i]) is Some by {
                    if i >= before {
                    }
                }
            }
            lemma_tail_outweighs(text@, alphabet, (length - at) as nat);
            lemma_number_of_text_step(text@, alphabet, at as int);
            reveal(pow);
            assert(pow(base as int, (length - 1 - at) as nat) == base * scale);
            vstd::arithmetic::power::lemma_pow_positive(base as int, (length - 1 - before) as nat);
        }
        let ghost place = size * scale;
        let ghost term = (value + 1) * place;
        proof {
            assert(place >= 1 && term >= place) by (nonlinear_arith)
                requires
                    place == size * scale,
                    term == (value + 1) * place,
                    size >= 1,
                    scale >= 1,
                    value >= 0,
            ;
        }
        let grown: u128 = match scale.checked_mul(size) {
            Some(grown) => grown,
            None => {
                proof {
                    assert(scale * size == place) by (nonlinear_arith)
                        requires
                            place == size * scale,
                    ;
                }
                return Err(N2NErr::TooLarge { charset: charset.clone() });
            },
        };
        proof {
            assert(grown == place) by (nonlinear_arith)
                requires
                    place == size * scale,
                    grown == scale * size,
            ;
        }
        let addition: u128 = match (value + 1).checked_mul(grown) {
            Some(addition) => addition,
            None => {
                return Err(N2NErr::TooLarge { charset: charset.clone() });
            },
        };
        let total: u128 = match number.checked_add(addition) {
            Some(total) => total,
            None => {
                return Err(N2NErr::TooLarge { charset: charset.clone() });
            },
        };
        if total > limit {
            return Err(N2NErr::TooLarge { charset: charset.clone() });
        }
        scale = grown;
        number = total;
    }
    proof {
        lemma_readable_len(text@, alphabet, length as nat);
        assert(text@.subrange(0, length as int) =~= text@);
        assert(readable_tail(text@, alphabet) =~= text@);
    }
    Ok(number)
}

/// Convert a string encoded using the given charset back to the number it
/// represents, as a `u16`.
pub fn name2number_u16(text: &str, charset: &Charset) -> (number: Result<u16, N2NErr>)
    ensures
        match number {
            Ok(value) => decode_spec(text@, charset@, u16::MAX as nat) == Ok::<nat, Failure>(
                value as nat,
            ),
            Err(error) => decode_spec(text@, charset@, u16::MAX as nat) == Err::<nat, Failure>(
                error@,
            ),
        },
{
    match name2number_up_to(text, charset, u16::MAX as u128) {
        Ok(value) => Ok(value as u16),
        Err(error) => Err(error),
    }
}

/// Convert a string encoded using the given charset back to the number it
/// represents, as a `u32`.
pub fn name2number_u32(text: &str, charset: &Charset) -> (number: Result<u32, N2NErr>)
    ensures
        match number {
            Ok(value) => decode_spec(text@, charset@, u32::MAX as nat) == Ok::<nat, Failure>(
                value as nat,
            ),
            Err(error) => decode_spec(text@, charset@, u32::MAX as nat) == Err::<nat, Failure>(
                error@,
            ),
        },
{
    match name2number_up_to(text, charset, u32::MAX as u128) {
        Ok(value) => Ok(value as u32),
        Err(error) => Err(error),
    }
}

/// Convert a string encoded using the given charset back to the number it
/// represents, as a `u64`.
pub fn name2number_u64(text: &str, charset: &Charset) -> (number: Result<u64, N2NErr>)
    ensures
        match number {
            Ok(value) => decode_spec(text@, charset@, u64::MAX as nat) == Ok::<nat, Failure>(
                value as nat,
            ),
            Err(error) => decode_spec(text@, charset@, u64::MAX as nat) == Err::<nat, Failure>(
                error@,
            ),
        },
{
    match name2number_up_to(text, charset, u64::MAX as u128) {
        Ok(value) => Ok(value as u64),
        Err(error) => Err(error),
    }
}

/// Convert a string encoded using the given charset back to the number it
/// represents, as a `u128`.
pub fn name2number_u128(text: &str, charset: &Charset) -> (number: Result<u128, N2NErr>)
    ensures
        match number {
            Ok(value) => decode_spec(text@, charset@, u128::MAX as nat) == Ok::<nat, Failure>(
                value as nat,
            ),
            Err(error) => decode_spec(text@, charset@, u128::MAX as nat) == Err::<nat, Failure>(
                error@,
            ),
        },
{
    name2number_up_to(text, charset, u128::MAX)
}

/// Convert a string encoded using the given charset back to the signed
/// number it represents, as an `i16`.
pub fn name2number_i16(text: &str, charset: &Charset) -> (number: Result<i16, N2NErr>)
    ensures
        match number {
            Ok(value) => decode_spec(text@, charset@, u16::MAX as nat) matches Ok(folded)
                && value == unfold(folded as int),
            Err(error) => decode_spec(text@, charset@, u16::MAX as nat) == Err::<nat, Failure>(
                error@,
            ),
        },
{
    match name2number_u16(text, charset) {
        Ok(folded) => Ok(unsigned2signed_16(folded)),
        Err(error) => Err(error),
    }
}

/// Convert a string encoded using the given charset back to the signed
/// number it represents, as an `i32`.
pub fn name2number_i32(text: &str, charset: &Charset) -> (number: Result<i32, N2NErr>)
    ensures
        match number {
            Ok(value) => decode_spec(text@, charset@, u32::MAX as nat) matches Ok(folded)
                && value == unfold(folded as int),
            Err(error) => decode_spec(text@, charset@, u32::MAX as nat) == Err::<nat, Failure>(
                error@,
            ),
        },
{
    match name2number_u32(text, charset) {
        Ok(folded) => Ok(unsigned2signed_32(folded)),
        Err(error) => Err(error),
    }
}

/// Convert a string encoded using the given charset back to the signed
/// number it represents, as an `i64`.
pub fn name2number_i64(text: &str, charset: &Charset) -> (number: Result<i64, N2NErr>)
    ensures
        match number {
            Ok(value) => decode_spec(text@, charset@, u64::MAX as nat) matches Ok(folded)
                && value == unfold(folded as int),
            Err(error) => decode_spec(text@, charset@, u64::MAX as nat) == Err::<nat, Failure>(
                error@,
            ),
        },
{
    match name2number_u64(text, charset) {
        Ok(folded) => Ok(unsigned2signed_64(folded)),
        Err(error) => Err(error),
    }
}

/// Convert a string encoded using the given charset back to the signed
/// number it represents, as an `i128`.
pub fn name2number_i128(text: &str, charset: &Charset) -> (number: Result<i128, N2NErr>)
    ensures
        match number {
            Ok(value) => decode_spec(text@, charset@, u128::MAX as nat) matches Ok(folded)
                && value == unfold(folded as int),
            Err(error) => decode_spec(text@, charset@, u128::MAX as nat) == Err::<nat, Failure>(
                error@,
            ),
        },
{
    match name2number_u128(text, charset) {
        Ok(folded) => Ok(unsigned2signed_128(folded)),
        Err(error) => Err(error),
    }
}

/// Convert a string encoded using the given charset back to the number it
/// represents.
pub fn name2number(text: &str, charset: &Charset) -> (number: Result<u64, N2NErr>)
    ensures
        match number {
            Ok(value) => decode_spec(text@, charset@, u64::MAX as nat) == Ok::<nat, Failure>(
                value as nat,
            ),
            Err(error) => decode_spec(text@, charset@, u64::MAX as nat) == Err::<nat, Failure>(
                error@,
            ),
        },
{
    name2number_u64(text, charset)
}

} // verus!
