//! How encoding and decoding relate: each undoes the other, so names and
//! numbers correspond one to one.

use crate::charset::{Alphabet, Case};
use crate::decode::{
    decode_spec, digit_of, ends_readable, lemma_readable_len, number_of_text, positions,
    readable_len, readable_tail,
};
use crate::encode::encode_spec;
use crate::numeral::{
    digits_below, digits_of, lemma_digits_of_number_of, lemma_digits_of_well_formed,
    lemma_number_of_digits_of, lemma_weight_positive, number_of, weight,
};
use crate::typ::Failure;
use vstd::prelude::*;

verus! {

/// The spelling of `text` in the alphabet's own symbols: each character
/// replaced by the symbol that it matches.
pub open spec fn spelled(text: Seq<char>, alphabet: Alphabet) -> Seq<char> {
    text.map_values(|character: char| alphabet.symbols[digit_of(alphabet, character) as int])
}

/// Whether all of a non-empty text can be read.
pub open spec fn readable(text: Seq<char>, alphabet: Alphabet) -> bool {
    text.len() >= 1 && ends_readable(text, alphabet, text.len())
}

/// A text that can be read all through is its own readable tail.
pub proof fn lemma_readable_whole(text: Seq<char>, alphabet: Alphabet)
    requires
        readable(text, alphabet),
    ensures
        readable_len(text, alphabet) == text.len(),
        readable_tail(text, alphabet) == text,
{
    lemma_readable_len(text, alphabet, text.len());
    assert(readable_tail(text, alphabet) =~= text);
}

/// A text decodes to a number only if all of it can be read.
pub proof fn lemma_decoded_is_readable(text: Seq<char>, alphabet: Alphabet, limit: nat)
    requires
        decode_spec(text, alphabet, limit) is Ok,
    ensures
        readable(text, alphabet),
        decode_spec(text, alphabet, limit) == Ok::<nat, Failure>(
            number_of_text(text, alphabet) as nat,
        ),
        1 <= weight(positions(text, alphabet), alphabet.symbols.len()),
        number_of_text(text, alphabet) <= limit,
{
    lemma_readable_len(text, alphabet, 0);
    lemma_readable_whole(text, alphabet);
    lemma_weight_positive(positions(text, alphabet), alphabet.symbols.len());
}

/// The name of a number can be read all through, and its characters stand for
/// the digits of the number.
pub proof fn lemma_name_is_readable(number: nat, alphabet: Alphabet)
    requires
        alphabet.valid(),
    ensures
        readable(encode_spec(number, alphabet.symbols), alphabet),
        positions(encode_spec(number, alphabet.symbols), alphabet) == digits_of(
            number,
            alphabet.symbols.len(),
        ),
        number_of_text(encode_spec(number, alphabet.symbols), alphabet) == number,
{
    let base = alphabet.symbols.len();
    let digits = digits_of(number, base);
    let name = encode_spec(number, alphabet.symbols);
    lemma_digits_of_well_formed(number, base);
    assert forall|i: int| 0 <= i < name.len() implies alphabet.position_of(#[trigger] name[i])
        == Some(digits[i]) by {
        assert(digits[i] < base);
        alphabet.lemma_position_of_symbol(digits[i] as int);
    }
    assert(positions(name, alphabet) =~= digits);
    lemma_number_of_digits_of(number, base);
    lemma_weight_positive(digits, base);
}

/// Decoding the name of a number gives the number back, wherever the number
/// fits.
pub proof fn lemma_decode_encode(number: nat, alphabet: Alphabet, limit: nat)
    requires
        alphabet.valid(),
        number <= limit,
    ensures
        decode_spec(encode_spec(number, alphabet.symbols), alphabet, limit) == Ok::<nat, Failure>(
            number,
        ),
{
    lemma_name_is_readable(number, alphabet);
    lemma_readable_whole(encode_spec(number, alphabet.symbols), alphabet);
}

/// Different numbers have different names.
pub proof fn lemma_encode_injective(first: nat, second: nat, alphabet: Alphabet)
    requires
        alphabet.valid(),
        first != second,
    ensures
        encode_spec(first, alphabet.symbols) != encode_spec(second, alphabet.symbols),
{
    lemma_name_is_readable(first, alphabet);
    lemma_name_is_readable(second, alphabet);
}

/// Encoding what a text decodes to gives the text back, spelled in the
/// alphabet's own symbols; where case matters, that is the text itself. So no
/// two texts stand for one number unless they differ in case alone, and a
/// text with more characters never stands for the number of a shorter one.
pub proof fn lemma_encode_decode(text: Seq<char>, alphabet: Alphabet, limit: nat)
    requires
        alphabet.valid(),
        decode_spec(text, alphabet, limit) is Ok,
    ensures
        encode_spec(decode_spec(text, alphabet, limit)->Ok_0, alphabet.symbols) == spelled(
            text,
            alphabet,
        ),
        alphabet.case == Case::Sensitive ==> spelled(text, alphabet) == text,
{
    let base = alphabet.symbols.len();
    let digits = positions(text, alphabet);
    lemma_decoded_is_readable(text, alphabet, limit);
    assert forall|i: int| 0 <= i < digits.len() implies #[trigger] digits[i] < base by {
        assert(alphabet.position_of(text[i]) is Some);
        alphabet.lemma_position_in_range(text[i]);
    }
    assert(digits_below(digits, base));
    lemma_digits_of_number_of(digits, base);
    assert(number_of(digits, base) == decode_spec(text, alphabet, limit)->Ok_0);
    assert(encode_spec(number_of(digits, base), alphabet.symbols) =~= spelled(text, alphabet));
    if alphabet.case == Case::Sensitive {
        assert forall|i: int| 0 <= i < text.len() implies spelled(text, alphabet)[i]
            == text[i] by {
            assert(alphabet.position_of(text[i]) is Some);
            alphabet.lemma_position_in_range(text[i]);
        }
        assert(spelled(text, alphabet) =~= text);
    }
}

/// Two texts that decode to the same number are spelled the same.
pub proof fn lemma_decode_injective(
    first: Seq<char>,
    second: Seq<char>,
    alphabet: Alphabet,
    limit: nat,
)
    requires
        alphabet.valid(),
        decode_spec(first, alphabet, limit) is Ok,
        decode_spec(first, alphabet, limit) == decode_spec(second, alphabet, limit),
    ensures
        first.len() == second.len(),
        spelled(first, alphabet) == spelled(second, alphabet),
        alphabet.case == Case::Sensitive ==> first == second,
{
    lemma_encode_decode(first, alphabet, limit);
    lemma_encode_decode(second, alphabet, limit);
    assert(spelled(first, alphabet).len() == first.len());
    assert(spelled(second, alphabet).len() == second.len());
}

/// Characters that differ in case alone decode alike: two texts whose
/// characters have the same canonical forms, place by place, decode to the
/// same number if either decodes at all.
pub proof fn lemma_decode_ignores_case(
    first: Seq<char>,
    second: Seq<char>,
    alphabet: Alphabet,
    limit: nat,
)
    requires
        alphabet.valid(),
        first.len() == second.len(),
        forall|i: int|
            0 <= i < first.len() ==> alphabet.canonical(#[trigger] first[i]) == alphabet.canonical(
                second[i],
            ),
        decode_spec(first, alphabet, limit) is Ok,
    ensures
        decode_spec(second, alphabet, limit) == decode_spec(first, alphabet, limit),
{
    lemma_decoded_is_readable(first, alphabet, limit);
    assert forall|i: int| 0 <= i < first.len() implies alphabet.position_of(first[i])
        == alphabet.position_of(#[trigger] second[i]) by {
        assert(alphabet.canonical(first[i]) == alphabet.canonical(second[i]));
        alphabet.lemma_position_in_range(first[i]);
        let position = alphabet.position_of(first[i])->0 as int;
        assert(alphabet.matches_at(second[i], position));
        alphabet.lemma_position_unique(second[i], position);
    }
    assert(readable(second, alphabet)) by {
        assert forall|i: int| 0 <= i < second.len() implies alphabet.position_of(
        #[trigger] second[i]) is Some by {
            assert(alphabet.position_of(first[i]) is Some);
        }
    }
    lemma_readable_whole(second, alphabet);
    assert(positions(first, alphabet) =~= positions(second, alphabet));
}

/// A text that can be read all through decodes to its number if that is
/// within the limit, and is refused as too large if not.
pub proof fn lemma_decode_readable(text: Seq<char>, alphabet: Alphabet, limit: nat)
    requires
        readable(text, alphabet),
    ensures
        number_of_text(text, alphabet) >= 0,
        decode_spec(text, alphabet, limit) == if number_of_text(text, alphabet) <= limit {
            Ok::<nat, Failure>(number_of_text(text, alphabet) as nat)
        } else {
            Err::<nat, Failure>(Failure::TooLarge { alphabet })
        },
{
    lemma_readable_whole(text, alphabet);
    lemma_weight_positive(positions(text, alphabet), alphabet.symbols.len());
}

/// The name of a number above the limit is refused as too large; the name of
/// the limit itself is the last that decodes.
pub proof fn lemma_decode_too_large(number: nat, alphabet: Alphabet, limit: nat)
    requires
        alphabet.valid(),
        number > limit,
    ensures
        decode_spec(encode_spec(number, alphabet.symbols), alphabet, limit) == Err::<
            nat,
            Failure,
        >(Failure::TooLarge { alphabet }),
        decode_spec(encode_spec(limit, alphabet.symbols), alphabet, limit) == Ok::<nat, Failure>(
            limit,
        ),
{
    lemma_name_is_readable(number, alphabet);
    lemma_readable_whole(encode_spec(number, alphabet.symbols), alphabet);
    lemma_decode_encode(limit, alphabet, limit);
}

/// A character outside the alphabet is reported by name, wherever it stands,
/// provided that what follows it can be read and fits the limit.
pub proof fn lemma_decode_invalid_character(
    text: Seq<char>,
    alphabet: Alphabet,
    limit: nat,
    at: int,
)
    requires
        0 <= at < text.len(),
        alphabet.position_of(text[at]) is None,
        ends_readable(text, alphabet, (text.len() - at - 1) as nat),
        at + 1 < text.len() ==> number_of_text(text.subrange(at + 1, text.len() as int), alphabet)
            <= limit,
    ensures
        decode_spec(text, alphabet, limit) == Err::<nat, Failure>(
            Failure::InvalidCharacter { character: text[at], alphabet },
        ),
{
    lemma_readable_len(text, alphabet, (text.len() - at - 1) as nat);
    assert(readable_tail(text, alphabet) =~= text.subrange(at + 1, text.len() as int));
}

/// Nothing decodes from the empty text.
pub proof fn lemma_decode_empty(alphabet: Alphabet, limit: nat)
    ensures
        decode_spec(Seq::<char>::empty(), alphabet, limit) == Err::<nat, Failure>(
            Failure::EmptyInput,
        ),
{
}

} // verus!
