//! Numbers to names.

use crate::charset::Charset;
use crate::numeral::{digits_of, lemma_quotient};
use crate::signs::{
    fold, signed2unsigned_128, signed2unsigned_16, signed2unsigned_32, signed2unsigned_64,
};
use crate::util::push_char;
use vstd::prelude::*;

verus! {

/// The name of `number` over `symbols`: its bijective base-N digits, each
/// written as the symbol at that position.
pub open spec fn encode_spec(number: nat, symbols: Seq<char>) -> Seq<char> {
    digits_of(number, symbols.len()).map_values(|digit: nat| symbols[digit as int])
}

/// Digits that were collected least significant first, read most significant
/// first.
spec fn most_significant_first(collected: Seq<usize>) -> Seq<nat> {
    Seq::new(collected.len(), |i: int| collected[collected.len() - 1 - i] as nat)
}

/// Convert a `u128` to a short string representation using the given
/// character set.
pub fn number2name_u128(number: u128, charset: &Charset) -> (name: String)
    ensures
        name@ == encode_spec(number as nat, charset@.symbols),
{
    let size: u128 = charset.len() as u128;
    let ghost base = size as nat;
    let mut remainder: u128 = number;
    let mut collected: Vec<usize> = Vec::new();
    loop
        invariant_except_break
            digits_of(number as nat, base) == digits_of(remainder as nat, base)
                + most_significant_first(collected@),
        invariant
            base == size,
            size == charset@.symbols.len(),
            1 <= size <= usize::MAX,
            forall|i: int| 0 <= i < collected@.len() ==> #[trigger] collected@[i] < size,
        ensures
            digits_of(number as nat, base) == most_significant_first(collected@),
        decreases remainder,
    {
        let ghost before = remainder as nat;
        let ghost earlier = collected@;
        let index: u128 = remainder % size;
        assert(index < size && index == before % base) by (nonlinear_arith)
            requires
                index == remainder % size,
                before == remainder,
                base == size,
                size >= 1,
        ;
        collected.push(index as usize);
        remainder = remainder / size;
        proof {
            assert(most_significant_first(collected@) =~= seq![index as nat]
                + most_significant_first(earlier));
            if before >= base {
                lemma_quotient(before, base);
            } else {
                assert(before / base == 0) by (nonlinear_arith)
                    requires
                        0 <= before < base,
                ;
                assert(digits_of(before, base) =~= seq![index as nat]) by {
                    assert(before % base == before) by (nonlinear_arith)
                        requires
                            0 <= before < base,
                    ;
                }
            }
        }
        if remainder == 0 {
            proof {
                assert(digits_of(number as nat, base) =~= most_significant_first(collected@));
            }
            break ;
        }
        remainder -= 1;
        proof {
            assert(before >= base) by {
                if before < base {
                    assert(before / base == 0) by (nonlinear_arith)
                        requires
                            0 <= before < base,
                    ;
                }
            }
            assert(digits_of(before, base) == digits_of(remainder as nat, base).push(
                index as nat,
            ));
            assert(digits_of(number as nat, base) =~= digits_of(remainder as nat, base)
                + most_significant_first(collected@));
        }
    }
    let mut name = String::new();
    let mut left: usize = collected.len();
    while left > 0
        invariant
            0 <= left <= collected@.len(),
            size == charset@.symbols.len(),
            forall|i: int| 0 <= i < collected@.len() ==> #[trigger] collected@[i] < size,
            name@ == Seq::new(
                (collected@.len() - left) as nat,
                |i: int| charset@.symbols[collected@[collected@.len() - 1 - i] as int],
            ),
        decreases left,
    {
        left -= 1;
        let ghost earlier = name@;
        let digit: usize = collected[left];
        assert(digit < charset@.symbols.len());
        push_char(&mut name, charset[digit]);
        proof {
            assert(name@ =~= Seq::new(
                (collected@.len() - left) as nat,
                |i: int| charset@.symbols[collected@[collected@.len() - 1 - i] as int],
            ));
        }
    }
    proof {
        assert(name@ =~= encode_spec(number as nat, charset@.symbols));
    }
    name
}

/// Convert a `u16` to a short string representation using the given
/// character set.
pub fn number2name_u16(number: u16, charset: &Charset) -> (name: String)
    ensures
        name@ == encode_spec(number as nat, charset@.symbols),
{
    number2name_u128(number as u128, charset)
}

/// Convert a `u32` to a short string representation using the given
/// character set.
pub fn number2name_u32(number: u32, charset: &Charset) -> (name: String)
    ensures
        name@ == encode_spec(number as nat, charset@.symbols),
{
    number2name_u128(number as u128, charset)
}

/// Convert a `u64` to a short string representation using the given
/// character set.
pub fn number2name_u64(number: u64, charset: &Charset) -> (name: String)
    ensures
        name@ == encode_spec(number as nat, charset@.symbols),
{
    number2name_u128(number as u128, charset)
}

/// Convert an `i16` to a short string representation using the given
/// character set: the name of the unsigned number that it folds to.
pub fn number2name_i16(number: i16, charset: &Charset) -> (name: String)
    ensures
        name@ == encode_spec(fold(number as int) as nat, charset@.symbols),
{
    number2name_u16(signed2unsigned_16(number), charset)
}

/// Convert an `i32` to a short string representation using the given
/// character set: the name of the unsigned number that it folds to.
pub fn number2name_i32(number: i32, charset: &Charset) -> (name: String)
    ensures
        name@ == encode_spec(fold(number as int) as nat, charset@.symbols),
{
    number2name_u32(signed2unsigned_32(number), charset)
}

/// Convert an `i64` to a short string representation using the given
/// character set: the name of the unsigned number that it folds to.
pub fn number2name_i64(number: i64, charset: &Charset) -> (name: String)
    ensures
        name@ == encode_spec(fold(number as int) as nat, charset@.symbols),
{
    number2name_u64(signed2unsigned_64(number), charset)
}

/// Convert an `i128` to a short string representation using the given
/// character set: the name of the unsigned number that it folds to.
pub fn number2name_i128(number: i128, charset: &Charset) -> (name: String)
    ensures
        name@ == encode_spec(fold(number as int) as nat, charset@.symbols),
{
    number2name_u128(signed2unsigned_128(number), charset)
}

/// Convert a number to a short string representation using the given
/// character set.
pub fn number2name(number: u64, charset: &Charset) -> (name: String)
    ensures
        name@ == encode_spec(number as nat, charset@.symbols),
{
    number2name_u64(number, charset)
}

} // verus!
