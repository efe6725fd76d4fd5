//! Character sets: the alphabets that numbers are written in.

use crate::decode::{
    decode_spec, name2number, name2number_i128, name2number_i16, name2number_i32,
    name2number_i64, name2number_u128, name2number_u16, name2number_u32, name2number_u64,
};
use crate::encode::{
    encode_spec, number2name_i128, number2name_i16, number2name_i32, number2name_i64,
    number2name_u128, number2name_u16, number2name_u32, number2name_u64,
};
use crate::signs::{fold, unfold};
use crate::typ::{Failure, N2NErr};
use crate::util::{chars_of, lowercase, push_char, try_lower};
use std::collections::HashMap;
use vstd::prelude::*;
use vstd::string::StringExecFns;

verus! {

/// Whether upper and lower case count as the same symbol.
#[derive(Debug, Clone, Copy, PartialEq, Eq, Structural)]
pub enum Case {
    Sensitive,
    Insensitive,
}

/// What a character set is, mathematically: its symbols in order, and how it
/// treats case.
pub struct Alphabet {
    pub symbols: Seq<char>,
    pub case: Case,
}

impl Alphabet {
    /// The form under which a character is compared: itself if case matters, its
    /// lowercase if not. A character without a single-character lowercase has no
    /// such form in a case-insensitive alphabet.
    pub open spec fn canonical(self, character: char) -> Option<char> {
        match self.case {
            Case::Sensitive => Some(character),
            Case::Insensitive => lowercase(character),
        }
    }

    /// An alphabet is usable if it has at least one symbol, every symbol has a
    /// canonical form, and no two symbols share one.
    pub open spec fn valid(self) -> bool {
        &&& self.symbols.len() >= 1
        &&& forall|i: int|
            0 <= i < self.symbols.len() ==> self.canonical(#[trigger] self.symbols[i]) is Some
        &&& forall|i: int, j: int|
            #![trigger self.symbols[i], self.symbols[j]]
            0 <= i < j < self.symbols.len() ==> self.canonical(self.symbols[i])
                != self.canonical(self.symbols[j])
    }

    /// Whether `character` is, up to case where case is ignored, the symbol at
    /// `position`.
    pub open spec fn matches_at(self, character: char, position: int) -> bool {
        &&& 0 <= position < self.symbols.len()
        &&& self.canonical(character) is Some
        &&& self.canonical(self.symbols[position]) == self.canonical(character)
    }

    /// The position of the symbol that `character` matches, if there is one.
    pub open spec fn position_of(self, character: char) -> Option<nat> {
        if exists|position: int| self.matches_at(character, position) {
            Some((choose|position: int| self.matches_at(character, position)) as nat)
        } else {
            None
        }
    }

    /// In a valid alphabet a character matches at most one symbol, so a match
    /// at `position` settles `position_of`.
    pub proof fn lemma_position_unique(self, character: char, position: int)
        requires
            self.valid(),
            self.matches_at(character, position),
        ensures
            self.position_of(character) == Some(position as nat),
    {
        let chosen = choose|p: int| self.matches_at(character, p);
        assert(self.matches_at(character, chosen));
        if chosen < position {
            assert(self.canonical(self.symbols[chosen]) != self.canonical(self.symbols[position]));
        } else if position < chosen {
            assert(self.canonical(self.symbols[position]) != self.canonical(self.symbols[chosen]));
        }
    }

    /// Every symbol of a valid alphabet is found at its own position.
    pub proof fn lemma_position_of_symbol(self, position: int)
        requires
            self.valid(),
            0 <= position < self.symbols.len(),
        ensures
            self.position_of(self.symbols[position]) == Some(position as nat),
    {
        assert(self.canonical(self.symbols[position]) is Some);
        self.lemma_position_unique(self.symbols[position], position);
    }

    /// What `position_of` finds lies inside the alphabet and matches.
    pub proof fn lemma_position_in_range(self, character: char)
        requires
            self.position_of(character) is Some,
        ensures
            self.matches_at(character, self.position_of(character)->0 as int),
    {
    }
}

/// The text that describes an alphabet in diagnostics.
pub open spec fn describe_spec(alphabet: Alphabet) -> Seq<char> {
    "("@ + match alphabet.case {
        Case::Sensitive => "case-sensitive"@,
        Case::Insensitive => "case-insensitive"@,
    } + " character set: ["@ + alphabet.symbols + "])"@
}

/// The key under which a canonical form is stored in the lookup table.
spec fn key_of(canonical: Option<char>) -> u32 {
    match canonical {
        Some(character) => character as u32,
        None => 0,
    }
}

/// Different characters have different keys.
proof fn lemma_key_of_injective(a: char, b: char)
    requires
        a as u32 == b as u32,
    ensures
        a == b,
{
}

/// A character set of unique characters in a specific order.
/// If case-insensitive, characters must have a single-character lower-case
/// version (can be the same as upper-case).
#[derive(Debug)]
pub struct Charset {
    values: Vec<char>,
    lookup: HashMap<u32, u64>,
    case: Case,
}

impl View for Charset {
    type V = Alphabet;

    closed spec fn view(&self) -> Alphabet {
        Alphabet { symbols: self.values@, case: self.case }
    }
}

/// Whether `lookup` maps the canonical form of each of the first `count`
/// symbols to its position, and holds nothing else.
spec fn lookup_matches(
    lookup: Map<u32, u64>,
    alphabet: Alphabet,
    count: int,
) -> bool {
    &&& forall|i: int|
        0 <= i < count ==> {
            let key = key_of(alphabet.canonical(#[trigger] alphabet.symbols[i]));
            lookup.contains_key(key) && lookup[key] == i
        }
    &&& forall|key: u32| #[trigger]
        lookup.contains_key(key) ==> 0 <= lookup[key] < count && key_of(
            alphabet.canonical(alphabet.symbols[lookup[key] as int]),
        ) == key
}

impl Charset {
    /// What holds of every character set: its alphabet is valid, and its
    /// lookup table agrees with its symbols.
    #[verifier::type_invariant]
    pub closed spec fn wf(&self) -> bool {
        &&& self@.valid()
        &&& lookup_matches(self.lookup@, self@, self.values@.len() as int)
    }

    /// The alphabet of a well-formed character set is valid.
    pub proof fn lemma_valid(&self)
        requires
            self.wf(),
        ensures
            self@.valid(),
    {
    }

    /// Empty if the input contains duplicates, holds a character without a
    /// canonical form, or is empty.
    pub fn try_new(data: &str, case: Case) -> (charset: Option<Charset>)
        ensures
            match charset {
                Some(built) => built@ == (Alphabet { symbols: data@, case }) && built@.valid(),
                None => !(Alphabet { symbols: data@, case }).valid(),
            },
    {
        broadcast use vstd::std_specs::hash::group_hash_axioms;

        let ghost alphabet = Alphabet { symbols: data@, case };
        let values = chars_of(data);
        if values.len() == 0 {
            return None;
        }
        let mut lookup: HashMap<u32, u64> = HashMap::new();
        let mut index: usize = 0;
        while index < values.len()
            invariant
                values@ == data@,
                alphabet == (Alphabet { symbols: data@, case }),
                0 <= index <= values.len(),
                lookup_matches(lookup@, alphabet, index as int),
                forall|i: int| 0 <= i < index ==> alphabet.canonical(#[trigger] data@[i]) is Some,
            decreases values.len() - index,
        {
            let character = values[index];
            let unique_repr = match case {
                Case::Sensitive => character,
                Case::Insensitive => match try_lower(character) {
                    Some(lowered) => lowered,
                    None => {
                        assert(alphabet.canonical(alphabet.symbols[index as int]) is None);
                        return None;
                    },
                },
            };
            assert(alphabet.canonical(character) == Some(unique_repr));
            let key: u32 = unique_repr as u32;
            if lookup.contains_key(&key) {
                proof {
                    let earlier = lookup@[key] as int;
                    assert(key_of(alphabet.canonical(alphabet.symbols[earlier])) == key);
                    assert(alphabet.canonical(alphabet.symbols[earlier]) is Some);
                    lemma_key_of_injective(
                        alphabet.canonical(alphabet.symbols[earlier])->0,
                        unique_repr,
                    );
                    assert(alphabet.canonical(alphabet.symbols[earlier]) == alphabet.canonical(
                        alphabet.symbols[index as int],
                    ));
                }
                return None;
            }
            lookup.insert(key, index as u64);
            index += 1;
        }
        proof {
            assert forall|i: int, j: int| 0 <= i < j < data@.len() implies alphabet.canonical(
                data@[i],
            ) != alphabet.canonical(data@[j]) by {
                let ki = key_of(alphabet.canonical(alphabet.symbols[i]));
                let kj = key_of(alphabet.canonical(alphabet.symbols[j]));
                assert(lookup@[ki] == i && lookup@[kj] == j);
            }
        }
        Some(Charset { values, lookup, case })
    }

    /// A character set over `data`. The input must make a valid alphabet:
    /// `try_new` is for input that may not.
    pub fn new(data: &str, case: Case) -> (charset: Charset)
        requires
            (Alphabet { symbols: data@, case }).valid(),
        ensures
            charset@ == (Alphabet { symbols: data@, case }),
    {
        match Charset::try_new(data, case) {
            Some(charset) => charset,
            None => vstd::pervasive::unreached(),
        }
    }

    /// A character set over `data` in which upper and lower case differ.
    pub fn case_sensitive(data: &str) -> (charset: Charset)
        requires
            (Alphabet { symbols: data@, case: Case::Sensitive }).valid(),
        ensures
            charset@ == (Alphabet { symbols: data@, case: Case::Sensitive }),
    {
        Charset::new(data, Case::Sensitive)
    }

    /// A character set over `data` in which a letter is read alike in either
    /// case.
    pub fn case_insensitive(data: &str) -> (charset: Charset)
        requires
            (Alphabet { symbols: data@, case: Case::Insensitive }).valid(),
        ensures
            charset@ == (Alphabet { symbols: data@, case: Case::Insensitive }),
    {
        Charset::new(data, Case::Insensitive)
    }

    /// Number of characters: the base of the numeral system.
    pub fn len(&self) -> (count: usize)
        ensures
            count == self@.symbols.len(),
            count >= 1,
    {
        proof {
            use_type_invariant(self);
        }
        self.values.len()
    }

    /// Find the numerical position of a character.
    pub fn index_of(&self, character: char) -> (position: Option<u64>)
        ensures
            match position {
                Some(found) => self@.position_of(character) == Some(found as nat),
                None => self@.position_of(character) is None,
            },
    {
        broadcast use vstd::std_specs::hash::group_hash_axioms;

        proof {
            use_type_invariant(self);
        }
        let representation = match self.case {
            Case::Sensitive => character,
            Case::Insensitive => match try_lower(character) {
                Some(lowered) => lowered,
                None => {
                    return None;
                },
            },
        };
        assert(self@.canonical(character) == Some(representation));
        let key: u32 = representation as u32;
        match self.lookup.get(&key) {
            Some(found) => {
                proof {
                    let at = *found as int;
                    assert(self@.canonical(self@.symbols[at]) is Some);
                    lemma_key_of_injective(self@.canonical(self@.symbols[at])->0, representation);
                    self@.lemma_position_unique(character, at);
                }
                Some(*found)
            },
            None => {
                proof {
                    if self@.position_of(character) is Some {
                        let at = self@.position_of(character)->0 as int;
                        assert(self@.matches_at(character, at));
                        assert(key_of(self@.canonical(self@.symbols[at])) == key);
                    }
                }
                None
            },
        }
    }

    /// The character at a position, which must lie below `len()`.
    pub fn symbol_at(&self, position: usize) -> (symbol: char)
        requires
            position < self@.symbols.len(),
        ensures
            symbol == self@.symbols[position as int],
    {
        self.values[position]
    }

    /// A description for diagnostics: how case is treated, and the characters.
    pub fn describe(&self) -> (text: String)
        ensures
            text@ == describe_spec(self@),
    {
        let mut text = String::from_str("(");
        match self.case {
            Case::Sensitive => text.append("case-sensitive"),
            Case::Insensitive => text.append("case-insensitive"),
        }
        text.append(" character set: [");
        let symbols = self.render();
        text.append(symbols.as_str());
        text.append("])");
        text
    }

    /// The characters in order, as one string.
    pub fn render(&self) -> (text: String)
        ensures
            text@ == self@.symbols,
    {
        let mut text = String::new();
        let mut position: usize = 0;
        while position < self.values.len()
            invariant
                0 <= position <= self.values@.len(),
                text@ == self.values@.take(position as int),
            decreases self.values@.len() - position,
        {
            push_char(&mut text, self.values[position]);
            proof {
                assert(text@ =~= self.values@.take(position + 1));
            }
            position += 1;
        }
        proof {
            assert(text@ =~= self.values@);
        }
        text
    }
}

impl Clone for Charset {
    fn clone(&self) -> (copy: Self)
        ensures
            copy@ == self@,
    {
        proof {
            use_type_invariant(self);
        }
        let values = self.values.clone();
        let lookup = self.lookup.clone();
        proof {
            assert(values@ =~= self.values@);
        }
        Charset { values, lookup, case: self.case }
    }
}

impl vstd::std_specs::core::IndexSpecImpl<usize> for Charset {
    open spec fn index_req(&self, index: &usize) -> bool {
        *index < self@.symbols.len()
    }
}

impl std::ops::Index<usize> for Charset {
    type Output = char;

    fn index(&self, index: usize) -> (symbol: &char)
        ensures
            *symbol == self@.symbols[index as int],
    {
        &self.values[index]
    }
}

/// Encoding and decoding as methods: each is the function of the same width
/// with this character set.
impl Charset {
    /// The name of a number.
    pub fn encode(&self, number: u64) -> (name: String)
        ensures
            name@ == encode_spec(number as nat, self@.symbols),
    {
        number2name_u64(number, self)
    }

    /// The name of a `u16`.
    pub fn encode_u16(&self, number: u16) -> (name: String)
        ensures
            name@ == encode_spec(number as nat, self@.symbols),
    {
        number2name_u16(number, self)
    }

    /// The name of a `u32`.
    pub fn encode_u32(&self, number: u32) -> (name: String)
        ensures
            name@ == encode_spec(number as nat, self@.symbols),
    {
        number2name_u32(number, self)
    }

    /// The name of a `u64`.
    pub fn encode_u64(&self, number: u64) -> (name: String)
        ensures
            name@ == encode_spec(number as nat, self@.symbols),
    {
        number2name_u64(number, self)
    }

    /// The name of a `u128`.
    pub fn encode_u128(&self, number: u128) -> (name: String)
        ensures
            name@ == encode_spec(number as nat, self@.symbols),
    {
        number2name_u128(number, self)
    }

    /// The name of an `i16`.
    pub fn encode_i16(&self, number: i16) -> (name: String)
        ensures
            name@ == encode_spec(fold(number as int) as nat, self@.symbols),
    {
        number2name_i16(number, self)
    }

    /// The name of an `i32`.
    pub fn encode_i32(&self, number: i32) -> (name: String)
        ensures
            name@ == encode_spec(fold(number as int) as nat, self@.symbols),
    {
        number2name_i32(number, self)
    }

    /// The name of an `i64`.
    pub fn encode_i64(&self, number: i64) -> (name: String)
        ensures
            name@ == encode_spec(fold(number as int) as nat, self@.symbols),
    {
        number2name_i64(number, self)
    }

    /// The name of an `i128`.
    pub fn encode_i128(&self, number: i128) -> (name: String)
        ensures
            name@ == encode_spec(fold(number as int) as nat, self@.symbols),
    {
        number2name_i128(number, self)
    }

    /// The number that a name stands for.
    pub fn decode(&self, text: &str) -> (number: Result<u64, N2NErr>)
        ensures
            match number {
                Ok(value) => decode_spec(text@, self@, u64::MAX as nat) == Ok::<nat, Failure>(
                    value as nat,
                ),
                Err(error) => decode_spec(text@, self@, u64::MAX as nat) == Err::<nat, Failure>(
                    error@,
                ),
            },
    {
        name2number(text, self)
    }

    /// The `u16` that a name stands for.
    pub fn decode_u16(&self, text: &str) -> (number: Result<u16, N2NErr>)
        ensures
            match number {
                Ok(value) => decode_spec(text@, self@, u16::MAX as nat) == Ok::<nat, Failure>(
                    value as nat,
                ),
                Err(error) => decode_spec(text@, self@, u16::MAX as nat) == Err::<nat, Failure>(
                    error@,
                ),
            },
    {
        name2number_u16(text, self)
    }

    /// The `u32` that a name stands for.
    pub fn decode_u32(&self, text: &str) -> (number: Result<u32, N2NErr>)
        ensures
            match number {
                Ok(value) => decode_spec(text@, self@, u32::MAX as nat) == Ok::<nat, Failure>(
                    value as nat,
                ),
                Err(error) => decode_spec(text@, self@, u32::MAX as nat) == Err::<nat, Failure>(
                    error@,
                ),
            },
    {
        name2number_u32(text, self)
    }

    /// The `u64` that a name stands for.
    pub fn decode_u64(&self, text: &str) -> (number: Result<u64, N2NErr>)
        ensures
            match number {
                Ok(value) => decode_spec(text@, self@, u64::MAX as nat) == Ok::<nat, Failure>(
                    value as nat,
                ),
                Err(error) => decode_spec(text@, self@, u64::MAX as nat) == Err::<nat, Failure>(
                    error@,
                ),
            },
    {
        name2number_u64(text, self)
    }

    /// The `u128` that a name stands for.
    pub fn decode_u128(&self, text: &str) -> (number: Result<u128, N2NErr>)
        ensures
            match number {
                Ok(value) => decode_spec(text@, self@, u128::MAX as nat) == Ok::<nat, Failure>(
                    value as nat,
                ),
                Err(error) => decode_spec(text@, self@, u128::MAX as nat) == Err::<nat, Failure>(
                    error@,
                ),
            },
    {
        name2number_u128(text, self)
    }

    /// The `i16` that a name stands for.
    pub fn decode_i16(&self, text: &str) -> (number: Result<i16, N2NErr>)
        ensures
            match number {
                Ok(value) => decode_spec(text@, self@, u16::MAX as nat) matches Ok(folded)
                    && value == unfold(folded as int),
                Err(error) => decode_spec(text@, self@, u16::MAX as nat) == Err::<nat, Failure>(
                    error@,
                ),
            },
    {
        name2number_i16(text, self)
    }

    /// The `i32` that a name stands for.
    pub fn decode_i32(&self, text: &str) -> (number: Result<i32, N2NErr>)
        ensures
            match number {
                Ok(value) => decode_spec(text@, self@, u32::MAX as nat) matches Ok(folded)
                    && value == unfold(folded as int),
                Err(error) => decode_spec(text@, self@, u32::MAX as nat) == Err::<nat, Failure>(
                    error@,
                ),
            },
    {
        name2number_i32(text, self)
    }

    /// The `i64` that a name stands for.
    pub fn decode_i64(&self, text: &str) -> (number: Result<i64, N2NErr>)
        ensures
            match number {
                Ok(value) => decode_spec(text@, self@, u64::MAX as nat) matches Ok(folded)
                    && value == unfold(folded as int),
                Err(error) => decode_spec(text@, self@, u64::MAX as nat) == Err::<nat, Failure>(
                    error@,
                ),
            },
    {
        name2number_i64(text, self)
    }

    /// The `i128` that a name stands for.
    pub fn decode_i128(&self, text: &str) -> (number: Result<i128, N2NErr>)
        ensures
            match number {
                Ok(value) => decode_spec(text@, self@, u128::MAX as nat) matches Ok(folded)
                    && value == unfold(folded as int),
                Err(error) => decode_spec(text@, self@, u128::MAX as nat) == Err::<nat, Failure>(
                    error@,
                ),
            },
    {
        name2number_i128(text, self)
    }
}

} // verus!
