//! The ways in which decoding fails.

use crate::charset::{Alphabet, Charset};
use crate::encode::encode_spec;
use crate::util::push_char;
use vstd::prelude::*;
use vstd::string::StringExecFns;

verus! {

/// Why a name could not be decoded. The character set that was used comes
/// along, for the message.
#[derive(Debug)]
pub enum N2NErr {
    /// The text to decode had no characters.
    EmptyInput,
    /// The number does not fit in the integer type that was asked for.
    TooLarge { charset: Charset },
    /// A character of the text is not part of the character set.
    InvalidCharacter { character: char, charset: Charset },
}

/// What a decoding failure is, mathematically.
pub enum Failure {
    EmptyInput,
    TooLarge { alphabet: Alphabet },
    InvalidCharacter { character: char, alphabet: Alphabet },
}

impl View for N2NErr {
    type V = Failure;

    open spec fn view(&self) -> Failure {
        match self {
            N2NErr::EmptyInput => Failure::EmptyInput,
            N2NErr::TooLarge { charset } => Failure::TooLarge { alphabet: charset@ },
            N2NErr::InvalidCharacter { character, charset } => Failure::InvalidCharacter {
                character: *character,
                alphabet: charset@,
            },
        }
    }
}

impl Clone for N2NErr {
    fn clone(&self) -> (copy: Self)
        ensures
            copy@ == self@,
    {
        match self {
            N2NErr::EmptyInput => N2NErr::EmptyInput,
            N2NErr::TooLarge { charset } => N2NErr::TooLarge { charset: charset.clone() },
            N2NErr::InvalidCharacter { character, charset } => N2NErr::InvalidCharacter {
                character: *character,
                charset: charset.clone(),
            },
        }
    }
}

/// The text that describes a failure.
pub open spec fn message_spec(failure: Failure) -> Seq<char> {
    match failure {
        Failure::EmptyInput => "input was empty while decoding"@,
        Failure::TooLarge { alphabet } => "input was too long to decode number; maximum: "@
            + encode_spec(u64::MAX as nat, alphabet.symbols),
        Failure::InvalidCharacter { character, alphabet } => "encountered invalid character '"@
            + seq![character] + "' while decoding to number; allowed: '"@ + alphabet.symbols
            + "'"@,
    }
}

impl N2NErr {
    /// A description of the failure for people to read.
    pub fn message(&self) -> (text: String)
        ensures
            text@ == message_spec(self@),
    {
        match self {
            N2NErr::EmptyInput => String::from_str("input was empty while decoding"),
            N2NErr::TooLarge { charset } => {
                let mut text = String::from_str("input was too long to decode number; maximum: ");
                let largest = charset.encode(u64::MAX);
                text.append(largest.as_str());
                text
            },
            N2NErr::InvalidCharacter { character, charset } => {
                let mut text = String::from_str("encountered invalid character '");
                push_char(&mut text, *character);
                text.append("' while decoding to number; allowed: '");
                let allowed = charset.render();
                text.append(allowed.as_str());
                text.append("'");
                text
            },
        }
    }
}

impl vstd::std_specs::convert::FromSpecImpl<N2NErr> for String {
    open spec fn obeys_from_spec() -> bool {
        false
    }

    open spec fn from_spec(error: N2NErr) -> String {
        arbitrary()
    }
}

impl From<N2NErr> for String {
    fn from(error: N2NErr) -> (text: String)
        ensures
            text@ == message_spec(error@),
    {
        error.message()
    }
}

} // verus!
