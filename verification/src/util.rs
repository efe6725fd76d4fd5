//! Helpers on characters and strings: lower-casing of single symbols, and the
//! few operations of `std` on text that the library goes through.

use vstd::prelude::*;

verus! {

/// What `char::to_lowercase` yields for `character`: its lowercase mapping, one
/// or more code points long.
pub uninterp spec fn unicode_lowercase(character: char) -> Seq<char>;

/// Whether `character` lies in the ASCII range.
pub open spec fn is_ascii_char(character: char) -> bool {
    character as u32 <= 0x7f
}

/// The lowercase of an ASCII character: `'A'..='Z'` move to `'a'..='z'`, the
/// rest stay.
pub open spec fn ascii_lowercase(character: char) -> char {
    if 'A' <= character && character <= 'Z' {
        ((character as u32) + 32) as char
    } else {
        character
    }
}

/// The lowercase form of `character`, if it is a single code point.
///
/// ASCII is lower-cased directly; everything else goes by the Unicode mapping,
/// which for a few characters is longer than one code point: those have no
/// lowercase form here.
pub open spec fn lowercase(character: char) -> Option<char> {
    if is_ascii_char(character) {
        Some(ascii_lowercase(character))
    } else if unicode_lowercase(character).len() == 1 {
        Some(unicode_lowercase(character)[0])
    } else {
        None
    }
}

/// Calls `char::to_lowercase` and collects what it yields. Trusted: the result
/// is, by definition, `unicode_lowercase(character)`.
#[verifier::external_body]
fn to_lowercase_chars(character: char) -> (mapped: Vec<char>)
    ensures
        mapped@ == unicode_lowercase(character),
{
    character.to_lowercase().collect()
}

/// The only code point of a lowercase mapping, if it has exactly one.
pub fn single_char(mapped: &Vec<char>) -> (only: Option<char>)
    ensures
        only == if mapped@.len() == 1 {
            Some(mapped@[0])
        } else {
            None::<char>
        },
{
    if mapped.len() == 1 {
        Some(mapped[0])
    } else {
        None
    }
}

/// Lower-case an ASCII character.
pub fn lower_ascii(character: char) -> (lc: char)
    requires
        is_ascii_char(character),
    ensures
        lc == ascii_lowercase(character),
{
    if 'A' <= character && character <= 'Z' {
        ((character as u8) + 32) as char
    } else {
        character
    }
}

/// Return the lowercase representation of a character, or `None` if that
/// representation is not a single character.
pub fn try_lower(character: char) -> (lc: Option<char>)
    ensures
        lc == lowercase(character),
{
    if character <= '\x7f' {
        Some(lower(character))
    } else {
        let mapped = to_lowercase_chars(character);
        single_char(&mapped)
    }
}

/// Return the lowercase representation of a character.
///
/// The character must have a lowercase representation that is a single
/// character; `try_lower` tells.
pub fn lower(character: char) -> (lc: char)
    requires
        lowercase(character) is Some,
    ensures
        Some(lc) == lowercase(character),
{
    if character <= '\x7f' {
        lower_ascii(character)
    } else {
        let mapped = to_lowercase_chars(character);
        mapped[0]
    }
}

/// The characters of a string, in order.
pub fn chars_of(text: &str) -> (chars: Vec<char>)
    ensures
        chars@ == text@,
{
    let mut chars: Vec<char> = Vec::new();
    for character in it: text.chars()
        invariant
            it.seq() == text@,
            chars@ == it.seq().take(it.index() as int),
    {
        chars.push(character);
    }
    chars
}

/// Appends one character to a string, by `String::push`. Trusted: the string
/// afterwards is the string before with `character` at its end.
#[verifier::external_body]
pub(crate) fn push_char(text: &mut String, character: char)
    ensures
        final(text)@ == old(text)@.push(character),
{
    text.push(character);
}

/// What `str::to_uppercase` returns for a text.
pub uninterp spec fn unicode_uppercase(text: Seq<char>) -> Seq<char>;

/// Calls `str::to_uppercase`. Trusted: the result is, by definition,
/// `unicode_uppercase` of the text.
#[verifier::external_body]
pub(crate) fn to_uppercase(text: &str) -> (upper: String)
    ensures
        upper@ == unicode_uppercase(text@),
{
    text.to_uppercase()
}

} // verus!
