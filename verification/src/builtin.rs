//! The character sets that come with the library, and how a character set is
//! found from what a user wrote: a built-in name or a literal alphabet.

use crate::charset::{Alphabet, Case, Charset};
use crate::util::{to_uppercase, unicode_uppercase};
use vstd::prelude::*;
use vstd::string::{StrSliceExecFns, StringExecFns};

verus! {

/// The symbols of [`hex`], in order.
pub const HEX_SYMBOLS: &'static str = "0123456789abcdef";

/// The symbols of [`hexlowercase`], in order.
pub const HEXLOWERCASE_SYMBOLS: &'static str = "0123456789abcdef";

/// The symbols of [`base32`], in order.
pub const BASE32_SYMBOLS: &'static str = "ABCDEFGHIJKLMNOPQRSTUVWXYZ234567";

/// The symbols of [`base32lowercase`], in order.
pub const BASE32LOWERCASE_SYMBOLS: &'static str = "ABCDEFGHIJKLMNOPQRSTUVWXYZ234567";

/// The symbols of [`base32human`], in order.
pub const BASE32HUMAN_SYMBOLS: &'static str = "abcdefghjkmnpqrstuvwxyz23456789_";

/// The symbols of [`base32crockford`], in order.
pub const BASE32CROCKFORD_SYMBOLS: &'static str = "0123456789ABCDEFGHJKMNPQRSTVWXYZ";

/// The symbols of [`base32scny`], in order.
pub const BASE32SCNY_SYMBOLS: &'static str = "一二三四五六七八九十鼠牛虎兔龍蛇马羊猴鸡狗猪凤北东南西中左右上下";

/// The symbols of [`base32hex`], in order.
pub const BASE32HEX_SYMBOLS: &'static str = "0123456789ABCDEFGHIJKLMNOPQRSTUV";

/// The symbols of [`base64`], in order.
pub const BASE64_SYMBOLS: &'static str = "ABCDEFGHIJKLMNOPQRSTUVWXYZabcdefghijklmnopqrstuvwxyz0123456789+/";

/// The symbols of [`base64url`], in order.
pub const BASE64URL_SYMBOLS: &'static str = "ABCDEFGHIJKLMNOPQRSTUVWXYZabcdefghijklmnopqrstuvwxyz0123456789-_";

/// The hexadecimal digits; upper and lower case letters are read alike.
pub fn hex() -> (charset: Charset)
    ensures
        charset@ == (Alphabet { symbols: HEX_SYMBOLS@, case: Case::Insensitive }),
{
    proof {
        reveal_strlit("0123456789abcdef");
    }
    Charset::case_insensitive(HEX_SYMBOLS)
}

/// The hexadecimal digits, lower case letters only.
pub fn hexlowercase() -> (charset: Charset)
    ensures
        charset@ == (Alphabet { symbols: HEXLOWERCASE_SYMBOLS@, case: Case::Sensitive }),
{
    proof {
        reveal_strlit("0123456789abcdef");
    }
    Charset::case_sensitive(HEXLOWERCASE_SYMBOLS)
}

/// The base-32 alphabet of letters and the digits 2 to 7, in either case.
pub fn base32() -> (charset: Charset)
    ensures
        charset@ == (Alphabet { symbols: BASE32_SYMBOLS@, case: Case::Insensitive }),
{
    proof {
        reveal_strlit("ABCDEFGHIJKLMNOPQRSTUVWXYZ234567");
    }
    Charset::case_insensitive(BASE32_SYMBOLS)
}

/// The base-32 alphabet of letters and the digits 2 to 7, in the case given.
pub fn base32lowercase() -> (charset: Charset)
    ensures
        charset@ == (Alphabet { symbols: BASE32LOWERCASE_SYMBOLS@, case: Case::Sensitive }),
{
    proof {
        reveal_strlit("ABCDEFGHIJKLMNOPQRSTUVWXYZ234567");
    }
    Charset::case_sensitive(BASE32LOWERCASE_SYMBOLS)
}

/// A base-32 alphabet without the characters that are easily mistaken for one another.
pub fn base32human() -> (charset: Charset)
    ensures
        charset@ == (Alphabet { symbols: BASE32HUMAN_SYMBOLS@, case: Case::Insensitive }),
{
    proof {
        reveal_strlit("abcdefghjkmnpqrstuvwxyz23456789_");
    }
    Charset::case_insensitive(BASE32HUMAN_SYMBOLS)
}

/// Crockford's base-32 alphabet. Unlike Crockford's own scheme, this does not
/// read e.g. `L` as `1` when decoding.
pub fn base32crockford() -> (charset: Charset)
    ensures
        charset@ == (Alphabet { symbols: BASE32CROCKFORD_SYMBOLS@, case: Case::Insensitive }),
{
    proof {
        reveal_strlit("0123456789ABCDEFGHJKMNPQRSTVWXYZ");
    }
    Charset::case_insensitive(BASE32CROCKFORD_SYMBOLS)
}

/// A base-32 alphabet of numerals, zodiac animals and directions.
pub fn base32scny() -> (charset: Charset)
    ensures
        charset@ == (Alphabet { symbols: BASE32SCNY_SYMBOLS@, case: Case::Sensitive }),
{
    proof {
        reveal_strlit("一二三四五六七八九十鼠牛虎兔龍蛇马羊猴鸡狗猪凤北东南西中左右上下");
    }
    Charset::case_sensitive(BASE32SCNY_SYMBOLS)
}

/// The base-32 alphabet that extends the hexadecimal digits.
pub fn base32hex() -> (charset: Charset)
    ensures
        charset@ == (Alphabet { symbols: BASE32HEX_SYMBOLS@, case: Case::Insensitive }),
{
    proof {
        reveal_strlit("0123456789ABCDEFGHIJKLMNOPQRSTUV");
    }
    Charset::case_insensitive(BASE32HEX_SYMBOLS)
}

/// The base-64 alphabet.
pub fn base64() -> (charset: Charset)
    ensures
        charset@ == (Alphabet { symbols: BASE64_SYMBOLS@, case: Case::Sensitive }),
{
    proof {
        reveal_strlit("ABCDEFGHIJKLMNOPQRSTUVWXYZabcdefghijklmnopqrstuvwxyz0123456789+/");
    }
    Charset::case_sensitive(BASE64_SYMBOLS)
}

/// The base-64 alphabet that is safe in URLs and file names.
pub fn base64url() -> (charset: Charset)
    ensures
        charset@ == (Alphabet { symbols: BASE64URL_SYMBOLS@, case: Case::Sensitive }),
{
    proof {
        reveal_strlit("ABCDEFGHIJKLMNOPQRSTUVWXYZabcdefghijklmnopqrstuvwxyz0123456789-_");
    }
    Charset::case_sensitive(BASE64URL_SYMBOLS)
}

/// The alphabet of the built-in character set of that name, written in
/// upper case.
pub open spec fn builtin_alphabet(name: Seq<char>) -> Option<Alphabet> {
    if name == "HEX"@ {
        Some(Alphabet { symbols: HEX_SYMBOLS@, case: Case::Insensitive })
    } else if name == "HEXLOWERCASE"@ {
        Some(Alphabet { symbols: HEXLOWERCASE_SYMBOLS@, case: Case::Sensitive })
    } else if name == "BASE32"@ {
        Some(Alphabet { symbols: BASE32_SYMBOLS@, case: Case::Insensitive })
    } else if name == "BASE32LOWERCASE"@ {
        Some(Alphabet { symbols: BASE32LOWERCASE_SYMBOLS@, case: Case::Sensitive })
    } else if name == "BASE32HUMAN"@ {
        Some(Alphabet { symbols: BASE32HUMAN_SYMBOLS@, case: Case::Insensitive })
    } else if name == "BASE32CROCKFORD"@ {
        Some(Alphabet { symbols: BASE32CROCKFORD_SYMBOLS@, case: Case::Insensitive })
    } else if name == "BASE32SCNY"@ {
        Some(Alphabet { symbols: BASE32SCNY_SYMBOLS@, case: Case::Sensitive })
    } else if name == "BASE32HEX"@ {
        Some(Alphabet { symbols: BASE32HEX_SYMBOLS@, case: Case::Insensitive })
    } else if name == "BASE64"@ {
        Some(Alphabet { symbols: BASE64_SYMBOLS@, case: Case::Sensitive })
    } else if name == "BASE64URL"@ {
        Some(Alphabet { symbols: BASE64URL_SYMBOLS@, case: Case::Sensitive })
    } else {
        None
    }
}

/// The built-in character set of that name, written in upper case.
pub fn builtin_by_name(name: &str) -> (charset: Option<Charset>)
    ensures
        match charset {
            Some(found) => builtin_alphabet(name@) == Some(found@),
            None => builtin_alphabet(name@) is None,
        },
{
    let name = String::from_str(name);
    if name == String::from_str("HEX") {
        Some(hex())
    } else if name == String::from_str("HEXLOWERCASE") {
        Some(hexlowercase())
    } else if name == String::from_str("BASE32") {
        Some(base32())
    } else if name == String::from_str("BASE32LOWERCASE") {
        Some(base32lowercase())
    } else if name == String::from_str("BASE32HUMAN") {
        Some(base32human())
    } else if name == String::from_str("BASE32CROCKFORD") {
        Some(base32crockford())
    } else if name == String::from_str("BASE32SCNY") {
        Some(base32scny())
    } else if name == String::from_str("BASE32HEX") {
        Some(base32hex())
    } else if name == String::from_str("BASE64") {
        Some(base64())
    } else if name == String::from_str("BASE64URL") {
        Some(base64url())
    } else {
        None
    }
}

/// Whether a character opens a quoted alphabet.
pub open spec fn is_quote(character: char) -> bool {
    character == '\'' || character == '"'
}

/// The alphabet that an identifier spells out when it names no built-in
/// character set: what stands between the quotes if it starts with one, else
/// all of it. A lone quote spells nothing.
pub open spec fn literal_of(identifier: Seq<char>) -> Option<Seq<char>> {
    if identifier.len() > 0 && is_quote(identifier[0]) {
        if identifier.len() >= 2 {
            Some(identifier.subrange(1, identifier.len() - 1))
        } else {
            None
        }
    } else {
        Some(identifier)
    }
}

/// What an identifier stands for, given the upper case form of it: a
/// built-in character set if it names one, else its literal as a
/// case-sensitive alphabet, or why that cannot be.
pub open spec fn resolve_spec(upper: Seq<char>, identifier: Seq<char>) -> Result<
    Alphabet,
    Seq<char>,
> {
    match builtin_alphabet(upper) {
        Some(alphabet) => Ok(alphabet),
        None => match literal_of(identifier) {
            None => Err("charset starts with a quote that is never closed"@),
            Some(symbols) => {
                let alphabet = Alphabet { symbols, case: Case::Sensitive };
                if alphabet.valid() {
                    Ok(alphabet)
                } else {
                    Err("failed to initialize charset due to duplicate data"@)
                }
            },
        },
    }
}

/// Whether an identifier is taken as a literal alphabet although it is not
/// quoted; `upper` is its upper case form. Such an identifier works, but
/// quoting it keeps it from ever being read as the name of a character set.
pub fn is_unquoted_literal(upper: &str, identifier: &str) -> (unquoted: bool)
    ensures
        unquoted == (builtin_alphabet(upper@) is None && !(identifier@.len() > 0 && is_quote(
            identifier@[0],
        ))),
{
    if builtin_by_name(upper).is_some() {
        return false;
    }
    if identifier.unicode_len() == 0 {
        return true;
    }
    let first = identifier.get_char(0);
    !(first == '\'' || first == '"')
}

/// Whether an identifier is taken as a literal alphabet although it is not
/// quoted, so that its user had better be told to quote it.
pub fn warrants_quotes(identifier: &str) -> (unquoted: bool)
    ensures
        unquoted == (builtin_alphabet(unicode_uppercase(identifier@)) is None && !(
        identifier@.len() > 0 && is_quote(identifier@[0]))),
{
    let upper = to_uppercase(identifier);
    is_unquoted_literal(upper.as_str(), identifier)
}

/// The character set that an identifier stands for; `upper` is its upper case
/// form.
pub fn resolve(upper: &str, identifier: &str) -> (charset: Result<Charset, String>)
    ensures
        match charset {
            Ok(found) => resolve_spec(upper@, identifier@) == Ok::<Alphabet, Seq<char>>(found@),
            Err(reason) => resolve_spec(upper@, identifier@) == Err::<Alphabet, Seq<char>>(
                reason@,
            ),
        },
{
    if let Some(found) = builtin_by_name(upper) {
        return Ok(found);
    }
    let length: usize = identifier.unicode_len();
    let mut literal = identifier;
    if length > 0 {
        let first = identifier.get_char(0);
        if first == '\'' || first == '"' {
            if length < 2 {
                return Err(String::from_str("charset starts with a quote that is never closed"));
            }
            literal = identifier.substring_char(1, length - 1);
        }
    }
    match Charset::try_new(literal, Case::Sensitive) {
        Some(found) => Ok(found),
        None => Err(String::from_str("failed to initialize charset due to duplicate data")),
    }
}

/// The character set that an identifier stands for: a built-in one if the
/// identifier is its name, in any case; else the characters of the identifier
/// itself, without the quotes around them if there are any.
pub fn charset_by_identifier(identifier: &str) -> (charset: Result<Charset, String>)
    ensures
        match charset {
            Ok(found) => resolve_spec(unicode_uppercase(identifier@), identifier@) == Ok::<
                Alphabet,
                Seq<char>,
            >(found@),
            Err(reason) => resolve_spec(unicode_uppercase(identifier@), identifier@) == Err::<
                Alphabet,
                Seq<char>,
            >(reason@),
        },
{
    let upper = to_uppercase(identifier);
    resolve(upper.as_str(), identifier)
}

} // verus!
