//! The symbol mapper: a bijection between 6-bit indices (0 to 63) and the
//! 64 characters of the base64 alphabet.

use vstd::prelude::*;

use crate::DecodeError;
use crate::EncodeError;

verus! {

/// The base64 character for a 6-bit index: 0-25 map to `A`-`Z`, 26-51 to
/// `a`-`z`, 52-61 to `0`-`9`, 62 to `+` and 63 to `/`.
pub open spec fn index_to_char_spec(index: u8) -> u8
    recommends
        index < 64,
{
    if index < 26 {
        (index + 65) as u8  // 'A'..='Z'
    } else if index < 52 {
        (index + 71) as u8  // 'a'..='z'
    } else if index < 62 {
        (index - 4) as u8  // '0'..='9'
    } else if index == 62 {
        43u8  // '+'
    } else {
        47u8  // '/'
    }
}

/// Whether a byte is one of the 64 characters of the base64 alphabet.
pub open spec fn is_base64_char(c: u8) -> bool {
    (65 <= c <= 90)  // 'A'..='Z'
     || (97 <= c <= 122)  // 'a'..='z'
     || (48 <= c <= 57)  // '0'..='9'
     || c == 43  // '+'
     || c == 47  // '/'
}

/// The 6-bit index of a base64 character: the exact inverse of
/// `index_to_char_spec` on the alphabet.
pub open spec fn char_to_index_spec(c: u8) -> u8
    recommends
        is_base64_char(c),
{
    if 65 <= c <= 90 {
        (c - 65) as u8  // 'A'..='Z' -> 0..=25
    } else if 97 <= c <= 122 {
        (c - 71) as u8  // 'a'..='z' -> 26..=51
    } else if 48 <= c <= 57 {
        (c + 4) as u8  // '0'..='9' -> 52..=61
    } else if c == 43 {
        62u8  // '+'
    } else {
        63u8  // '/'
    }
}

/// Maps a 6-bit index to its base64 character; any index of 64 or more is
/// rejected as `InvalidIndex`.
pub fn index_to_char(index: u8) -> (r: Result<u8, EncodeError>)
    ensures
        index < 64 ==> r == Ok::<u8, EncodeError>(index_to_char_spec(index)),
        index >= 64 ==> r == Err::<u8, EncodeError>(EncodeError::InvalidIndex),
{
    if index < 26 {
        Ok(index + 65)  // 'A'..='Z'
    } else if index < 52 {
        Ok(index + 71)  // 'a'..='z'
    } else if index < 62 {
        Ok(index - 4)  // '0'..='9'
    } else if index == 62 {
        Ok(43)  // '+'
    } else if index == 63 {
        Ok(47)  // '/'
    } else {
        Err(EncodeError::InvalidIndex)
    }
}

/// Maps a base64 character to its 6-bit index; any byte outside the alphabet
/// is rejected as `InvalidCharacter`.
pub fn char_to_index(c: u8) -> (r: Result<u8, DecodeError>)
    ensures
        is_base64_char(c) ==> r == Ok::<u8, DecodeError>(char_to_index_spec(c)),
        !is_base64_char(c) ==> r == Err::<u8, DecodeError>(DecodeError::InvalidCharacter),
{
    if 65 <= c && c <= 90 {
        Ok(c - 65)  // 'A'..='Z'
    } else if 97 <= c && c <= 122 {
        Ok(c - 71)  // 'a'..='z'
    } else if 48 <= c && c <= 57 {
        Ok(c + 4)  // '0'..='9'
    } else if c == 43 {
        Ok(62)  // '+'
    } else if c == 47 {
        Ok(63)  // '/'
    } else {
        Err(DecodeError::InvalidCharacter)
    }
}

/// The mapping is a bijection, one direction: every 6-bit index maps to an
/// alphabet character, and mapping that character back returns the index.
pub proof fn lemma_index_char_round_trip(index: u8)
    requires
        index < 64,
    ensures
        is_base64_char(index_to_char_spec(index)),
        char_to_index_spec(index_to_char_spec(index)) == index,
{
}

/// The mapping is a bijection, other direction: every alphabet character maps
/// to a 6-bit index, and mapping that index back returns the character.
pub proof fn lemma_char_index_round_trip(c: u8)
    requires
        is_base64_char(c),
    ensures
        char_to_index_spec(c) < 64,
        index_to_char_spec(char_to_index_spec(c)) == c,
{
}

} // verus!
