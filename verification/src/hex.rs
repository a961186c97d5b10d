//! Hexadecimal text.

use rustc_hex::{FromHex, FromHexError, ToHex};
use vstd::prelude::*;

verus! {

/// The lower-case digit of a number below sixteen.
pub open spec fn hex_digit(n: u8) -> char {
    if n < 10 {
        (n + 48) as char
    } else {
        (n + 87) as char
    }
}

/// The value of a digit of either case.
pub open spec fn hex_value(c: char) -> Option<u8> {
    if '0' <= c <= '9' {
        Some((c as u8 - 48) as u8)
    } else if 'a' <= c <= 'f' {
        Some((c as u8 - 87) as u8)
    } else if 'A' <= c <= 'F' {
        Some((c as u8 - 55) as u8)
    } else {
        None
    }
}

/// The character separates digits and counts for nothing.
pub open spec fn is_blank(c: char) -> bool {
    c == ' ' || c == '\r' || c == '\n' || c == '\t'
}

/// The bytes as text, two lower-case digits each.
pub open spec fn hex_of(bytes: Seq<u8>) -> Seq<char> {
    Seq::new(
        2 * bytes.len(),
        |i: int|
            if i % 2 == 0 {
                hex_digit(bytes[i / 2] / 16)
            } else {
                hex_digit(bytes[i / 2] % 16)
            },
    )
}

/// The digits of a text, without the blanks between them.
pub open spec fn digits_of(text: Seq<char>) -> Seq<char> {
    text.filter(|c: char| !is_blank(c))
}

/// The `i`-th character is the first that is neither a digit nor a blank.
pub open spec fn first_bad_at(text: Seq<char>, i: int) -> bool {
    &&& 0 <= i < text.len()
    &&& hex_value(text[i]) is None && !is_blank(text[i])
    &&& forall|j: int| 0 <= j < i ==> hex_value(#[trigger] text[j]) is Some || is_blank(text[j])
}

/// The text consists of digits and blanks.
pub open spec fn is_hex_text(text: Seq<char>) -> bool {
    forall|j: int|
        0 <= j < text.len() ==> hex_value(#[trigger] text[j]) is Some || is_blank(text[j])
}

/// The bytes that pairs of digits stand for.
pub open spec fn bytes_of_digits(digits: Seq<char>) -> Seq<u8> {
    Seq::new(
        digits.len() / 2,
        |i: int| (16 * hex_value(digits[2 * i])->0 + hex_value(digits[2 * i + 1])->0) as u8,
    )
}

/// The bytes that a text stands for, if it stands for any.
pub open spec fn decoded(text: Seq<char>) -> Option<Seq<u8>> {
    if is_hex_text(text) && digits_of(text).len() % 2 == 0 {
        Some(bytes_of_digits(digits_of(text)))
    } else {
        None
    }
}

/// Why a text stands for no bytes.
#[derive(Clone, Copy, Debug, PartialEq, Eq, Structural)]
pub enum HexError {
    /// A character that is no digit, and where it stands.
    InvalidHexCharacter(char, usize),
    /// The last digit has no partner.
    InvalidHexLength,
}

/// A text stands for no bytes, for the reason given.
pub open spec fn is_refused(text: Seq<char>, e: HexError) -> bool {
    match e {
        HexError::InvalidHexCharacter(c, i) => first_bad_at(text, i as int) && c == text[i as int],
        HexError::InvalidHexLength => is_hex_text(text) && digits_of(text).len() % 2 == 1,
    }
}

/// The bytes as hexadecimal text, by `rustc_hex::ToHex::to_hex`: two lower-case digits for each
/// byte, the upper half first.
#[verifier::external_body]
pub(crate) fn to_hex(bytes: &[u8]) -> (r: String)
    ensures
        r@ == hex_of(bytes@),
{
    bytes.to_hex::<String>()
}

/// The bytes of a hexadecimal text, by `rustc_hex::FromHex::from_hex`: digits of either case, two
/// for each byte, with blanks anywhere between them. The first character that is neither is
/// reported with its position; else an odd number of digits is.
#[verifier::external_body]
pub(crate) fn from_hex(text: &str) -> (r: Result<Vec<u8>, HexError>)
    ensures
        match r {
            Ok(bytes) => decoded(text@) == Some(bytes@),
            Err(e) => is_refused(text@, e),
        },
{
    match text.from_hex::<Vec<u8>>() {
        Ok(bytes) => Ok(bytes),
        Err(FromHexError::InvalidHexCharacter(c, i)) => Err(HexError::InvalidHexCharacter(c, i)),
        Err(FromHexError::InvalidHexLength) => Err(HexError::InvalidHexLength),
    }
}

proof fn digit_round_trip(n: u8)
    requires
        n < 16,
    ensures
        hex_value(hex_digit(n)) == Some(n),
        !is_blank(hex_digit(n)),
{
}

/// Reading back what was written gives the bytes that were written.
pub proof fn hex_round_trip(bytes: Seq<u8>)
    ensures
        decoded(hex_of(bytes)) == Some(bytes),
{
    let text = hex_of(bytes);
    assert forall|j: int| 0 <= j < text.len() implies hex_value(#[trigger] text[j]) is Some
        && !is_blank(text[j]) by {
        digit_round_trip((bytes[j / 2] / 16) as u8);
        digit_round_trip((bytes[j / 2] % 16) as u8);
    }
    nothing_blank(text);
    assert(digits_of(text) == text);
    assert(bytes_of_digits(text) =~= bytes) by {
        assert forall|i: int| 0 <= i < bytes.len() implies bytes_of_digits(text)[i] == bytes[i] by {
            assert(text[2 * i] == hex_digit(bytes[i] / 16));
            assert(text[2 * i + 1] == hex_digit(bytes[i] % 16)) by {
                assert((2 * i + 1) % 2 == 1);
                assert((2 * i + 1) / 2 == i);
            }
            digit_round_trip((bytes[i] / 16) as u8);
            digit_round_trip((bytes[i] % 16) as u8);
        }
    }
}

proof fn nothing_blank(text: Seq<char>)
    requires
        forall|j: int| 0 <= j < text.len() ==> !is_blank(#[trigger] text[j]),
    ensures
        digits_of(text) == text,
    decreases text.len(),
{
    reveal(Seq::filter);
    if text.len() > 0 {
        let head = text.drop_last();
        assert forall|j: int| 0 <= j < head.len() implies !is_blank(#[trigger] head[j]) by {
            assert(head[j] == text[j]);
        }
        nothing_blank(head);
        assert(text =~= head.push(text.last()));
    } else {
        assert(digits_of(text) =~= text);
    }
}

} // verus!
