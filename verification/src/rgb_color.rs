//! Colours by red, green and blue, and their hexadecimal notation.

use vstd::prelude::*;
use vstd::std_specs::convert::FromSpecImpl;
use vstd::string::StringSliceAdditionalSpecFns;

verus! {

/// RGB representation of a color.
#[derive(Clone, Copy, PartialEq, Eq, Structural, Hash, Debug)]
pub struct RgbColor {
    /// Red channel (0..=255)
    pub r: u8,
    /// Green channel (0..=255)
    pub g: u8,
    /// Blue channel (0..=255)
    pub b: u8,
}

/// Possible errors when parsing an [`RgbColor`] from hex `&str`
#[derive(Clone, Copy, PartialEq, Eq, Structural, Debug)]
pub enum ParseError {
    /// Only `RRGGBB` or `RGB` variants are accepted, with optional "`#`" prefix.
    /// Reporting invalid length value
    InvalidLength(usize),
    /// Only hexadecimal digits can be used, any case.
    /// Reporting invalid character (first one)
    InvalidDigit(u8),
}

/// Whether the byte is one of `0-9`, `a-f`, `A-F`.
pub open spec fn is_hex_digit(digit: u8) -> bool {
    ||| 0x30 <= digit <= 0x39
    ||| 0x61 <= digit <= 0x66
    ||| 0x41 <= digit <= 0x46
}

/// The number, 0 to 15, that a hexadecimal digit stands for.
pub open spec fn hex_digit_value(digit: u8) -> int {
    if 0x30 <= digit <= 0x39 {
        digit - 0x30
    } else if 0x61 <= digit <= 0x66 {
        10 + digit - 0x61
    } else {
        10 + digit - 0x41
    }
}

/// The bytes that follow the optional leading `#`.
pub open spec fn hex_body(text: Seq<u8>) -> Seq<u8> {
    if text.len() > 0 && text[0] == 0x23 {
        text.skip(1)
    } else {
        text
    }
}

/// The six digits that the short form `RGB` abbreviates: each digit twice.
pub open spec fn doubled_digits(body: Seq<u8>) -> Seq<u8> {
    seq![body[0], body[0], body[1], body[1], body[2], body[2]]
}

/// What one byte reads as: the value of the hexadecimal digit, or the byte
/// reported as no digit.
pub open spec fn digit_reading(digit: u8) -> Result<u8, ParseError> {
    if is_hex_digit(digit) {
        Ok(hex_digit_value(digit) as u8)
    } else {
        Err(ParseError::InvalidDigit(digit))
    }
}

/// The first of the bytes from place `from` up to the sixth that is no
/// hexadecimal digit, if there is one.
pub open spec fn first_bad_digit(digits: Seq<u8>, from: int) -> Option<u8>
    decreases 6 - from,
{
    if from >= 6 {
        None
    } else if !is_hex_digit(digits[from]) {
        Some(digits[from])
    } else {
        first_bad_digit(digits, from + 1)
    }
}

/// The color that six hexadecimal digits `RRGGBB` denote.
pub open spec fn color_of_digits(digits: Seq<u8>) -> RgbColor {
    RgbColor {
        r: (16 * hex_digit_value(digits[0]) + hex_digit_value(digits[1])) as u8,
        g: (16 * hex_digit_value(digits[2]) + hex_digit_value(digits[3])) as u8,
        b: (16 * hex_digit_value(digits[4]) + hex_digit_value(digits[5])) as u8,
    }
}

/// What the first six bytes of `digits` read as: the color `RRGGBB`, or the
/// first byte among them that is no hexadecimal digit.
pub open spec fn six_digit_reading(digits: Seq<u8>) -> Result<RgbColor, ParseError> {
    match first_bad_digit(digits, 0) {
        Some(byte) => Err(ParseError::InvalidDigit(byte)),
        None => Ok(color_of_digits(digits)),
    }
}

/// What the hex notation `text` reads as: with the optional `#` taken off,
/// three digits (each standing for itself twice) or six; any other length,
/// the empty one too, is reported as it was found.
pub open spec fn hex_reading(text: Seq<u8>) -> Result<RgbColor, ParseError> {
    let body = hex_body(text);
    if body.len() == 3 {
        six_digit_reading(doubled_digits(body))
    } else if body.len() == 6 {
        six_digit_reading(body)
    } else {
        Err(ParseError::InvalidLength(body.len() as usize))
    }
}

/// A reading fails on a digit exactly when one of the six bytes is no
/// hexadecimal digit, and then reports the first such byte.
pub proof fn lemma_six_digit_reading(digits: Seq<u8>)
    requires
        digits.len() >= 6,
    ensures
        six_digit_reading(digits) is Ok <==> forall|j: int|
            0 <= j < 6 ==> is_hex_digit(#[trigger] digits[j]),
        six_digit_reading(digits) matches Err(error) ==> exists|i: int|
            0 <= i < 6 && !is_hex_digit(#[trigger] digits[i]) && error == ParseError::InvalidDigit(
                digits[i],
            ) && forall|j: int| 0 <= j < i ==> is_hex_digit(#[trigger] digits[j]),
{
    reveal_with_fuel(first_bad_digit, 7);
    if !is_hex_digit(digits[0]) {
        assert(!is_hex_digit(digits[0]));
    } else if !is_hex_digit(digits[1]) {
        assert(!is_hex_digit(digits[1]));
    } else if !is_hex_digit(digits[2]) {
        assert(!is_hex_digit(digits[2]));
    } else if !is_hex_digit(digits[3]) {
        assert(!is_hex_digit(digits[3]));
    } else if !is_hex_digit(digits[4]) {
        assert(!is_hex_digit(digits[4]));
    } else if !is_hex_digit(digits[5]) {
        assert(!is_hex_digit(digits[5]));
    }
}

impl RgbColor {
    /// The color of the three channel values.
    pub fn new(r: u8, g: u8, b: u8) -> (color: Self)
        ensures
            color == (RgbColor { r, g, b }),
    {
        RgbColor { r, g, b }
    }

    /// Create RGB color from hex `str`:
    /// - "`#`" prefix is optional
    /// - both `RGB` and `RRGGBB` format is accepted
    pub fn from_str(hex: &str) -> (result: Result<RgbColor, ParseError>)
        ensures
            result == hex_reading(hex.spec_bytes()),
    {
        Self::try_parse_hex_auto(hex)
    }

    /// Reads `hex` as `RGB` or `RRGGBB`, with or without a leading `#`.
    pub fn try_parse_hex_auto(hex: &str) -> (result: Result<RgbColor, ParseError>)
        ensures
            result == hex_reading(hex.spec_bytes()),
    {
        let text = hex.as_bytes();
        if text.len() == 0 {
            return Err(ParseError::InvalidLength(0));
        }
        let start: usize = if text[0] == 0x23 { 1 } else { 0 };
        let len: usize = text.len() - start;
        let ghost body = hex_body(text@);
        assert(body.len() == len);
        assert(forall|j: int| 0 <= j < len ==> body[j] == text@[start + j]);
        if len == 3 {
            let short: [u8; 6] = [
                text[start],
                text[start],
                text[start + 1],
                text[start + 1],
                text[start + 2],
                text[start + 2],
            ];
            assert(short@ =~= doubled_digits(body));
            assert(hex_reading(text@) == six_digit_reading(short@));
            Self::parse_hex_6_digits(short.as_slice())
        } else if len == 6 {
            let long: [u8; 6] = [
                text[start],
                text[start + 1],
                text[start + 2],
                text[start + 3],
                text[start + 4],
                text[start + 5],
            ];
            assert(long@ =~= body);
            Self::parse_hex_6_digits(long.as_slice())
        } else {
            Err(ParseError::InvalidLength(len))
        }
    }

    /// Reads the first six bytes of `hexb` as the digits `RRGGBB`.
    pub fn parse_hex_6_digits(hexb: &[u8]) -> (result: Result<RgbColor, ParseError>)
        requires
            hexb@.len() >= 6,
        ensures
            result == six_digit_reading(hexb@),
    {
        let mut values: [u8; 6] = [0, 0, 0, 0, 0, 0];
        let mut i: usize = 0;
        while i < 6
            invariant
                i <= 6,
                hexb@.len() >= 6,
                first_bad_digit(hexb@, 0) == first_bad_digit(hexb@, i as int),
                forall|j: int| 0 <= j < i ==> is_hex_digit(#[trigger] hexb@[j]),
                forall|j: int| 0 <= j < i ==> values@[j] == hex_digit_value(#[trigger] hexb@[j]),
            decreases 6 - i,
        {
            match Self::parse_hex_digit(hexb[i]) {
                Ok(value) => {
                    values[i] = value;
                },
                Err(error) => {
                    return Err(error);
                },
            }
            i += 1;
        }
        assert(is_hex_digit(hexb@[0]) && is_hex_digit(hexb@[1]) && is_hex_digit(hexb@[2]));
        assert(is_hex_digit(hexb@[3]) && is_hex_digit(hexb@[4]) && is_hex_digit(hexb@[5]));
        let r: u8 = values[0] * 16 + values[1];
        let g: u8 = values[2] * 16 + values[3];
        let b: u8 = values[4] * 16 + values[5];
        Ok(RgbColor { r, g, b })
    }

    /// The value of one hexadecimal digit, or the byte itself if it is none.
    pub fn parse_hex_digit(digit: u8) -> (result: Result<u8, ParseError>)
        ensures
            result == digit_reading(digit),
            result matches Ok(value) ==> value < 16,
    {
        if 0x30 <= digit && digit <= 0x39 {
            return Ok(digit - 0x30);
        }
        if 0x61 <= digit && digit <= 0x66 {
            return Ok(10 + (digit - 0x61));
        }
        if 0x41 <= digit && digit <= 0x46 {
            return Ok(10 + (digit - 0x41));
        }
        Err(ParseError::InvalidDigit(digit))
    }
}

impl Default for RgbColor {
    /// Black.
    fn default() -> (color: RgbColor)
        ensures
            color == (RgbColor { r: 0, g: 0, b: 0 }),
    {
        RgbColor { r: 0, g: 0, b: 0 }
    }
}

impl From<(u8, u8, u8)> for RgbColor {
    fn from(rgb: (u8, u8, u8)) -> (color: RgbColor) {
        RgbColor { r: rgb.0, g: rgb.1, b: rgb.2 }
    }
}

impl FromSpecImpl<(u8, u8, u8)> for RgbColor {
    open spec fn obeys_from_spec() -> bool {
        true
    }

    open spec fn from_spec(rgb: (u8, u8, u8)) -> RgbColor {
        RgbColor { r: rgb.0, g: rgb.1, b: rgb.2 }
    }
}

impl From<[u8; 3]> for RgbColor {
    fn from(rgb: [u8; 3]) -> (color: RgbColor) {
        RgbColor { r: rgb[0], g: rgb[1], b: rgb[2] }
    }
}

impl FromSpecImpl<[u8; 3]> for RgbColor {
    open spec fn obeys_from_spec() -> bool {
        true
    }

    open spec fn from_spec(rgb: [u8; 3]) -> RgbColor {
        RgbColor { r: rgb[0], g: rgb[1], b: rgb[2] }
    }
}

impl From<&[u8; 3]> for RgbColor {
    fn from(rgb: &[u8; 3]) -> (color: RgbColor) {
        RgbColor { r: rgb[0], g: rgb[1], b: rgb[2] }
    }
}

impl FromSpecImpl<&[u8; 3]> for RgbColor {
    open spec fn obeys_from_spec() -> bool {
        true
    }

    open spec fn from_spec(rgb: &[u8; 3]) -> RgbColor {
        RgbColor { r: rgb[0], g: rgb[1], b: rgb[2] }
    }
}

} // verus!
