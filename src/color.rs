//! RGB colors written as hex codes.
use vstd::prelude::*;

use crate::text::chars_of;

verus! {

/// A color in the RGB format.
#[derive(Clone, Copy, Debug, PartialEq, Eq, Structural)]
pub struct Color {
    /// The red channel.
    pub r: u8,
    /// The green channel.
    pub g: u8,
    /// The blue channel.
    pub b: u8,
}

/// Why a hex code is not a color.
#[derive(Debug, PartialEq, Eq)]
pub enum ColorError {
    /// After the optional `#`, the code has neither 3 nor 6 digits.
    InvalidLength,
    /// A digit is outside `[0-9a-fA-F]`; holds the code as it was given.
    InvalidHexDigit(String),
}

/// Whether `c` is one of `0-9`, `a-f`, `A-F`.
pub open spec fn is_hex_digit(c: char) -> bool {
    ('0' as u32 <= c as u32 <= '9' as u32) || ('a' as u32 <= c as u32 <= 'f' as u32) || (
    'A' as u32 <= c as u32 <= 'F' as u32)
}

/// The value of a hex digit.
pub open spec fn hex_value(c: char) -> int {
    if '0' as u32 <= c as u32 <= '9' as u32 {
        c as u32 - '0' as u32
    } else if 'a' as u32 <= c as u32 <= 'f' as u32 {
        c as u32 - 'a' as u32 + 10
    } else {
        c as u32 - 'A' as u32 + 10
    }
}

/// The digits of a code: the code without its leading `#`, if it has one.
pub open spec fn hex_digits(code: Seq<char>) -> Seq<char> {
    if code.len() > 0 && code[0] == '#' {
        code.skip(1)
    } else {
        code
    }
}

/// A code has 3 or 6 digits.
pub open spec fn has_valid_length(digits: Seq<char>) -> bool {
    digits.len() == 3 || digits.len() == 6
}

/// Every digit is a hex digit.
pub open spec fn all_hex(digits: Seq<char>) -> bool {
    forall|i: int| 0 <= i < digits.len() ==> is_hex_digit(#[trigger] digits[i])
}

/// The channel written by the two digits `hi` and `lo`.
pub open spec fn channel(hi: char, lo: char) -> u8 {
    (16 * hex_value(hi) + hex_value(lo)) as u8
}

/// The color that a code stands for, if it stands for one. Three digits `rgb`
/// mean the same as six digits `rrggbb`.
pub open spec fn color_from_hex(code: Seq<char>) -> Option<Color> {
    let d = hex_digits(code);
    if !has_valid_length(d) || !all_hex(d) {
        None
    } else if d.len() == 3 {
        Some(Color { r: channel(d[0], d[0]), g: channel(d[1], d[1]), b: channel(d[2], d[2]) })
    } else {
        Some(Color { r: channel(d[0], d[1]), g: channel(d[2], d[3]), b: channel(d[4], d[5]) })
    }
}

/// Whether `e` is the error that reading `code` gives.
pub open spec fn describes_failure(code: Seq<char>, e: ColorError) -> bool {
    match e {
        ColorError::InvalidLength => !has_valid_length(hex_digits(code)),
        ColorError::InvalidHexDigit(s) => has_valid_length(hex_digits(code)) && !all_hex(
            hex_digits(code),
        ) && s@ == code,
    }
}

/// Each digit of a 3-digit code written twice.
pub open spec fn expand(d: Seq<char>) -> Seq<char> {
    seq![d[0], d[0], d[1], d[1], d[2], d[2]]
}

fn hex_digit_value(c: char) -> (r: Option<u8>)
    ensures
        r is Some <==> is_hex_digit(c),
        r is Some ==> r->0 as int == hex_value(c) && r->0 < 16,
{
    let n = c as u32;
    if '0' as u32 <= n && n <= '9' as u32 {
        Some((n - '0' as u32) as u8)
    } else if 'a' as u32 <= n && n <= 'f' as u32 {
        Some((n - 'a' as u32 + 10) as u8)
    } else if 'A' as u32 <= n && n <= 'F' as u32 {
        Some((n - 'A' as u32 + 10) as u8)
    } else {
        None
    }
}

impl Color {
    /// Reads a color from a hex code of 3 or 6 digits, optionally preceded by `#`.
    pub fn new(hex_color: &str) -> (r: Result<Color, ColorError>)
        ensures
            r is Ok <==> color_from_hex(hex_color@) is Some,
            match r {
                Ok(c) => color_from_hex(hex_color@) == Some(c),
                Err(e) => describes_failure(hex_color@, e),
            },
    {
        let code = chars_of(hex_color);
        let start: usize = if code.len() > 0 && code[0] == '#' { 1 } else { 0 };
        let ghost d = hex_digits(hex_color@);
        assert(d =~= code@.skip(start as int));
        let n = code.len() - start;
        if n != 3 && n != 6 {
            return Err(ColorError::InvalidLength);
        }
        let mut values: Vec<u8> = Vec::new();
        let mut i: usize = start;
        while i < code.len()
            invariant
                start <= i <= code@.len(),
                code@ == hex_color@,
                d == hex_digits(hex_color@),
                d == code@.skip(start as int),
                has_valid_length(d),
                n == d.len(),
                values@.len() == i - start,
                forall|j: int| 0 <= j < values@.len() ==> is_hex_digit(#[trigger] d[j]) && values@[j]
                    as int == hex_value(d[j]) && values@[j] < 16,
            decreases code.len() - i,
        {
            match hex_digit_value(code[i]) {
                Some(v) => values.push(v),
                None => {
                    assert(!is_hex_digit(d[i - start]));
                    return Err(ColorError::InvalidHexDigit(hex_color.to_owned()));
                },
            }
            i = i + 1;
        }
        assert(all_hex(d));
        if n == 3 {
            Ok(Color { r: values[0] * 17, g: values[1] * 17, b: values[2] * 17 })
        } else {
            Ok(
                Color {
                    r: values[0] * 16 + values[1],
                    g: values[2] * 16 + values[3],
                    b: values[4] * 16 + values[5],
                },
            )
        }
    }
}

/// A 3-digit code and the 6-digit code that writes each of its digits twice stand
/// for the same color, with or without a leading `#`.
pub proof fn lemma_short_code_expands(digits: Seq<char>)
    requires
        digits.len() == 3,
        all_hex(digits),
    ensures
        color_from_hex(digits) is Some,
        color_from_hex(digits) == color_from_hex(expand(digits)),
        color_from_hex(seq!['#'] + digits) == color_from_hex(seq!['#'] + expand(digits)),
        color_from_hex(digits) == color_from_hex(seq!['#'] + digits),
{
    let e = expand(digits);
    assert(is_hex_digit(digits[0]) && is_hex_digit(digits[1]) && is_hex_digit(digits[2]));
    assert(hex_digits(digits) == digits);
    assert(hex_digits(e) == e);
    assert((seq!['#'] + digits).skip(1) =~= digits);
    assert((seq!['#'] + e).skip(1) =~= e);
    assert(all_hex(e));
}

} // verus!
