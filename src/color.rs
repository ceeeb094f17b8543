//! Colours with three 8-bit channels, and their `RRGGBB` hex notation.
use vstd::prelude::*;
use vstd::string::*;

verus! {

/// A colour with 8-bit red, green and blue channels.
#[derive(Debug, Clone, Copy, PartialEq, Eq, Structural)]
pub struct RGB {
    pub r: u8,
    pub g: u8,
    pub b: u8,
}

/// Why a hex colour string was refused.
#[derive(Debug, Clone, Copy, PartialEq, Eq, Structural)]
pub enum ColorError {
    /// The string does not hold exactly six characters.
    WrongLength,
    /// One of the six characters is not a hex digit.
    InvalidDigit,
}

pub open spec fn is_hex_digit(c: char) -> bool {
    ('0' <= c && c <= '9') || ('a' <= c && c <= 'f') || ('A' <= c && c <= 'F')
}

/// The value of a hex digit, either case.
pub open spec fn hex_value(c: char) -> int {
    if '0' <= c && c <= '9' {
        c as int - '0' as int
    } else if 'a' <= c && c <= 'f' {
        c as int - 'a' as int + 10
    } else {
        c as int - 'A' as int + 10
    }
}

/// Exactly six hex digits.
pub open spec fn is_hex_color(s: Seq<char>) -> bool {
    s.len() == 6 && forall|i: int| 0 <= i < 6 ==> is_hex_digit(#[trigger] s[i])
}

/// The byte written by the two hex digits at `i` and `i + 1`.
pub open spec fn hex_byte(s: Seq<char>, i: int) -> int {
    16 * hex_value(s[i]) + hex_value(s[i + 1])
}

/// The colour that a well-formed `RRGGBB` string denotes.
pub open spec fn color_of(s: Seq<char>) -> RGB {
    RGB { r: hex_byte(s, 0) as u8, g: hex_byte(s, 2) as u8, b: hex_byte(s, 4) as u8 }
}

fn hex_digit(c: char) -> (r: Option<u8>)
    ensures
        r is Some <==> is_hex_digit(c),
        r is Some ==> r->Some_0 as int == hex_value(c) && r->Some_0 < 16,
{
    if '0' <= c && c <= '9' {
        Some(((c as u32) - ('0' as u32)) as u8)
    } else if 'a' <= c && c <= 'f' {
        Some(((c as u32) - ('a' as u32) + 10) as u8)
    } else if 'A' <= c && c <= 'F' {
        Some(((c as u32) - ('A' as u32) + 10) as u8)
    } else {
        None
    }
}

impl RGB {
    /// Reads a colour from six hex digits `RRGGBB` (either case).
    pub fn hex(s: &str) -> (res: Result<RGB, ColorError>)
        ensures
            s@.len() != 6 ==> res == Err::<RGB, ColorError>(ColorError::WrongLength),
            s@.len() == 6 && !is_hex_color(s@) ==> res == Err::<RGB, ColorError>(
                ColorError::InvalidDigit,
            ),
            is_hex_color(s@) ==> res == Ok::<RGB, ColorError>(color_of(s@)),
    {
        if s.unicode_len() != 6 {
            return Err(ColorError::WrongLength);
        }
        let mut digits: Vec<u8> = Vec::new();
        let mut i: usize = 0;
        while i < 6
            invariant
                s@.len() == 6,
                i <= 6,
                digits@.len() == i,
                forall|j: int| 0 <= j < i ==> is_hex_digit(#[trigger] s@[j]),
                forall|j: int| 0 <= j < i ==> digits@[j] as int == hex_value(#[trigger] s@[j]),
                forall|j: int| 0 <= j < i ==> #[trigger] digits@[j] < 16,
            decreases 6 - i,
        {
            match hex_digit(s.get_char(i)) {
                Some(d) => digits.push(d),
                None => {
                    return Err(ColorError::InvalidDigit);
                },
            }
            i = i + 1;
        }
        let r = digits[0] * 16 + digits[1];
        let g = digits[2] * 16 + digits[3];
        let b = digits[4] * 16 + digits[5];
        Ok(RGB { r, g, b })
    }

    /// The three channels as `[red, green, blue]`.
    pub fn channels(&self) -> (a: [u8; 3])
        ensures
            a@ == seq![self.r, self.g, self.b],
    {
        [self.r, self.g, self.b]
    }
}

} // verus!
