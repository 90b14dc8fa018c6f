//! Parsing colors written in `#RRGGBB` hexadecimal notation.

use vstd::prelude::*;

use crate::errors::ParseError;
use vstd::string::StringSliceAdditionalSpecFns;
use vstd::utf8::{
    is_char_boundary, is_leading_byte_width_1, length_of_first_scalar, pop_first_scalar,
    valid_first_scalar, valid_utf8,
};

verus! {

broadcast use vstd::utf8::encode_utf8_valid_utf8;

/// A color parsed from `#RRGGBB` notation.
#[derive(Clone, Copy, Debug, PartialEq, Eq, Structural)]
pub struct Color {
    pub red: u8,
    pub green: u8,
    pub blue: u8,
}

/// A hexadecimal digit, as a character: 0-9, a-f or A-F.
pub open spec fn is_hex_digit_char(c: char) -> bool {
    (48 <= c as int <= 57) || (97 <= c as int <= 102) || (65 <= c as int <= 70)
}

/// A hexadecimal digit, as a byte.
pub open spec fn is_hex_byte(c: u8) -> bool {
    (48 <= c <= 57) || (97 <= c <= 102) || (65 <= c <= 70)  // 0-9, a-f, A-F
}

/// The value of one hexadecimal digit byte.
pub open spec fn hex_val(c: u8) -> int {
    if 48 <= c <= 57 {
        c - 48
    } else if 97 <= c <= 102 {
        c - 97 + 10
    } else {
        c - 65 + 10
    }
}

/// The value of the hexadecimal digit run `s[i..j)`.
pub open spec fn hex_run_val(s: Seq<u8>, i: int, j: int) -> int
    decreases j - i,
{
    if i < j {
        hex_run_val(s, i, j - 1) * 16 + hex_val(s[j - 1])
    } else {
        0
    }
}

/// What `from_hex` yields for the given input bytes: the value of a
/// nonempty all-hexadecimal input when it fits a byte, otherwise which
/// error.
pub open spec fn from_hex_spec(s: Seq<u8>) -> Result<u8, ParseError> {
    if s.len() == 0 || !(forall|k: int| 0 <= k < s.len() ==> is_hex_byte(s[k])) {
        Err(ParseError::Malformed)
    } else if hex_run_val(s, 0, s.len() as int) > 255 {
        Err(ParseError::InvalidNumber)
    } else {
        Ok(hex_run_val(s, 0, s.len() as int) as u8)
    }
}

/// What `hex_color` yields for the given input bytes: a `#`, then three
/// pairs of hexadecimal digits for the three channels, then the leftover
/// bytes.
pub open spec fn hex_color_spec(s: Seq<u8>) -> Result<(Seq<u8>, Color), ParseError> {
    // '#' then six hex digits
    if s.len() >= 7 && s[0] == 35 && (forall|k: int| 1 <= k < 7 ==> is_hex_byte(s[k])) {
        Ok(
            (
                s.skip(7),
                Color {
                    red: hex_run_val(s, 1, 3) as u8,
                    green: hex_run_val(s, 3, 5) as u8,
                    blue: hex_run_val(s, 5, 7) as u8,
                },
            ),
        )
    } else {
        Err(ParseError::Malformed)
    }
}

/// Whether a character is a hexadecimal digit.
pub fn is_hex_digit(c: char) -> (r: bool)
    ensures
        r == is_hex_digit_char(c),
{
    let u = c as u32;
    (48 <= u && u <= 57) || (97 <= u && u <= 102) || (65 <= u && u <= 70)
}

/// Whether a byte is a hexadecimal digit.
fn hex_byte(c: u8) -> (r: bool)
    ensures
        r == is_hex_byte(c),
{
    (48 <= c && c <= 57) || (97 <= c && c <= 102) || (65 <= c && c <= 70)  // 0-9, a-f, A-F
}

/// The value of one hexadecimal digit byte.
fn hex_byte_val(c: u8) -> (r: u8)
    requires
        is_hex_byte(c),
    ensures
        r == hex_val(c),
        r <= 15,
{
    if 48 <= c && c <= 57 {
        c - 48
    } else if 97 <= c && c <= 102 {
        c - 97 + 10
    } else {
        c - 65 + 10
    }
}

/// Hexadecimal digit runs weakly grow in value as they extend.
proof fn lemma_hex_run_grows(s: Seq<u8>, i: int, k: int, j: int)
    requires
        i <= k <= j <= s.len(),
        forall|m: int| i <= m < j ==> is_hex_byte(s[m]),
    ensures
        0 <= hex_run_val(s, i, k) <= hex_run_val(s, i, j),
    decreases j - k,
{
    if k == j {
        lemma_hex_run_nonneg(s, i, k);
    } else {
        lemma_hex_run_grows(s, i, k, j - 1);
        assert(is_hex_byte(s[j - 1]));
        assert(hex_run_val(s, i, j - 1) * 16 >= hex_run_val(s, i, j - 1)) by (nonlinear_arith)
            requires
                hex_run_val(s, i, j - 1) >= 0,
        ;
    }
}

/// The value of a hexadecimal digit run is never negative.
proof fn lemma_hex_run_nonneg(s: Seq<u8>, i: int, j: int)
    requires
        i <= j <= s.len(),
        forall|m: int| i <= m < j ==> is_hex_byte(s[m]),
    ensures
        hex_run_val(s, i, j) >= 0,
    decreases j - i,
{
    if i < j {
        lemma_hex_run_nonneg(s, i, j - 1);
        assert(is_hex_byte(s[j - 1]));
        assert(hex_run_val(s, i, j - 1) * 16 >= 0) by (nonlinear_arith)
            requires
                hex_run_val(s, i, j - 1) >= 0,
        ;
    }
}

/// Parse a byte value from one or more hexadecimal digits.
pub fn from_hex(input: &str) -> (r: Result<u8, ParseError>)
    ensures
        r == from_hex_spec(input.spec_bytes()),
{
    let s = input.as_bytes();
    let mut k: usize = 0;
    while k < s.len() && (48 <= s[k] && s[k] <= 57 || 97 <= s[k] && s[k] <= 102 || 65 <= s[k]
        && s[k] <= 70)
        invariant
            s@ == input.spec_bytes(),
            0 <= k <= s@.len(),
            forall|m: int| 0 <= m < k ==> is_hex_byte(s@[m]),
        decreases s@.len() - k,
    {
        k = k + 1;
    }
    if s.len() == 0 || k < s.len() {
        return Err(ParseError::Malformed);
    }
    let mut val: u32 = 0;
    let mut m: usize = 0;
    while m < s.len()
        invariant
            s@ == input.spec_bytes(),
            0 <= m <= s@.len(),
            forall|k2: int| 0 <= k2 < s@.len() ==> is_hex_byte(s@[k2]),
            val == hex_run_val(s@, 0, m as int),
            val <= 255,
        decreases s@.len() - m,
    {
        let d = hex_byte_val(s[m]);
        let step = val * 16 + (d as u32);
        proof {
            assert(step == hex_run_val(s@, 0, m as int + 1));
        }
        if step > 255 {
            proof {
                lemma_hex_run_grows(s@, 0, m as int + 1, s@.len() as int);
                assert(hex_run_val(s@, 0, s@.len() as int) >= step);
                assert(s@ == input.spec_bytes());
                assert(forall|k2: int|
                    0 <= k2 < input.spec_bytes().len() ==> is_hex_byte(
                        #[trigger] input.spec_bytes()[k2],
                    ));
                assert(from_hex_spec(input.spec_bytes()) == Err::<u8, ParseError>(
                    ParseError::InvalidNumber,
                ));
            }
            return Err(ParseError::InvalidNumber);
        }
        val = step;
        m = m + 1;
    }
    Ok(val as u8)
}

/// The first scalar of a byte sequence beginning with an ASCII byte is
/// that byte alone, so any all-ASCII prefix ends on a character boundary.
proof fn lemma_ascii_prefix_boundary(bytes: Seq<u8>, n: int)
    requires
        valid_utf8(bytes),
        0 <= n <= bytes.len(),
        forall|k: int| 0 <= k < n ==> bytes[k] < 0x80,
    ensures
        is_char_boundary(bytes, n),
    decreases n,
{
    if n > 0 {
        assert(bytes.len() > 0);
        assert(valid_first_scalar(bytes));
        assert(is_leading_byte_width_1(bytes[0]));
        assert(length_of_first_scalar(bytes) == 1);
        let rest = pop_first_scalar(bytes);
        assert(rest =~= bytes.skip(1));
        assert forall|k: int| 0 <= k < n - 1 implies rest[k] < 0x80 by {
            assert(rest[k] == bytes[k + 1]);
        }
        lemma_ascii_prefix_boundary(rest, n - 1);
    }
}

/// Parse a color from `#RRGGBB` notation, returning the leftover input
/// beside it.
pub fn hex_color(input: &str) -> (r: Result<(&str, Color), ParseError>)
    ensures
        (match (r, hex_color_spec(input.spec_bytes())) {
            (Ok((rest, c)), Ok((srest, sc))) => rest.spec_bytes() == srest && c == sc,
            (Err(a), Err(b)) => a == b,
            _ => false,
        }),
{
    let s = input.as_bytes();
    // '#' then six hex digits
    if s.len() >= 7 && s[0] == 35 && hex_byte(s[1]) && hex_byte(s[2]) && hex_byte(s[3])
        && hex_byte(s[4]) && hex_byte(s[5]) && hex_byte(s[6]) {
        let red = hex_byte_val(s[1]) * 16 + hex_byte_val(s[2]);
        let green = hex_byte_val(s[3]) * 16 + hex_byte_val(s[4]);
        let blue = hex_byte_val(s[5]) * 16 + hex_byte_val(s[6]);
        proof {
            assert(hex_run_val(s@, 1, 3) == hex_run_val(s@, 1, 2) * 16 + hex_val(s@[2]));
            assert(hex_run_val(s@, 1, 2) == hex_run_val(s@, 1, 1) * 16 + hex_val(s@[1]));
            assert(hex_run_val(s@, 3, 5) == hex_run_val(s@, 3, 4) * 16 + hex_val(s@[4]));
            assert(hex_run_val(s@, 3, 4) == hex_run_val(s@, 3, 3) * 16 + hex_val(s@[3]));
            assert(hex_run_val(s@, 5, 7) == hex_run_val(s@, 5, 6) * 16 + hex_val(s@[6]));
            assert(hex_run_val(s@, 5, 6) == hex_run_val(s@, 5, 5) * 16 + hex_val(s@[5]));
            lemma_ascii_prefix_boundary(input.spec_bytes(), 7);
        }
        let rest = input.split_at(7).1;
        proof {
            assert(rest.spec_bytes() =~= input.spec_bytes().skip(7));
        }
        Ok((rest, Color { red, green, blue }))
    } else {
        Err(ParseError::Malformed)
    }
}

} // verus!
