//! Colours of a theme file, written `#RRGGBB` in hexadecimal.
use vstd::prelude::*;

use crate::text::chars_of;

verus! {

/// The value of a hexadecimal digit (either case).
pub open spec fn hex_digit_value(c: char) -> Option<nat> {
    let x = c as u32;
    if 48 <= x <= 57 {
        Some((x - 48) as nat)
    } else if 97 <= x <= 102 {
        Some((x - 87) as nat)
    } else if 65 <= x <= 70 {
        Some((x - 55) as nat)
    } else {
        None
    }
}

/// The byte written by the two hexadecimal digits at `i` and `i + 1`.
pub open spec fn hex_byte(s: Seq<char>, i: int) -> nat {
    hex_digit_value(s[i]).unwrap() * 16 + hex_digit_value(s[i + 1]).unwrap()
}

/// The colour that `#RRGGBB` writes, or `None` where the text has another shape.
pub open spec fn hex_color_spec(s: Seq<char>) -> Option<(u8, u8, u8)> {
    if s.len() == 7 && s[0] == '#' && forall|i: int|
        1 <= i < 7 ==> (#[trigger] hex_digit_value(s[i])) is Some {
        Some((hex_byte(s, 1) as u8, hex_byte(s, 3) as u8, hex_byte(s, 5) as u8))
    } else {
        None
    }
}

/// The value of a hexadecimal digit.
fn hex_digit(c: char) -> (r: Option<u8>)
    ensures
        match hex_digit_value(c) {
            Some(v) => r == Some(v as u8) && v < 16,
            None => r is None,
        },
{
    let x = c as u32;
    if 48 <= x && x <= 57 {
        Some((x - 48) as u8)
    } else if 97 <= x && x <= 102 {
        Some((x - 87) as u8)
    } else if 65 <= x && x <= 70 {
        Some((x - 55) as u8)
    } else {
        None
    }
}

/// Reads a colour written `#RRGGBB`.
pub fn parse_hex_color(s: &str) -> (r: Option<(u8, u8, u8)>)
    ensures
        r == hex_color_spec(s@),
{
    let v = chars_of(s);
    if v.len() != 7 || v[0] != '#' {
        return None;
    }
    let mut digits: Vec<u8> = Vec::new();
    for i in 1..7
        invariant
            v@ == s@,
            v@.len() == 7,
            digits@.len() == i - 1,
            forall|k: int| 1 <= k < i ==> (#[trigger] hex_digit_value(v@[k])) is Some,
            forall|k: int|
                1 <= k < i ==> digits@[k - 1] == hex_digit_value(#[trigger] v@[k]).unwrap() && digits@[k
                    - 1] < 16,
    {
        match hex_digit(v[i]) {
            Some(d) => digits.push(d),
            None => {
                return None;
            },
        }
    }
    let r = (digits[0] * 16 + digits[1], digits[2] * 16 + digits[3], digits[4] * 16 + digits[5]);
    assert(digits@[0] == hex_digit_value(v@[1]).unwrap());
    assert(digits@[1] == hex_digit_value(v@[2]).unwrap());
    assert(digits@[2] == hex_digit_value(v@[3]).unwrap());
    assert(digits@[3] == hex_digit_value(v@[4]).unwrap());
    assert(digits@[4] == hex_digit_value(v@[5]).unwrap());
    assert(digits@[5] == hex_digit_value(v@[6]).unwrap());
    Some(r)
}

} // verus!
