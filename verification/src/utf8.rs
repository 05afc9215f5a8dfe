//! The bytes of a character.

use vstd::prelude::*;
use vstd::utf8::{char_is_scalar, encode_scalar};

verus! {

/// The bytes of `c` in UTF-8.
pub open spec fn utf8(c: char) -> Seq<u8> {
    encode_scalar(c as u32)
}

/// Encodes `c` in UTF-8: the bytes, and how many of them are used.
pub fn encode_utf8(c: char) -> (r: ([u8; 4], usize))
    ensures
        1 <= r.1 <= 4,
        r.1 == utf8(c).len(),
        r.0@.subrange(0, r.1 as int) == utf8(c),
{
    let v: u32 = c as u32;
    proof {
        char_is_scalar(c);
    }
    if v <= 0x7F {
        let bytes: [u8; 4] = [(v & 0x7F) as u8, 0, 0, 0];
        (bytes, 1)
    } else if v <= 0x7FF {
        let bytes: [u8; 4] = [0xC0 | ((v >> 6) & 0x1F) as u8, 0x80 | (v & 0x3F) as u8, 0, 0];
        (bytes, 2)
    } else if v <= 0xFFFF {
        let bytes: [u8; 4] = [
            0xE0 | ((v >> 12) & 0x0F) as u8,
            0x80 | ((v >> 6) & 0x3F) as u8,
            0x80 | (v & 0x3F) as u8,
            0,
        ];
        (bytes, 3)
    } else {
        let bytes: [u8; 4] = [
            0xF0 | ((v >> 18) & 0x7) as u8,
            0x80 | ((v >> 12) & 0x3F) as u8,
            0x80 | ((v >> 6) & 0x3F) as u8,
            0x80 | (v & 0x3F) as u8,
        ];
        (bytes, 4)
    }
}

} // verus!
