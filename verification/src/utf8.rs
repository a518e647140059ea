//! UTF-8 well-formedness, as a byte-level predicate and a verified
//! checker. The table of admissible byte ranges follows the UTF-8
//! definition: no overlong forms, no surrogate code points, nothing
//! above U+10FFFF.

use vstd::prelude::*;

verus! {

/// A UTF-8 continuation byte.
pub open spec fn is_cont_byte(b: u8) -> bool {
    0x80 <= b <= 0xBF
}

/// The bytes of `s` from index `i` on form a valid UTF-8 sequence.
pub open spec fn is_utf8_from(s: Seq<u8>, i: int) -> bool
    decreases s.len() - i,
{
    if i >= s.len() {
        true
    } else {
        let b0 = s[i];
        if b0 <= 0x7F {
            is_utf8_from(s, i + 1)
        } else if 0xC2 <= b0 && b0 <= 0xDF {
            &&& i + 2 <= s.len()
            &&& is_cont_byte(s[i + 1])
            &&& is_utf8_from(s, i + 2)
        } else if b0 == 0xE0 {
            &&& i + 3 <= s.len()
            &&& 0xA0 <= s[i + 1] <= 0xBF
            &&& is_cont_byte(s[i + 2])
            &&& is_utf8_from(s, i + 3)
        } else if 0xE1 <= b0 && b0 <= 0xEC || b0 == 0xEE || b0 == 0xEF {
            &&& i + 3 <= s.len()
            &&& is_cont_byte(s[i + 1])
            &&& is_cont_byte(s[i + 2])
            &&& is_utf8_from(s, i + 3)
        } else if b0 == 0xED {
            &&& i + 3 <= s.len()
            &&& 0x80 <= s[i + 1] <= 0x9F
            &&& is_cont_byte(s[i + 2])
            &&& is_utf8_from(s, i + 3)
        } else if b0 == 0xF0 {
            &&& i + 4 <= s.len()
            &&& 0x90 <= s[i + 1] <= 0xBF
            &&& is_cont_byte(s[i + 2])
            &&& is_cont_byte(s[i + 3])
            &&& is_utf8_from(s, i + 4)
        } else if 0xF1 <= b0 && b0 <= 0xF3 {
            &&& i + 4 <= s.len()
            &&& is_cont_byte(s[i + 1])
            &&& is_cont_byte(s[i + 2])
            &&& is_cont_byte(s[i + 3])
            &&& is_utf8_from(s, i + 4)
        } else if b0 == 0xF4 {
            &&& i + 4 <= s.len()
            &&& 0x80 <= s[i + 1] <= 0x8F
            &&& is_cont_byte(s[i + 2])
            &&& is_cont_byte(s[i + 3])
            &&& is_utf8_from(s, i + 4)
        } else {
            false
        }
    }
}

/// `s` is a valid UTF-8 byte sequence.
pub open spec fn is_utf8(s: Seq<u8>) -> bool {
    is_utf8_from(s, 0)
}

fn cont_byte(b: u8) -> (r: bool)
    ensures
        r == is_cont_byte(b),
{
    0x80 <= b && b <= 0xBF
}

fn check_utf8_from(bytes: &Vec<u8>, i: usize) -> (r: bool)
    requires
        i <= bytes@.len(),
    ensures
        r == is_utf8_from(bytes@, i as int),
    decreases bytes@.len() - i,
{
    if i == bytes.len() {
        true
    } else {
        let rem = bytes.len() - i;
        let b0 = bytes[i];
        if b0 <= 0x7F {
            check_utf8_from(bytes, i + 1)
        } else if 0xC2 <= b0 && b0 <= 0xDF {
            rem >= 2 && cont_byte(bytes[i + 1]) && check_utf8_from(bytes, i + 2)
        } else if b0 == 0xE0 {
            rem >= 3 && 0xA0 <= bytes[i + 1] && bytes[i + 1] <= 0xBF && cont_byte(bytes[i + 2])
                && check_utf8_from(bytes, i + 3)
        } else if 0xE1 <= b0 && b0 <= 0xEC || b0 == 0xEE || b0 == 0xEF {
            rem >= 3 && cont_byte(bytes[i + 1]) && cont_byte(bytes[i + 2]) && check_utf8_from(
                bytes,
                i + 3,
            )
        } else if b0 == 0xED {
            rem >= 3 && 0x80 <= bytes[i + 1] && bytes[i + 1] <= 0x9F && cont_byte(bytes[i + 2])
                && check_utf8_from(bytes, i + 3)
        } else if b0 == 0xF0 {
            rem >= 4 && 0x90 <= bytes[i + 1] && bytes[i + 1] <= 0xBF && cont_byte(bytes[i + 2])
                && cont_byte(bytes[i + 3]) && check_utf8_from(bytes, i + 4)
        } else if 0xF1 <= b0 && b0 <= 0xF3 {
            rem >= 4 && cont_byte(bytes[i + 1]) && cont_byte(bytes[i + 2]) && cont_byte(
                bytes[i + 3],
            ) && check_utf8_from(bytes, i + 4)
        } else if b0 == 0xF4 {
            rem >= 4 && 0x80 <= bytes[i + 1] && bytes[i + 1] <= 0x8F && cont_byte(bytes[i + 2])
                && cont_byte(bytes[i + 3]) && check_utf8_from(bytes, i + 4)
        } else {
            false
        }
    }
}

/// Whether `bytes` holds valid UTF-8.
pub fn check_utf8(bytes: &Vec<u8>) -> (r: bool)
    ensures
        r == is_utf8(bytes@),
{
    check_utf8_from(bytes, 0)
}

} // verus!
