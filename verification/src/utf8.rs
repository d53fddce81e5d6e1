//! UTF-8 helpers: the lead-byte width table that lets the scanner consume
//! one whole character at a time, and a verified encoder for single
//! characters.

use vstd::prelude::*;

use vstd::utf8::{
    encode_scalar, encode_utf8, has_width_1_encoding, has_width_2_encoding, has_width_3_encoding,
    has_width_4_encoding, is_continuation_byte, length_of_first_scalar, valid_first_scalar,
};

verus! {

broadcast use vstd::utf8::char_is_scalar;

/// The number of bytes (1 to 4) of the UTF-8 character whose lead byte is
/// `b`, or 0 when `b` cannot lead a character: continuation bytes, the
/// overlong leads `0xC0`/`0xC1`, and everything above `0xF4`.
pub open spec fn utf8_width(b: u8) -> int {
    if b < 0x80 {
        1
    } else if b < 0xc2 {
        0
    } else if b < 0xe0 {
        2
    } else if b < 0xf0 {
        3
    } else if b < 0xf5 {
        4
    } else {
        0
    }
}

/// The lead-byte width table, executable form of [`utf8_width`].
pub fn utf8_char_width(b: u8) -> (w: u8)
    ensures
        w as int == utf8_width(b),
{
    if b < 0x80 {
        1
    } else if b < 0xc2 {
        0
    } else if b < 0xe0 {
        2
    } else if b < 0xf0 {
        3
    } else if b < 0xf5 {
        4
    } else {
        0
    }
}

/// On a byte sequence that starts with a well-formed scalar encoding, the
/// width table answers exactly the length of that encoding.
pub proof fn lemma_width_of_first_scalar(s: Seq<u8>)
    requires
        s.len() > 0,
        valid_first_scalar(s),
    ensures
        utf8_width(s[0]) == length_of_first_scalar(s),
        utf8_width(s[0]) <= s.len(),
        forall|j: int| 1 <= j < utf8_width(s[0]) ==> is_continuation_byte(#[trigger] s[j]),
{
    let b = s[0];
    if vstd::utf8::is_leading_byte_width_2(b) {
        let b2 = s[1];
        let c = vstd::utf8::codepoint_width_2(b, b2);
        assert(c >= 0x80);
        assert(!(0xc0 <= b <= 0xc1)) by {
            assert(0xc0 <= b <= 0xc1 ==> ((((b & 0x1F) as u32) << 6) | ((b2 & 0x3f) as u32))
                < 0x80) by (bit_vector);
        }
    } else if vstd::utf8::is_leading_byte_width_4(b) {
        let b2 = s[1];
        let b3 = s[2];
        let b4 = s[3];
        let c = vstd::utf8::codepoint_width_4(b, b2, b3, b4);
        assert(c <= 0x10ffff);
        assert(!(0xf5 <= b <= 0xf7)) by {
            assert(0xf5 <= b <= 0xf7 ==> ((((b & 0x07) as u32) << 18) | (((b2 & 0x3f) as u32)
                << 12) | (((b3 & 0x3f) as u32) << 6) | ((b4 & 0x3f) as u32)) > 0x10ffff)
                by (bit_vector);
        }
    }
}

/// The UTF-8 bytes of one character, equal to what [`encode_scalar`] says.
pub fn encode_char(c: char) -> (r: Vec<u8>)
    ensures
        r@ == encode_scalar(c as u32),
        r@ == encode_utf8(seq![c]),
        1 <= r@.len() <= 4,
{
    let u = c as u32;
    let mut out: Vec<u8> = Vec::new();
    if u <= 0x7f {
        out.push((u & 0x7f) as u8);
        assert(out@ =~= seq![vstd::utf8::leading_byte_width_1(u)]);
    } else if u <= 0x7ff {
        out.push(0xc0 | ((u >> 6) & 0x1f) as u8);
        out.push(0x80 | (u & 0x3f) as u8);
        assert(out@ =~= seq![
            vstd::utf8::leading_byte_width_2(u),
            vstd::utf8::last_continuation_byte(u),
        ]);
    } else if u <= 0xffff {
        assert(has_width_3_encoding(u));
        out.push(0xe0 | ((u >> 12) & 0x0f) as u8);
        out.push(0x80 | ((u >> 6) & 0x3f) as u8);
        out.push(0x80 | (u & 0x3f) as u8);
        assert(out@ =~= seq![
            vstd::utf8::leading_byte_width_3(u),
            vstd::utf8::second_last_continuation_byte(u),
            vstd::utf8::last_continuation_byte(u),
        ]);
    } else {
        assert(has_width_4_encoding(u));
        out.push(0xf0 | ((u >> 18) & 0x07) as u8);
        out.push(0x80 | ((u >> 12) & 0x3f) as u8);
        out.push(0x80 | ((u >> 6) & 0x3f) as u8);
        out.push(0x80 | (u & 0x3f) as u8);
        assert(out@ =~= seq![
            vstd::utf8::leading_byte_width_4(u),
            vstd::utf8::third_last_continuation_byte(u),
            vstd::utf8::second_last_continuation_byte(u),
            vstd::utf8::last_continuation_byte(u),
        ]);
    }
    proof {
        assert(encode_utf8(seq![c]) == encode_scalar(c as u32) + encode_utf8(
            seq![c].drop_first(),
        ));
        assert(seq![c].drop_first() =~= Seq::<char>::empty());
        assert(encode_utf8(Seq::<char>::empty()) =~= Seq::<u8>::empty());
        assert(encode_scalar(c as u32) + Seq::<u8>::empty() =~= encode_scalar(c as u32));
    }
    out
}

} // verus!
