//! The ASCII bytes that have a meaning in a format template or in the output, and the way from
//! bytes to text.

use core::str::Utf8Error;
use vstd::prelude::*;
use vstd::string::StringSliceAdditionalSpecFns;
use vstd::utf8::{decode_utf8, encode_utf8, is_ascii_chars, valid_utf8};

verus! {

/// `core::str::Utf8Error`: why bytes are no text. Nothing is known of a value.
#[verifier::external_type_specification]
#[verifier::external_body]
pub struct ExUtf8Error(core::str::Utf8Error);

/// `core::str::from_utf8`: it succeeds on the byte sequences that are valid UTF-8 and on no
/// others, and the string it returns is made of the bytes it was given. This is not proved
/// here.
pub assume_specification<'a>[ core::str::from_utf8 ](v: &'a [u8]) -> (r: Result<
    &'a str,
    Utf8Error,
>)
    ensures
        r is Ok <==> valid_utf8(v@),
        r matches Ok(s) ==> s.spec_bytes() == v@,
;

/// Whether every byte of `bytes` is an ASCII character.
pub open spec fn is_ascii(bytes: Seq<u8>) -> bool {
    forall|i: int| 0 <= i < bytes.len() ==> #[trigger] bytes[i] < 0x80
}

/// The characters that the ASCII bytes `bytes` are.
pub open spec fn ascii_chars(bytes: Seq<u8>) -> Seq<char> {
    Seq::new(bytes.len(), |i: int| bytes[i] as char)
}

/// ASCII bytes are valid UTF-8, and the text they encode is made of the characters that the
/// bytes are.
pub proof fn lemma_ascii_is_utf8(bytes: Seq<u8>)
    requires
        is_ascii(bytes),
    ensures
        valid_utf8(bytes),
        decode_utf8(bytes) == ascii_chars(bytes),
        encode_utf8(ascii_chars(bytes)) == bytes,
{
    let chars = ascii_chars(bytes);
    assert(is_ascii_chars(chars)) by {
        assert forall|i: int| 0 <= i < chars.len() implies '\0' <= #[trigger] chars[i]
            <= '\u{7f}' by {
            assert(bytes[i] < 0x80);
        }
    }
    vstd::utf8::is_ascii_chars_encode_utf8(chars);
    assert(encode_utf8(chars) =~= bytes) by {
        assert forall|i: int| 0 <= i < bytes.len() implies encode_utf8(chars)[i] == bytes[i] by {
            assert(bytes[i] < 0x80);
            assert(chars[i] as u8 == encode_utf8(chars)[i]);
        }
    }
    vstd::utf8::encode_utf8_valid_utf8(chars);
    vstd::utf8::encode_utf8_decode_utf8(chars);
}

/// ` `
pub const SPACE: u8 = 0x20;

/// `#`
pub const HASH: u8 = 0x23;

/// `%`
pub const PERCENT: u8 = 0x25;

/// `'`
pub const APOSTROPHE: u8 = 0x27;

/// `*`
pub const STAR: u8 = 0x2a;

/// `+`
pub const PLUS: u8 = 0x2b;

/// `-`
pub const MINUS: u8 = 0x2d;

/// `.`
pub const DOT: u8 = 0x2e;

/// `0`
pub const DIGIT_0: u8 = 0x30;

/// `9`
pub const DIGIT_9: u8 = 0x39;

/// `A`
pub const UPPER_A: u8 = 0x41;

/// `E`
pub const UPPER_E: u8 = 0x45;

/// `F`
pub const UPPER_F: u8 = 0x46;

/// `G`
pub const UPPER_G: u8 = 0x47;

/// `X`
pub const UPPER_X: u8 = 0x58;

/// `a`
pub const LOWER_A: u8 = 0x61;

/// `c`
pub const LOWER_C: u8 = 0x63;

/// `d`
pub const LOWER_D: u8 = 0x64;

/// `e`
pub const LOWER_E: u8 = 0x65;

/// `f`
pub const LOWER_F: u8 = 0x66;

/// `g`
pub const LOWER_G: u8 = 0x67;

/// `h`
pub const LOWER_H: u8 = 0x68;

/// `i`
pub const LOWER_I: u8 = 0x69;

/// `l`
pub const LOWER_L: u8 = 0x6c;

/// `n`
pub const LOWER_N: u8 = 0x6e;

/// `o`
pub const LOWER_O: u8 = 0x6f;

/// `p`
pub const LOWER_P: u8 = 0x70;

/// `s`
pub const LOWER_S: u8 = 0x73;

/// `t`
pub const LOWER_T: u8 = 0x74;

/// `u`
pub const LOWER_U: u8 = 0x75;

/// `x`
pub const LOWER_X: u8 = 0x78;

/// `z`
pub const LOWER_Z: u8 = 0x7a;

/// The text that is made of the ASCII bytes `bytes`.
pub(crate) fn ascii_string(bytes: &[u8]) -> (text: String)
    requires
        is_ascii(bytes@),
    ensures
        text@ == ascii_chars(bytes@),
{
    proof {
        lemma_ascii_is_utf8(bytes@);
    }
    match core::str::from_utf8(bytes) {
        Ok(text) => {
            proof {
                vstd::utf8::encode_utf8_decode_utf8(text@);
            }
            text.to_owned()
        },
        Err(_) => String::new(),
    }
}

} // verus!
