//! Bytes and text: UTF-8 as the reader and the writer need it.
use vstd::prelude::*;

verus! {

/// `String::from_utf8` of the standard library: it accepts exactly the byte
/// sequences that are well-formed UTF-8, and the string it gives then holds
/// the characters that the bytes encode.
#[verifier::external_body]
pub(crate) fn string_from_utf8(bytes: Vec<u8>) -> (r: Option<String>)
    ensures
        r is Some <==> vstd::utf8::valid_utf8(bytes@),
        r matches Some(s) ==> s@ == vstd::utf8::decode_utf8(bytes@),
{
    match String::from_utf8(bytes) {
        Ok(s) => Some(s),
        Err(_) => None,
    }
}

/// Whether every byte of `bytes` is below `0x80`.
pub open spec fn is_ascii(bytes: Seq<u8>) -> bool {
    forall|i: int| 0 <= i < bytes.len() ==> #[trigger] bytes[i] < 0x80
}

/// The characters of a sequence of ASCII bytes.
pub open spec fn ascii_chars(bytes: Seq<u8>) -> Seq<char> {
    Seq::new(bytes.len(), |i: int| bytes[i] as char)
}

/// ASCII bytes are well-formed UTF-8 and encode one character each.
pub proof fn lemma_ascii_is_utf8(bytes: Seq<u8>)
    requires
        is_ascii(bytes),
    ensures
        vstd::utf8::valid_utf8(bytes),
        vstd::utf8::decode_utf8(bytes) == ascii_chars(bytes),
        vstd::utf8::encode_utf8(ascii_chars(bytes)) == bytes,
{
    let chars = ascii_chars(bytes);
    assert(vstd::utf8::is_ascii_chars(chars)) by {
        assert forall|i: int| 0 <= i < chars.len() implies '\0' <= #[trigger] chars[i]
            <= '\u{7f}' by {
            assert(bytes[i] < 0x80);
        }
    }
    vstd::utf8::is_ascii_chars_encode_utf8(chars);
    assert(vstd::utf8::encode_utf8(chars) =~= bytes) by {
        assert forall|i: int| 0 <= i < bytes.len() implies vstd::utf8::encode_utf8(chars)[i]
            == bytes[i] by {
            assert(chars[i] as u8 == vstd::utf8::encode_utf8(chars)[i]);
            assert(bytes[i] < 0x80);
        }
    }
    vstd::utf8::encode_utf8_valid_utf8(chars);
    vstd::utf8::encode_utf8_decode_utf8(chars);
}

/// Appends the UTF-8 encoding of the character with the number `scalar`.
pub(crate) fn push_scalar(scalar: u32, output: &mut Vec<u8>)
    requires
        vstd::utf8::is_scalar(scalar),
    ensures
        final(output)@ == old(output)@ + vstd::utf8::encode_scalar(scalar),
{
    let ghost before = output@;
    if scalar <= 0x7F {
        output.push(#[verifier::truncate] ((scalar & 0x7F) as u8));
    } else if scalar <= 0x7FF {
        output.push(0xC0u8 | #[verifier::truncate] (((scalar >> 6) & 0x1F) as u8));
        output.push(0x80u8 | #[verifier::truncate] ((scalar & 0x3F) as u8));
    } else if scalar <= 0xFFFF {
        output.push(0xE0u8 | #[verifier::truncate] (((scalar >> 12) & 0x0F) as u8));
        output.push(0x80u8 | #[verifier::truncate] (((scalar >> 6) & 0x3F) as u8));
        output.push(0x80u8 | #[verifier::truncate] ((scalar & 0x3F) as u8));
    } else {
        output.push(0xF0u8 | #[verifier::truncate] (((scalar >> 18) & 0x7) as u8));
        output.push(0x80u8 | #[verifier::truncate] (((scalar >> 12) & 0x3F) as u8));
        output.push(0x80u8 | #[verifier::truncate] (((scalar >> 6) & 0x3F) as u8));
        output.push(0x80u8 | #[verifier::truncate] ((scalar & 0x3F) as u8));
    }
    assert(output@ =~= before + vstd::utf8::encode_scalar(scalar));
}

} // verus!
