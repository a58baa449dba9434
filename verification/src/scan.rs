//! Scanners over a byte slice: white space and hexadecimal digits.
use crate::ascii::{
    CARRIAGE_RETURN, DIGIT_0, DIGIT_9, LINE_FEED, LOWER_A, LOWER_F, SPACE, TAB, UPPER_A, UPPER_F,
};
use crate::error::JsonError;
use crate::grammar;
use crate::text;
use vstd::prelude::*;

verus! {

/// What stands at the reader's position: nothing, a byte that is no white
/// space, or a run of white space and the byte behind it, if there is one.
pub(crate) enum SkipWhitespace {
    EmptyBuffer,
    NoSkip(u8),
    Skip(String, Option<u8>),
}

/// The number of white-space bytes that `buf` holds from `start` on, up to
/// the first byte that is none.
pub(crate) fn skip_whitespaces(buf: &[u8], start: usize) -> (skipped: usize)
    requires
        start <= buf@.len(),
    ensures
        skipped == grammar::whitespace_len(buf@, start as int),
        start + skipped <= buf@.len(),
{
    let mut i: usize = start;
    while i < buf.len()
        invariant
            start <= i <= buf@.len(),
            grammar::whitespace_len(buf@, start as int) == (i - start) + grammar::whitespace_len(
                buf@,
                i as int,
            ),
        decreases buf@.len() - i,
    {
        let c = buf[i];
        if !(c == SPACE || c == TAB || c == LINE_FEED || c == CARRIAGE_RETURN) {
            return i - start;
        }
        i = i + 1;
    }
    i - start
}

/// The number that `input` spells in hexadecimal digits, upper or lower
/// case, or the first byte of it that is no such digit.
pub(crate) fn read_hexa_char(input: &[u8]) -> (r: Result<u32, JsonError>)
    requires
        input@.len() <= 8,
    ensures
        match grammar::hex_value(input@) {
            Ok(v) => r == Ok::<u32, JsonError>(v as u32) && v <= u32::MAX,
            Err(e) => r matches Err(found) && found@ == e,
        },
{
    let mut value: u32 = 0;
    let mut i: usize = 0;
    while i < input.len()
        invariant
            i <= input@.len() <= 8,
            grammar::hex_value(input@.take(i as int)) == Ok::<int, crate::error::ErrorView>(
                value as int,
            ),
            value < grammar::pow16(i as nat),
        decreases input@.len() - i,
    {
        let c = input[i];
        proof {
            assert(input@.take(i + 1).drop_last() =~= input@.take(i as int));
            assert(input@.take(i + 1).last() == c);
            reveal_with_fuel(grammar::pow16, 9);
        }
        let digit: u32 = if DIGIT_0 <= c && c <= DIGIT_9 {
            (c - DIGIT_0) as u32
        } else if LOWER_A <= c && c <= LOWER_F {
            (c - LOWER_A) as u32 + 10
        } else if UPPER_A <= c && c <= UPPER_F {
            (c - UPPER_A) as u32 + 10
        } else {
            proof {
                grammar::lemma_hex_error_extends(input@, i as int + 1);
            }
            return Err(JsonError::InvalidHexDigit(c));
        };
        value = 16 * value + digit;
        i = i + 1;
    }
    proof {
        assert(input@.take(i as int) =~= input@);
    }
    Ok(value)
}

/// Copies the run of white space that `input` holds at `start` into `output`
/// (emptied first) and says what was found.
pub(crate) fn lookup_front_segment_whitespaces_impl(
    input: &[u8],
    start: usize,
    output: &mut Vec<u8>,
) -> (found: SkipWhitespace)
    requires
        start <= input@.len(),
    ensures
        ({
            let run = grammar::whitespace_len(input@, start as int);
            let front = grammar::byte_at(input@, start + run);
            &&& start + run <= input@.len()
            &&& final(output)@ == input@.subrange(start as int, start + run)
            &&& run == 0 ==> match front {
                None => found is EmptyBuffer,
                Some(c) => found == SkipWhitespace::NoSkip(c),
            }
            &&& run > 0 ==> (found matches SkipWhitespace::Skip(space, next) && next == front
                && space@ == vstd::utf8::decode_utf8(final(output)@)
                && vstd::utf8::encode_utf8(space@) == final(output)@)
        }),
{
    output.clear();
    let len = input.len();
    let skipped = skip_whitespaces(input, start);
    let end = start + skipped;
    output.extend_from_slice(vstd::slice::slice_subrange(input, start, end));
    let front = if end < len {
        Some(input[end])
    } else {
        None
    };
    if skipped == 0 {
        match front {
            None => SkipWhitespace::EmptyBuffer,
            Some(c) => SkipWhitespace::NoSkip(c),
        }
    } else {
        proof {
            grammar::lemma_whitespace_run(input@, start as int);
            text::lemma_ascii_is_utf8(output@);
            vstd::utf8::decode_utf8_encode_utf8(output@);
        }
        // White space is ASCII, so the conversion cannot fail.
        match text::string_from_utf8(output.clone()) {
            Some(space) => SkipWhitespace::Skip(space, front),
            None => SkipWhitespace::EmptyBuffer,
        }
    }
}

} // verus!
