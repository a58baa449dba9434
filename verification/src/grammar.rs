//! The grammar of JSON tokens, as functions on a byte sequence and an index.
//!
//! Every function here reads `s` from index `i` on and says where the token
//! ends, what it holds, or why it is malformed.
use crate::ascii::{
    BACKSLASH, BACKSPACE, CARRIAGE_RETURN, DIGIT_0, DIGIT_1, DIGIT_9, DOT, FORM_FEED, LINE_FEED,
    LOWER_A, LOWER_B, LOWER_E, LOWER_F, LOWER_L, LOWER_N, LOWER_R, LOWER_S, LOWER_T, LOWER_U,
    MINUS, PLUS, QUOTE, SLASH, SPACE, TAB, UPPER_A, UPPER_E, UPPER_F,
};
use crate::error::{ErrorView, Literal};
use vstd::prelude::*;

verus! {

/// Space, tab, line feed and carriage return.
pub open spec fn is_whitespace(b: u8) -> bool {
    b == SPACE || b == TAB || b == LINE_FEED || b == CARRIAGE_RETURN
}

/// The decimal digits.
pub open spec fn is_digit(b: u8) -> bool {
    DIGIT_0 <= b <= DIGIT_9
}

/// The length of the longest run of white space in `s` that starts at `i`.
pub open spec fn whitespace_len(s: Seq<u8>, i: int) -> nat
    decreases s.len() - i,
{
    if 0 <= i < s.len() && is_whitespace(s[i]) {
        1 + whitespace_len(s, i + 1)
    } else {
        0
    }
}

/// The length of the longest run of digits in `s` that starts at `i`.
pub open spec fn digits_len(s: Seq<u8>, i: int) -> nat
    decreases s.len() - i,
{
    if 0 <= i < s.len() && is_digit(s[i]) {
        1 + digits_len(s, i + 1)
    } else {
        0
    }
}

/// The byte of `s` at `i`, if there is one.
pub open spec fn byte_at(s: Seq<u8>, i: int) -> Option<u8> {
    if 0 <= i < s.len() {
        Some(s[i])
    } else {
        None
    }
}

/// The letters of a literal name.
pub open spec fn literal_bytes(literal: Literal) -> Seq<u8> {
    match literal {
        Literal::True => seq![LOWER_T, LOWER_R, LOWER_U, LOWER_E],
        Literal::False => seq![LOWER_F, LOWER_A, LOWER_L, LOWER_S, LOWER_E],
        Literal::Null => seq![LOWER_N, LOWER_U, LOWER_L, LOWER_L],
    }
}

/// Where the literal name `literal` ends if it stands in `s` at `i`.
///
/// As many bytes as the name has letters are taken from `s`; they must be
/// there, and they must be the letters.
pub open spec fn literal_end(s: Seq<u8>, i: int, literal: Literal) -> Result<int, ErrorView> {
    let end = i + literal_bytes(literal).len();
    if end > s.len() {
        Err(ErrorView::UnexpectedEof)
    } else if s.subrange(i, end) == literal_bytes(literal) {
        Ok(end)
    } else {
        Err(ErrorView::InvalidLiteral { expected: literal, found: s.subrange(i, end) })
    }
}

/// Where the exponent of a number ends, if one starts at `i`; `i` itself if
/// none does.  An exponent is `e` or `E`, an optional sign, and one or more
/// digits.
pub open spec fn exponent_end(s: Seq<u8>, i: int) -> Result<int, ErrorView> {
    if byte_at(s, i) == Some(LOWER_E) || byte_at(s, i) == Some(UPPER_E) {
        match byte_at(s, i + 1) {
            None => Err(ErrorView::UnexpectedEof),
            Some(c) => if c == MINUS || c == PLUS {
                match byte_at(s, i + 2) {
                    None => Err(ErrorView::UnexpectedEof),
                    Some(d) => if is_digit(d) {
                        Ok(i + 3 + digits_len(s, i + 3))
                    } else {
                        Err(ErrorView::InvalidNumber(d))
                    },
                }
            } else if is_digit(c) {
                Ok(i + 2 + digits_len(s, i + 2))
            } else {
                Err(ErrorView::InvalidNumber(c))
            },
        }
    } else {
        Ok(i)
    }
}

/// Where a number ends whose integer part ends at `i`: behind its fraction,
/// if a `.` and one or more digits follow, and its exponent, if it has one.
pub open spec fn fraction_end(s: Seq<u8>, i: int) -> Result<int, ErrorView> {
    if byte_at(s, i) == Some(DOT) {
        match byte_at(s, i + 1) {
            None => Err(ErrorView::UnexpectedEof),
            Some(d) => if is_digit(d) {
                exponent_end(s, i + 2 + digits_len(s, i + 2))
            } else {
                Err(ErrorView::InvalidNumber(d))
            },
        }
    } else {
        exponent_end(s, i)
    }
}

/// Where the number token that starts at `i` ends.
///
/// A number is an optional `-`, an integer part that is `0` or a digit from
/// `1` to `9` followed by any digits, an optional fraction and an optional
/// exponent.  The token is the longest such text at `i`; where the grammar
/// is broken the error carries the byte that breaks it.
pub open spec fn number_end(s: Seq<u8>, i: int) -> Result<int, ErrorView> {
    let first = if byte_at(s, i) == Some(MINUS) {
        i + 1
    } else {
        i
    };
    match byte_at(s, first) {
        None => Err(ErrorView::UnexpectedEof),
        Some(c) => if c == DIGIT_0 {
            fraction_end(s, first + 1)
        } else if DIGIT_1 <= c <= DIGIT_9 {
            fraction_end(s, first + 1 + digits_len(s, first + 1))
        } else {
            Err(ErrorView::InvalidNumber(c))
        },
    }
}

/// The value of a hexadecimal digit.
pub open spec fn hex_digit(b: u8) -> Option<int> {
    if DIGIT_0 <= b <= DIGIT_9 {
        Some(b - DIGIT_0)
    } else if LOWER_A <= b <= LOWER_F {
        Some(b - LOWER_A + 10)
    } else if UPPER_A <= b <= UPPER_F {
        Some(b - UPPER_A + 10)
    } else {
        None
    }
}

/// The number that `s` spells in hexadecimal digits, or the first byte of
/// `s` that is no such digit.
pub open spec fn hex_value(s: Seq<u8>) -> Result<int, ErrorView>
    decreases s.len(),
{
    if s.len() == 0 {
        Ok(0)
    } else {
        match hex_value(s.drop_last()) {
            Err(e) => Err(e),
            Ok(v) => match hex_digit(s.last()) {
                None => Err(ErrorView::InvalidHexDigit(s.last())),
                Some(d) => Ok(16 * v + d),
            },
        }
    }
}

/// The code units that UTF-16 sets aside for pairs.
pub open spec fn is_surrogate(unit: int) -> bool {
    0xD800 <= unit <= 0xDFFF
}

/// The second half of the surrogates, which ends a pair.
pub open spec fn is_low_surrogate(unit: int) -> bool {
    0xDC00 <= unit <= 0xDFFF
}

/// The code point that a pair of code units stands for.
pub open spec fn combine_surrogates(high: u32, low: u32) -> u32 {
    (0x10000 + ((high & 0x03FF) << 10) + (low & 0x03FF)) as u32
}

/// A `\u` escape whose four digits start at `i`: the UTF-8 bytes of the
/// character it names, and where it ends.
///
/// Four hexadecimal digits name a code unit.  Unless it is a surrogate, it
/// is the character.  A surrogate starts a pair: a second `\u` escape must
/// follow it at once, and the code unit that it names must be a low
/// surrogate; the two are combined by [`combine_surrogates`].  A first code
/// unit from the low half of the surrogates starts a pair as one from the
/// high half does.
pub open spec fn unicode_escape(s: Seq<u8>, i: int) -> Result<(Seq<u8>, int), ErrorView> {
    if i + 4 > s.len() {
        Err(ErrorView::UnexpectedEof)
    } else {
        match hex_value(s.subrange(i, i + 4)) {
            Err(e) => Err(e),
            Ok(unit) => if !is_surrogate(unit) {
                Ok((vstd::utf8::encode_scalar(unit as u32), i + 4))
            } else if i + 10 > s.len() {
                Err(ErrorView::UnexpectedEof)
            } else if s[i + 4] != BACKSLASH || s[i + 5] != LOWER_U {
                Err(ErrorView::LoneSurrogate(unit as u32))
            } else {
                match hex_value(s.subrange(i + 6, i + 10)) {
                    Err(e) => Err(e),
                    Ok(low) => if is_low_surrogate(low) {
                        Ok(
                            (
                                vstd::utf8::encode_scalar(
                                    combine_surrogates(unit as u32, low as u32),
                                ),
                                i + 10,
                            ),
                        )
                    } else {
                        Err(ErrorView::InvalidSurrogatePair(unit as u32, low as u32))
                    },
                }
            },
        }
    }
}

/// The escape whose name (the byte behind the backslash) stands at `i`: the
/// bytes it stands for, and where it ends.
pub open spec fn escape(s: Seq<u8>, i: int) -> Result<(Seq<u8>, int), ErrorView> {
    match byte_at(s, i) {
        None => Err(ErrorView::UnexpectedEof),
        Some(c) => if c == QUOTE || c == BACKSLASH || c == SLASH {
            Ok((seq![c], i + 1))
        } else if c == LOWER_B {
            Ok((seq![BACKSPACE], i + 1))
        } else if c == LOWER_F {
            Ok((seq![FORM_FEED], i + 1))
        } else if c == LOWER_N {
            Ok((seq![LINE_FEED], i + 1))
        } else if c == LOWER_R {
            Ok((seq![CARRIAGE_RETURN], i + 1))
        } else if c == LOWER_T {
            Ok((seq![TAB], i + 1))
        } else if c == LOWER_U {
            unicode_escape(s, i + 1)
        } else {
            Err(ErrorView::InvalidEscape(c))
        },
    }
}

/// `head` put in front of the bytes that `rest` holds, if it holds any.
pub open spec fn prepend(head: Seq<u8>, rest: Result<(Seq<u8>, int), ErrorView>) -> Result<
    (Seq<u8>, int),
    ErrorView,
> {
    match rest {
        Ok((bytes, end)) => Ok((head + bytes, end)),
        Err(e) => Err(e),
    }
}

/// The string whose text starts at `i`, just behind the opening quote: the
/// bytes that the text between the quotes stands for, and the index behind
/// the closing quote.
///
/// The text runs up to the first quote that no backslash escapes.  A byte
/// below `0x20` may not stand in it; a backslash starts an [`escape`]; every
/// other byte stands for itself.
pub open spec fn string_body(s: Seq<u8>, i: int) -> Result<(Seq<u8>, int), ErrorView>
    decreases s.len() - i,
{
    match byte_at(s, i) {
        None => Err(ErrorView::UnexpectedEof),
        Some(c) => if c == QUOTE {
            Ok((Seq::empty(), i + 1))
        } else if c == BACKSLASH {
            match escape(s, i + 1) {
                Err(e) => Err(e),
                Ok((bytes, next)) => prepend(bytes, string_body(s, next)),
            }
        } else if c < 0x20 {
            Err(ErrorView::ControlCharacter(c))
        } else {
            prepend(seq![c], string_body(s, i + 1))
        },
    }
}

/// A run of white space ends inside `s`, holds white space only, and is not
/// followed by white space.
pub proof fn lemma_whitespace_run(s: Seq<u8>, i: int)
    requires
        0 <= i <= s.len(),
    ensures
        i + whitespace_len(s, i) <= s.len(),
        forall|k: int|
            i <= k < i + whitespace_len(s, i) ==> is_whitespace(#[trigger] s[k]),
        whitespace_len(s, i + whitespace_len(s, i)) == 0,
    decreases s.len() - i,
{
    if i < s.len() && is_whitespace(s[i]) {
        lemma_whitespace_run(s, i + 1);
    }
}

/// A run of digits ends inside `s`, holds digits only, and is not followed
/// by a digit.
pub proof fn lemma_digits_run(s: Seq<u8>, i: int)
    requires
        0 <= i <= s.len(),
    ensures
        i + digits_len(s, i) <= s.len(),
        forall|k: int| i <= k < i + digits_len(s, i) ==> is_digit(#[trigger] s[k]),
        digits_len(s, i + digits_len(s, i)) == 0,
    decreases s.len() - i,
{
    if i < s.len() && is_digit(s[i]) {
        lemma_digits_run(s, i + 1);
    }
}

/// An exponent ends inside `s` and holds ASCII only.
pub proof fn lemma_exponent_is_ascii(s: Seq<u8>, i: int)
    requires
        0 <= i <= s.len(),
        exponent_end(s, i) is Ok,
    ensures
        i <= exponent_end(s, i)->Ok_0 <= s.len(),
        forall|k: int| i <= k < exponent_end(s, i)->Ok_0 ==> #[trigger] s[k] < 0x80,
{
    if i + 2 <= s.len() {
        lemma_digits_run(s, i + 2);
    }
    if i + 3 <= s.len() {
        lemma_digits_run(s, i + 3);
    }
}

/// A fraction and the exponent behind it end inside `s` and hold ASCII
/// only.
pub proof fn lemma_fraction_is_ascii(s: Seq<u8>, i: int)
    requires
        0 <= i <= s.len(),
        fraction_end(s, i) is Ok,
    ensures
        i <= fraction_end(s, i)->Ok_0 <= s.len(),
        forall|k: int| i <= k < fraction_end(s, i)->Ok_0 ==> #[trigger] s[k] < 0x80,
{
    if byte_at(s, i) == Some(DOT) {
        lemma_digits_run(s, i + 2);
        lemma_exponent_is_ascii(s, i + 2 + digits_len(s, i + 2));
    } else {
        lemma_exponent_is_ascii(s, i);
    }
}

/// A number token is not empty, ends inside `s` and holds ASCII only.
pub proof fn lemma_number_is_ascii(s: Seq<u8>, i: int)
    requires
        0 <= i <= s.len(),
        number_end(s, i) is Ok,
    ensures
        i < number_end(s, i)->Ok_0 <= s.len(),
        crate::text::is_ascii(s.subrange(i, number_end(s, i)->Ok_0)),
{
    let first = if byte_at(s, i) == Some(MINUS) {
        i + 1
    } else {
        i
    };
    let c = s[first];
    let middle = if c == DIGIT_0 {
        first + 1
    } else {
        first + 1 + digits_len(s, first + 1)
    };
    lemma_digits_run(s, first + 1);
    lemma_fraction_is_ascii(s, middle);
    let end = number_end(s, i)->Ok_0;
    assert forall|k: int| 0 <= k < end - i implies #[trigger] s.subrange(i, end)[k] < 0x80 by {
        assert(s[i + k] < 0x80);
    }
}

/// Sixteen to the power `n`.
pub open spec fn pow16(n: nat) -> int
    decreases n,
{
    if n == 0 {
        1
    } else {
        16 * pow16((n - 1) as nat)
    }
}

/// A hexadecimal number of `n` digits is below sixteen to the power `n`.
pub proof fn lemma_hex_value_bound(s: Seq<u8>)
    ensures
        hex_value(s) matches Ok(v) ==> 0 <= v < pow16(s.len()),
    decreases s.len(),
{
    if s.len() > 0 {
        lemma_hex_value_bound(s.drop_last());
    }
}

/// Once a prefix of `s` holds a byte that is no hexadecimal digit, `s` as a
/// whole fails at that byte.
pub proof fn lemma_hex_error_extends(s: Seq<u8>, n: int)
    requires
        0 <= n <= s.len(),
        hex_value(s.take(n)) is Err,
    ensures
        hex_value(s) == hex_value(s.take(n)),
    decreases s.len() - n,
{
    if n < s.len() {
        assert(s.take(n + 1).drop_last() =~= s.take(n));
        lemma_hex_error_extends(s, n + 1);
    } else {
        assert(s.take(n) =~= s);
    }
}

/// A string token ends inside `s`, behind where it starts.
pub proof fn lemma_string_body_end(s: Seq<u8>, i: int)
    requires
        0 <= i <= s.len(),
        string_body(s, i) is Ok,
    ensures
        i < string_body(s, i)->Ok_0.1 <= s.len(),
    decreases s.len() - i,
{
    let c = s[i];
    if c == QUOTE {
    } else if c == BACKSLASH {
        let (bytes, next) = escape(s, i + 1)->Ok_0;
        lemma_string_body_end(s, next);
    } else {
        lemma_string_body_end(s, i + 1);
    }
}

/// Hexadecimal digits fail only for a byte that is no such digit.
pub proof fn lemma_hex_errors(s: Seq<u8>)
    ensures
        hex_value(s) matches Err(e) ==> e is InvalidHexDigit,
    decreases s.len(),
{
    if s.len() > 0 {
        lemma_hex_errors(s.drop_last());
    }
}

/// A string token fails only as a string or for the end of the input.
pub proof fn lemma_string_errors(s: Seq<u8>, i: int)
    requires
        0 <= i,
    ensures
        string_body(s, i) matches Err(e) ==> e.kind()
            == crate::error::JsonErrorKind::InvalidString || e == ErrorView::UnexpectedEof,
    decreases s.len() - i,
{
    if i < s.len() {
        let c = s[i];
        if c == BACKSLASH {
            if i + 6 <= s.len() {
                lemma_hex_errors(s.subrange(i + 2, i + 6));
            }
            if i + 12 <= s.len() {
                lemma_hex_errors(s.subrange(i + 8, i + 12));
            }
            match escape(s, i + 1) {
                Ok((_, next)) => {
                    lemma_string_errors(s, next);
                },
                Err(_) => {},
            }
        } else if c != QUOTE && c >= 0x20 {
            lemma_string_errors(s, i + 1);
        }
    }
}

/// The value of four hexadecimal digits.
pub proof fn lemma_hex_value_of_four(digits: Seq<u8>)
    requires
        digits.len() == 4,
        forall|k: int| 0 <= k < 4 ==> hex_digit(#[trigger] digits[k]) is Some,
    ensures
        hex_value(digits) == Ok::<int, ErrorView>(
            16 * (16 * (16 * hex_digit(digits[0])->0 + hex_digit(digits[1])->0)
                + hex_digit(digits[2])->0) + hex_digit(digits[3])->0,
        ),
{
    let three = digits.drop_last();
    let two = three.drop_last();
    let one = two.drop_last();
    assert(one.drop_last().len() == 0);
    assert(hex_value(one.drop_last()) == Ok::<int, ErrorView>(0));
    assert(one.last() == digits[0]);
    assert(hex_value(one) == Ok::<int, ErrorView>(hex_digit(digits[0])->0));
    assert(two.last() == digits[1]);
    assert(hex_value(two) == Ok::<int, ErrorView>(
        16 * hex_digit(digits[0])->0 + hex_digit(digits[1])->0,
    ));
    assert(three.last() == digits[2]);
    assert(hex_value(three) == Ok::<int, ErrorView>(
        16 * (16 * hex_digit(digits[0])->0 + hex_digit(digits[1])->0)
            + hex_digit(digits[2])->0,
    ));
    assert(digits.last() == digits[3]);
}

} // verus!
