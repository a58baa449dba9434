//! The writer: from events back to text.
use crate::ascii::{
    BACKSLASH, BACKSPACE, CARRIAGE_RETURN, CLOSE_BRACE, CLOSE_BRACKET, COLON, COMMA, DIGIT_0,
    FORM_FEED, LINE_FEED, LOWER_A, LOWER_B, LOWER_E, LOWER_F, LOWER_L, LOWER_N, LOWER_R, LOWER_S,
    LOWER_T, LOWER_U, OPEN_BRACE, OPEN_BRACKET, QUOTE, TAB, UPPER_A,
};
use crate::error::JsonError;
use crate::event::{cow_as_str, EventView, JsonEvent};
use vstd::prelude::*;

verus! {

/// The upper-case hexadecimal digit for a value below sixteen.
pub open spec fn hex_upper(d: u8) -> u8 {
    if d < 10 {
        (DIGIT_0 + d) as u8
    } else {
        (UPPER_A + (d - 10)) as u8
    }
}

/// How one byte of text is written inside a JSON string: `"` and `\` behind
/// a backslash, the five control bytes that have a short name by that name,
/// every other byte below `0x20` as `\u00` and two hexadecimal digits, and
/// any other byte as it is.
pub open spec fn escaped_byte(b: u8) -> Seq<u8> {
    if b == QUOTE {
        seq![BACKSLASH, QUOTE]
    } else if b == BACKSLASH {
        seq![BACKSLASH, BACKSLASH]
    } else if b == BACKSPACE {
        seq![BACKSLASH, LOWER_B]
    } else if b == FORM_FEED {
        seq![BACKSLASH, LOWER_F]
    } else if b == LINE_FEED {
        seq![BACKSLASH, LOWER_N]
    } else if b == CARRIAGE_RETURN {
        seq![BACKSLASH, LOWER_R]
    } else if b == TAB {
        seq![BACKSLASH, LOWER_T]
    } else if b < 0x20 {
        seq![BACKSLASH, LOWER_U, DIGIT_0, DIGIT_0, hex_upper(b / 16), hex_upper(b % 16)]
    } else {
        seq![b]
    }
}

/// The bytes of a text, each written as [`escaped_byte`] says.
pub open spec fn escaped(bytes: Seq<u8>) -> Seq<u8>
    decreases bytes.len(),
{
    if bytes.len() == 0 {
        Seq::empty()
    } else {
        escaped(bytes.drop_last()) + escaped_byte(bytes.last())
    }
}

/// A text as a JSON string token: its UTF-8 bytes, escaped, between quotes.
pub open spec fn quoted(text: Seq<char>) -> Seq<u8> {
    seq![QUOTE] + escaped(vstd::utf8::encode_utf8(text)) + seq![QUOTE]
}

/// The bytes that the writer emits for one event.
pub open spec fn event_bytes(event: EventView) -> Seq<u8> {
    match event {
        EventView::WhiteSpace(text) => vstd::utf8::encode_utf8(text),
        EventView::String(text) => quoted(text),
        EventView::ObjectKey(text) => quoted(text) + seq![COLON],
        EventView::Number(text) => vstd::utf8::encode_utf8(text),
        EventView::Boolean(true) => seq![LOWER_T, LOWER_R, LOWER_U, LOWER_E],
        EventView::Boolean(false) => seq![LOWER_F, LOWER_A, LOWER_L, LOWER_S, LOWER_E],
        EventView::Null => seq![LOWER_N, LOWER_U, LOWER_L, LOWER_L],
        EventView::StartObject => seq![OPEN_BRACE],
        EventView::EndObject => seq![CLOSE_BRACE],
        EventView::StartArray => seq![OPEN_BRACKET],
        EventView::EndArray => seq![CLOSE_BRACKET],
        EventView::NextObjectValue => seq![COMMA],
        EventView::NextArrayValue => seq![COMMA],
        EventView::Eof => Seq::empty(),
    }
}

/// The bytes that the writer emits for a sequence of events, in order.
pub open spec fn events_bytes(events: Seq<EventView>) -> Seq<u8>
    decreases events.len(),
{
    if events.len() == 0 {
        Seq::empty()
    } else {
        events_bytes(events.drop_last()) + event_bytes(events.last())
    }
}

/// Escaping a text piece by piece gives the same as escaping it whole.
pub proof fn lemma_escaped_concat(a: Seq<u8>, b: Seq<u8>)
    ensures
        escaped(a + b) == escaped(a) + escaped(b),
    decreases b.len(),
{
    if b.len() == 0 {
        assert(a + b =~= a);
        assert(escaped(a) + escaped(b) =~= escaped(a));
    } else {
        assert((a + b).drop_last() =~= a + b.drop_last());
        assert((a + b).last() == b.last());
        lemma_escaped_concat(a, b.drop_last());
        assert(escaped(a + b) =~= escaped(a) + escaped(b));
    }
}

/// Appends to `sink` the two bytes of a short escape or the six of a `\u00`
/// escape, or the byte itself, as [`escaped_byte`] says.
fn write_escaped_byte(b: u8, sink: &mut Vec<u8>)
    ensures
        final(sink)@ == old(sink)@ + escaped_byte(b),
{
    let ghost before = sink@;
    if b == QUOTE {
        sink.push(BACKSLASH);
        sink.push(QUOTE);
    } else if b == BACKSLASH {
        sink.push(BACKSLASH);
        sink.push(BACKSLASH);
    } else if b == BACKSPACE {
        sink.push(BACKSLASH);
        sink.push(LOWER_B);
    } else if b == FORM_FEED {
        sink.push(BACKSLASH);
        sink.push(LOWER_F);
    } else if b == LINE_FEED {
        sink.push(BACKSLASH);
        sink.push(LOWER_N);
    } else if b == CARRIAGE_RETURN {
        sink.push(BACKSLASH);
        sink.push(LOWER_R);
    } else if b == TAB {
        sink.push(BACKSLASH);
        sink.push(LOWER_T);
    } else if b < 0x20 {
        let high: u8 = b / 16;
        let low: u8 = b % 16;
        sink.push(BACKSLASH);
        sink.push(LOWER_U);
        sink.push(DIGIT_0);
        sink.push(DIGIT_0);
        sink.push(if high < 10 { DIGIT_0 + high } else { UPPER_A + (high - 10) });
        sink.push(if low < 10 { DIGIT_0 + low } else { UPPER_A + (low - 10) });
    } else {
        sink.push(b);
    }
    assert(sink@ =~= before + escaped_byte(b));
}

/// Appends `s` to `sink` as a JSON string token.
pub(crate) fn write_escaped_json_string(s: &str, sink: &mut Vec<u8>)
    ensures
        final(sink)@ == old(sink)@ + quoted(s@),
{
    let ghost before = sink@;
    let bytes = s.as_bytes();
    sink.push(QUOTE);
    let mut i: usize = 0;
    while i < bytes.len()
        invariant
            i <= bytes@.len(),
            sink@ == before + seq![QUOTE] + escaped(bytes@.take(i as int)),
        decreases bytes@.len() - i,
    {
        write_escaped_byte(bytes[i], sink);
        proof {
            assert(bytes@.take(i + 1).drop_last() =~= bytes@.take(i as int));
            assert(bytes@.take(i + 1).last() == bytes@[i as int]);
        }
        i = i + 1;
    }
    sink.push(QUOTE);
    proof {
        assert(bytes@.take(i as int) =~= bytes@);
        assert(sink@ =~= before + quoted(s@));
    }
}

/// Appends `bytes` to `sink`.
fn write_all(bytes: &[u8], sink: &mut Vec<u8>)
    ensures
        final(sink)@ == old(sink)@ + bytes@,
{
    sink.extend_from_slice(bytes);
}

/// Turns events into JSON text, one event at a time, in a buffer of its own.
///
/// The writer checks nothing: it writes whatever sequence of events it is
/// given, well-formed or not.
pub struct JsonWriter {
    writer: Vec<u8>,
}

impl View for JsonWriter {
    type V = Seq<u8>;

    /// Everything written so far.
    closed spec fn view(&self) -> Seq<u8> {
        self.writer@
    }
}

impl JsonWriter {
    /// A writer that appends to `writer`.
    pub fn from_writer(writer: Vec<u8>) -> (w: Self)
        ensures
            w@ == writer@,
    {
        JsonWriter { writer }
    }

    /// Appends the text of `event`; see [`event_bytes`].  Writing to memory
    /// cannot fail, so the result is always `Ok`.
    pub fn write_event(&mut self, event: JsonEvent) -> (r: Result<(), JsonError>)
        ensures
            r is Ok,
            final(self)@ == old(self)@ + event_bytes(event@),
    {
        let ghost before = self.writer@;
        match event {
            JsonEvent::WhiteSpace(whitespace) => {
                write_all(whitespace.as_str().as_bytes(), &mut self.writer);
            },
            JsonEvent::String(string) => {
                write_escaped_json_string(cow_as_str(&string), &mut self.writer);
            },
            JsonEvent::Number(number) => {
                write_all(cow_as_str(&number).as_bytes(), &mut self.writer);
            },
            JsonEvent::Boolean(boolean) => {
                if boolean {
                    self.writer.push(LOWER_T);
                    self.writer.push(LOWER_R);
                    self.writer.push(LOWER_U);
                    self.writer.push(LOWER_E);
                } else {
                    self.writer.push(LOWER_F);
                    self.writer.push(LOWER_A);
                    self.writer.push(LOWER_L);
                    self.writer.push(LOWER_S);
                    self.writer.push(LOWER_E);
                }
            },
            JsonEvent::Null => {
                self.writer.push(LOWER_N);
                self.writer.push(LOWER_U);
                self.writer.push(LOWER_L);
                self.writer.push(LOWER_L);
            },
            JsonEvent::StartObject => {
                self.writer.push(OPEN_BRACE);
            },
            JsonEvent::NextObjectValue => {
                self.writer.push(COMMA);
            },
            JsonEvent::EndObject => {
                self.writer.push(CLOSE_BRACE);
            },
            JsonEvent::ObjectKey(key) => {
                write_escaped_json_string(cow_as_str(&key), &mut self.writer);
                self.writer.push(COLON);
            },
            JsonEvent::StartArray => {
                self.writer.push(OPEN_BRACKET);
            },
            JsonEvent::NextArrayValue => {
                self.writer.push(COMMA);
            },
            JsonEvent::EndArray => {
                self.writer.push(CLOSE_BRACKET);
            },
            JsonEvent::Eof => {},
        }
        assert(self.writer@ =~= before + event_bytes(event@));
        Ok(())
    }

    /// The buffer, with everything that was written.
    pub fn into_inner(self) -> (bytes: Vec<u8>)
        ensures
            bytes@ == self@,
    {
        self.writer
    }
}

} // verus!
