//! What holds of the reader and the writer together.
use crate::ascii::{CLOSE_BRACE, CLOSE_BRACKET, QUOTE};
use crate::error::ErrorView;
use crate::event::EventView;
use crate::grammar;
use crate::read::{JsonState, ReaderView};
use crate::text;
use vstd::prelude::*;

verus! {

/// The bytes of two sequences of events, one after the other, are the bytes
/// of the first followed by the bytes of the second.
pub proof fn lemma_events_bytes_concat(a: Seq<EventView>, b: Seq<EventView>)
    ensures
        crate::write::events_bytes(a + b) == crate::write::events_bytes(a) + crate::write::events_bytes(b),
    decreases b.len(),
{
    if b.len() == 0 {
        assert(a + b =~= a);
        assert(crate::write::events_bytes(a) + crate::write::events_bytes(b) =~= crate::write::events_bytes(a));
    } else {
        assert((a + b).drop_last() =~= a + b.drop_last());
        assert((a + b).last() == b.last());
        lemma_events_bytes_concat(a, b.drop_last());
        assert(crate::write::events_bytes(a + b) =~= crate::write::events_bytes(a) + crate::write::events_bytes(b));
    }
}

/// The bytes of a single event, taken as a sequence of one.
pub proof fn lemma_events_bytes_one(event: EventView)
    ensures
        crate::write::events_bytes(seq![event]) == crate::write::event_bytes(event),
{
    let one = seq![event];
    assert(one.drop_last() =~= Seq::<EventView>::empty());
    assert(crate::write::events_bytes(one.drop_last()) =~= Seq::<u8>::empty());
    assert(one.last() == event);
    assert(crate::write::events_bytes(one) =~= crate::write::event_bytes(event));
}

/// A run of white space, read as an event and written again, is the run.
pub proof fn lemma_whitespace_text(s: Seq<u8>, i: int)
    requires
        0 <= i <= s.len(),
    ensures
        i + grammar::whitespace_len(s, i) <= s.len(),
        crate::write::event_bytes(
            EventView::WhiteSpace(
                crate::read::token_text(s, i, i + grammar::whitespace_len(s, i)),
            ),
        ) == s.subrange(i, i + grammar::whitespace_len(s, i)),
{
    grammar::lemma_whitespace_run(s, i);
    let run = s.subrange(i, i + grammar::whitespace_len(s, i));
    assert(text::is_ascii(run)) by {
        assert forall|k: int| 0 <= k < run.len() implies #[trigger] run[k] < 0x80 by {
            assert(grammar::is_whitespace(s[i + k]));
        }
    }
    text::lemma_ascii_is_utf8(run);
    vstd::utf8::decode_utf8_encode_utf8(run);
}

/// A number token, read as an event and written again, is the token: the
/// reader keeps the spelling of a number.
pub proof fn lemma_number_text(s: Seq<u8>, i: int)
    requires
        0 <= i <= s.len(),
        grammar::number_end(s, i) is Ok,
    ensures
        i < grammar::number_end(s, i)->Ok_0 <= s.len(),
        crate::write::event_bytes(
            EventView::Number(crate::read::token_text(s, i, grammar::number_end(s, i)->Ok_0)),
        ) == s.subrange(i, grammar::number_end(s, i)->Ok_0),
{
    grammar::lemma_number_is_ascii(s, i);
    let token = s.subrange(i, grammar::number_end(s, i)->Ok_0);
    text::lemma_ascii_is_utf8(token);
    vstd::utf8::decode_utf8_encode_utf8(token);
}

impl ReaderView {
    /// Whether the innermost open container expects an object key next.
    pub open spec fn expects_key(self) -> bool {
        self.stack.len() > 0 && (self.stack.last() == JsonState::FirstObjectKey
            || self.stack.last() == JsonState::NextObjectKey)
    }

    /// Whether the next read keeps the spelling of what it reads.
    ///
    /// It does unless it reads a string.  A string keeps its spelling where
    /// the document spells it as the writer would, and, if it is an object
    /// key, where its colon follows it at once: white space between a key
    /// and its colon is handed out before the key.
    pub open spec fn reads_verbatim(self) -> bool {
        self.pending.len() == 0 && self.run() == 0 && self.front() == Some(QUOTE)
            ==> match grammar::string_body(self.input, self.pos + 1) {
            Ok((bytes, end)) => vstd::utf8::valid_utf8(bytes) ==> {
                &&& crate::write::quoted(vstd::utf8::decode_utf8(bytes)) == self.input.subrange(
                    self.pos,
                    end,
                )
                &&& self.expects_key() ==> grammar::whitespace_len(self.input, end) == 0
            },
            Err(_) => true,
        }
    }

    /// What `n` reads in a row give: the events, in order, and the state
    /// behind them, or the first error.
    pub open spec fn reads(self, n: nat) -> Result<(Seq<EventView>, ReaderView), ErrorView>
        decreases n,
    {
        if n == 0 {
            Ok((Seq::empty(), self))
        } else {
            match self.reads((n - 1) as nat) {
                Err(e) => Err(e),
                Ok((events, state)) => match state.next_event() {
                    Err(e) => Err(e),
                    Ok((event, after)) => Ok((events.push(event), after)),
                },
            }
        }
    }

    /// Whether each of `n` reads in a row keeps the spelling of what it
    /// reads.
    pub open spec fn reads_verbatim_for(self, n: nat) -> bool
        decreases n,
    {
        n > 0 ==> {
            &&& self.reads_verbatim_for((n - 1) as nat)
            &&& match self.reads((n - 1) as nat) {
                Ok((_, state)) => state.reads_verbatim(),
                Err(_) => true,
            }
        }
    }
}

/// Completing a value whose bytes were just read keeps the text: the bytes
/// from the start of the value to the new position are those of the event
/// handed out followed by those of the events queued behind it.
proof fn lemma_after_value_keeps_text(state: ReaderView, value: EventView, from: int)
    requires
        state.wf(),
        state.pending.len() == 0,
        0 <= from <= state.pos,
        value != EventView::Eof,
        state.after_value(value) is Ok,
        crate::write::event_bytes(value) == state.input.subrange(from, state.pos),
        value is String && state.expects_key() ==> state.run() == 0,
    ensures
        ({
            let (event, after) = state.after_value(value)->Ok_0;
            &&& after.wf()
            &&& after.input == state.input
            &&& after.max_stack_size == state.max_stack_size
            &&& state.pos <= after.pos
            &&& event != EventView::Eof
            &&& state.input.subrange(from, after.pos) == crate::write::event_bytes(event)
                + crate::write::events_bytes(after.pending)
        }),
{
    let (event, after) = state.after_value(value)->Ok_0;
    let s = state.input;
    let end = state.pos + state.run();
    lemma_whitespace_text(s, state.pos);
    let space = EventView::WhiteSpace(crate::read::token_text(s, state.pos, end));
    lemma_events_bytes_one(space);
    reveal_with_fuel(crate::write::events_bytes, 3);
    if state.stack.len() == 0 {
        assert(crate::write::event_bytes(event) + crate::write::events_bytes(after.pending)
            =~= crate::write::event_bytes(event));
    } else if state.expects_key() {
        let key = EventView::ObjectKey(value->String_0);
        lemma_events_bytes_one(key);
        if state.run() == 0 {
            assert(state.input.subrange(from, after.pos) =~= crate::write::event_bytes(event)
                + crate::write::events_bytes(after.pending));
        } else {
            assert(value !is String);
        }
    } else {
        let separator = if state.stack.last() == JsonState::ObjectValue {
            EventView::NextObjectValue
        } else {
            EventView::NextArrayValue
        };
        lemma_events_bytes_one(separator);
        let spaces = if state.run() == 0 {
            Seq::<EventView>::empty()
        } else {
            seq![space]
        };
        if s[end] == crate::ascii::COMMA {
            assert(after.pending =~= spaces + seq![separator]);
            lemma_events_bytes_concat(spaces, seq![separator]);
            assert(state.input.subrange(from, after.pos) =~= crate::write::event_bytes(event)
                + crate::write::events_bytes(after.pending));
        } else {
            assert(after.pending =~= spaces);
            assert(state.input.subrange(from, after.pos) =~= crate::write::event_bytes(event)
                + crate::write::events_bytes(after.pending));
        }
    }
}

/// One read keeps the text.
///
/// Where a read succeeds and keeps the spelling of what it reads, the bytes
/// of the events that were pending followed by the bytes that the read
/// passes over are the bytes of the event it hands out followed by the bytes
/// of the events that are pending afterwards.  The end of the input is
/// reported only when nothing is pending and nothing is left.
pub proof fn lemma_read_keeps_text(state: ReaderView)
    requires
        state.wf(),
        state.next_event() is Ok,
        state.reads_verbatim(),
    ensures
        ({
            let (event, after) = state.next_event()->Ok_0;
            &&& after.wf()
            &&& after.input == state.input
            &&& after.max_stack_size == state.max_stack_size
            &&& state.pos <= after.pos
            &&& crate::write::events_bytes(state.pending) + state.input.subrange(state.pos, after.pos)
                == crate::write::event_bytes(event) + crate::write::events_bytes(after.pending)
            &&& event == EventView::Eof ==> after == state && state.pending.len() == 0
                && state.pos == state.input.len()
        }),
{
    let (event, after) = state.next_event()->Ok_0;
    let s = state.input;
    if state.pending.len() > 0 {
        assert(state.pending =~= seq![event] + after.pending);
        lemma_events_bytes_concat(seq![event], after.pending);
        lemma_events_bytes_one(event);
        assert(crate::write::events_bytes(state.pending) + s.subrange(state.pos, after.pos)
            =~= crate::write::event_bytes(event) + crate::write::events_bytes(after.pending));
    } else {
        assert(crate::write::events_bytes(state.pending) =~= Seq::<u8>::empty());
        if state.run() > 0 {
            lemma_whitespace_text(s, state.pos);
            assert(Seq::<u8>::empty() + s.subrange(state.pos, after.pos) =~= crate::write::event_bytes(
                event,
            ) + crate::write::events_bytes(after.pending));
        } else {
            lemma_token_keeps_text(state);
            assert(Seq::<u8>::empty() + s.subrange(state.pos, after.pos) =~= s.subrange(
                state.pos,
                after.pos,
            ));
        }
    }
}

/// Reading a token keeps the text.
proof fn lemma_token_keeps_text(state: ReaderView)
    requires
        state.wf(),
        state.pending.len() == 0,
        state.run() == 0,
        state.token() is Ok,
        state.reads_verbatim(),
    ensures
        ({
            let (event, after) = state.token()->Ok_0;
            &&& after.wf()
            &&& after.input == state.input
            &&& after.max_stack_size == state.max_stack_size
            &&& state.pos <= after.pos
            &&& state.input.subrange(state.pos, after.pos) == crate::write::event_bytes(event)
                + crate::write::events_bytes(after.pending)
            &&& event == EventView::Eof ==> after == state && state.pos == state.input.len()
        }),
{
    let (event, after) = state.token()->Ok_0;
    let s = state.input;
    match state.front() {
        None => {
            assert(s.subrange(state.pos, after.pos) =~= crate::write::event_bytes(event)
                + crate::write::events_bytes(after.pending));
        },
        Some(c) => {
            if c == crate::ascii::OPEN_BRACE || c == crate::ascii::OPEN_BRACKET {
                assert(s.subrange(state.pos, after.pos) =~= crate::write::event_bytes(event)
                    + crate::write::events_bytes(after.pending));
            } else if c == CLOSE_BRACE || c == CLOSE_BRACKET {
                let closed = state.at(state.pos + 1).with_stack(state.stack.drop_last());
                let value = if c == CLOSE_BRACE {
                    EventView::EndObject
                } else {
                    EventView::EndArray
                };
                assert(crate::write::event_bytes(value) =~= s.subrange(state.pos, state.pos + 1));
                lemma_after_value_keeps_text(closed, value, state.pos);
            } else if c == QUOTE {
                let (bytes, end) = grammar::string_body(s, state.pos + 1)->Ok_0;
                grammar::lemma_string_body_end(s, state.pos + 1);
                let value = EventView::String(vstd::utf8::decode_utf8(bytes));
                lemma_after_value_keeps_text(state.at(end), value, state.pos);
            } else if c == crate::ascii::LOWER_T || c == crate::ascii::LOWER_F || c
                == crate::ascii::LOWER_N {
                let literal = if c == crate::ascii::LOWER_T {
                    crate::error::Literal::True
                } else if c == crate::ascii::LOWER_F {
                    crate::error::Literal::False
                } else {
                    crate::error::Literal::Null
                };
                let value = if c == crate::ascii::LOWER_T {
                    EventView::Boolean(true)
                } else if c == crate::ascii::LOWER_F {
                    EventView::Boolean(false)
                } else {
                    EventView::Null
                };
                let end = grammar::literal_end(s, state.pos, literal)->Ok_0;
                assert(crate::write::event_bytes(value) =~= grammar::literal_bytes(literal));
                lemma_after_value_keeps_text(state.at(end), value, state.pos);
            } else {
                let end = grammar::number_end(s, state.pos)->Ok_0;
                lemma_number_text(s, state.pos);
                let value = EventView::Number(crate::read::token_text(s, state.pos, end));
                lemma_after_value_keeps_text(state.at(end), value, state.pos);
            }
        },
    }
}

/// Any number of reads in a row keep the text.
///
/// Where `n` reads succeed and each keeps the spelling of what it reads,
/// the bytes of the events that were pending followed by the bytes passed
/// over are the bytes of the events handed out followed by the bytes of the
/// events that are pending afterwards.
pub proof fn lemma_reads_keep_text(state: ReaderView, n: nat)
    requires
        state.wf(),
        state.reads(n) is Ok,
        state.reads_verbatim_for(n),
    ensures
        ({
            let (events, after) = state.reads(n)->Ok_0;
            &&& after.wf()
            &&& after.input == state.input
            &&& after.max_stack_size == state.max_stack_size
            &&& state.pos <= after.pos
            &&& events.len() == n
            &&& crate::write::events_bytes(state.pending) + state.input.subrange(
                state.pos,
                after.pos,
            ) == crate::write::events_bytes(events) + crate::write::events_bytes(after.pending)
        }),
    decreases n,
{
    if n == 0 {
        assert(crate::write::events_bytes(state.pending) + state.input.subrange(
            state.pos,
            state.pos,
        ) =~= crate::write::events_bytes(Seq::<EventView>::empty())
            + crate::write::events_bytes(state.pending));
    } else {
        let (before, middle) = state.reads((n - 1) as nat)->Ok_0;
        let (event, after) = middle.next_event()->Ok_0;
        lemma_reads_keep_text(state, (n - 1) as nat);
        lemma_read_keeps_text(middle);
        let s = state.input;
        assert(before.push(event).drop_last() =~= before);
        lemma_chain(
            crate::write::events_bytes(state.pending),
            s,
            state.pos,
            middle.pos,
            after.pos,
            crate::write::events_bytes(before),
            crate::write::events_bytes(middle.pending),
            crate::write::event_bytes(event),
            crate::write::events_bytes(after.pending),
        );
    }
}

/// Two steps that each keep the text keep it together.
proof fn lemma_chain(
    pending: Seq<u8>,
    s: Seq<u8>,
    from: int,
    middle: int,
    to: int,
    written: Seq<u8>,
    queued: Seq<u8>,
    next: Seq<u8>,
    left: Seq<u8>,
)
    requires
        0 <= from <= middle <= to <= s.len(),
        pending + s.subrange(from, middle) == written + queued,
        queued + s.subrange(middle, to) == next + left,
    ensures
        pending + s.subrange(from, to) == (written + next) + left,
{
    assert(s.subrange(from, to) =~= s.subrange(from, middle) + s.subrange(middle, to));
    assert(pending + s.subrange(from, to) =~= (pending + s.subrange(from, middle)) + s.subrange(
        middle,
        to,
    ));
    assert((written + queued) + s.subrange(middle, to) =~= written + (queued + s.subrange(
        middle,
        to,
    )));
    assert(written + (next + left) =~= (written + next) + left);
}

/// Reading a document to its end and writing every event gives the document
/// back, byte for byte.
///
/// `input` is any document, read from its start under any limit on nesting.
/// If `n` reads succeed, the last of them reports the end of the input, and
/// each keeps the spelling of what it reads (see
/// [`ReaderView::reads_verbatim`]), then the bytes that the writer emits for
/// the events, in order, are `input`.
pub proof fn lemma_round_trip(input: Seq<u8>, max_stack_size: Option<usize>, n: nat)
    requires
        ({
            let state = ReaderView { max_stack_size, ..ReaderView::start(input) };
            &&& state.reads(n) matches Ok((events, _)) && events.len() > 0 && events.last()
                == EventView::Eof
            &&& state.reads_verbatim_for(n)
        }),
    ensures
        ({
            let state = ReaderView { max_stack_size, ..ReaderView::start(input) };
            crate::write::events_bytes(state.reads(n)->Ok_0.0) == input
        }),
{
    let state = ReaderView { max_stack_size, ..ReaderView::start(input) };
    let (events, _) = state.reads(n)->Ok_0;
    lemma_reads_keep_text(state, n);
    let (before, middle) = state.reads((n - 1) as nat)->Ok_0;
    let (event, after) = middle.next_event()->Ok_0;
    lemma_reads_keep_text(state, (n - 1) as nat);
    lemma_read_keeps_text(middle);
    assert(events == before.push(event));
    assert(before.push(event).drop_last() =~= before);
    assert(crate::write::events_bytes(state.pending) =~= Seq::<u8>::empty());
    assert(crate::write::events_bytes(middle.pending) =~= Seq::<u8>::empty());
    assert(input.subrange(0, input.len() as int) =~= input);
    assert(crate::write::events_bytes(events) =~= input);
}

/// A `}` or `]` that closes nothing that is open is reported as such: where
/// nothing is pending and the byte at the position is a closing bracket, the
/// read fails with [`ErrorView::UnmatchedClose`] unless the innermost open
/// container is of that bracket's kind and can end there.
pub proof fn lemma_unmatched_close(state: ReaderView)
    requires
        state.pending.len() == 0,
        state.front() == Some(CLOSE_BRACE) || state.front() == Some(CLOSE_BRACKET),
    ensures
        state.front() == Some(CLOSE_BRACKET) && !(state.stack.len() > 0 && (state.stack.last()
            == JsonState::FirstArray || state.stack.last() == JsonState::LastArray))
            ==> state.next_event() == Err::<(EventView, ReaderView), ErrorView>(
            ErrorView::UnmatchedClose(CLOSE_BRACKET),
        ),
        state.front() == Some(CLOSE_BRACE) && !(state.stack.len() > 0 && (state.stack.last()
            == JsonState::FirstObjectKey || state.stack.last() == JsonState::LastObjectKey))
            ==> state.next_event() == Err::<(EventView, ReaderView), ErrorView>(
            ErrorView::UnmatchedClose(CLOSE_BRACE),
        ),
{
}

/// The input may not end while an object or array is open, nor before the
/// document holds a value: where nothing is pending and only white space or
/// nothing is left, the read that meets the end of the input fails with
/// [`ErrorView::UnexpectedEof`] unless the stack is empty and a value is
/// complete.
pub proof fn lemma_eof_inside(state: ReaderView)
    requires
        state.wf(),
        state.pending.len() == 0,
        state.pos == state.input.len(),
        state.stack.len() > 0 || !state.element_read,
    ensures
        state.next_event() == Err::<(EventView, ReaderView), ErrorView>(ErrorView::UnexpectedEof),
{
}

/// The input may not end behind a value inside an object or array: where
/// such a value is complete and only white space or nothing follows it, the
/// read fails with [`ErrorView::UnexpectedEof`].
pub proof fn lemma_eof_behind_value(state: ReaderView, value: EventView)
    requires
        state.wf(),
        state.stack.len() > 0,
        state.stack.last() != JsonState::LastObjectKey,
        state.stack.last() != JsonState::LastArray,
        state.pos + state.run() == state.input.len(),
    ensures
        state.after_value(value) == Err::<(EventView, ReaderView), ErrorView>(
            ErrorView::UnexpectedEof,
        ),
{
}

/// The end of the input is reported only when every object and array is
/// closed, the document holds a value, and nothing is left to read.
pub proof fn lemma_eof_is_the_end(state: ReaderView)
    requires
        state.wf(),
        state.next_event() matches Ok((event, _)) && event == EventView::Eof,
    ensures
        state.stack.len() == 0,
        state.element_read,
        state.pos == state.input.len(),
        state.pending.len() == 0,
        state.next_event()->Ok_0.1 == state,
{
}

/// A document holds one value: once a value is complete at the top level,
/// completing another fails with [`ErrorView::TrailingContent`].
pub proof fn lemma_trailing_content(state: ReaderView, value: EventView)
    requires
        state.stack.len() == 0,
        state.element_read,
    ensures
        state.after_value(value) == Err::<(EventView, ReaderView), ErrorView>(
            ErrorView::TrailingContent,
        ),
{
}

/// A reader never holds more open objects and arrays than its limit: where
/// the stack is within the limit before a read that succeeds, it is within
/// the limit after it.
pub proof fn lemma_depth_stays_within_limit(state: ReaderView)
    requires
        state.wf(),
        state.max_stack_size is Some,
        state.stack.len() <= state.max_stack_size->0,
        state.next_event() is Ok,
    ensures
        state.next_event()->Ok_0.1.stack.len() <= state.max_stack_size->0,
        state.next_event()->Ok_0.1.max_stack_size == state.max_stack_size,
{
}

/// What the writer writes for one byte of text, the reader decodes to that
/// byte: where the escaped form of `b` stands in `s` at `i`, the string
/// that starts there holds `b` followed by what the string behind the
/// escaped form holds.
proof fn lemma_escaped_byte_reads_back(s: Seq<u8>, i: int, b: u8)
    requires
        0 <= i,
        i + crate::write::escaped_byte(b).len() <= s.len(),
        s.subrange(i, i + crate::write::escaped_byte(b).len()) == crate::write::escaped_byte(b),
    ensures
        grammar::string_body(s, i) == grammar::prepend(
            seq![b],
            grammar::string_body(s, i + crate::write::escaped_byte(b).len()),
        ),
{
    let form = crate::write::escaped_byte(b);
    let n = form.len() as int;
    assert forall|k: int| 0 <= k < n implies s[i + k] == form[k] by {
        assert(s.subrange(i, i + n)[k] == form[k]);
    }
    assert(s[i] == form[0]);
    if b < 0x20 && b != crate::ascii::BACKSPACE && b != crate::ascii::FORM_FEED && b
        != crate::ascii::LINE_FEED && b != crate::ascii::CARRIAGE_RETURN && b != crate::ascii::TAB {
        assert(s[i + 1] == form[1]);
        assert(s[i + 2] == form[2]);
        assert(s[i + 3] == form[3]);
        assert(s[i + 4] == form[4]);
        assert(s[i + 5] == form[5]);
        let digits = s.subrange(i + 2, i + 6);
        assert(digits[0] == s[i + 2]);
        assert(digits[1] == s[i + 3]);
        assert(digits[2] == s[i + 4]);
        assert(digits[3] == s[i + 5]);
        grammar::lemma_hex_value_of_four(digits);
        let unit = b as u32;
        assert(grammar::hex_value(digits) == Ok::<int, ErrorView>(b as int));
        assert((unit & 0x7F) as u8 == b) by (bit_vector)
            requires
                unit == b as u32,
                b < 0x20,
        ;
        assert(vstd::utf8::encode_scalar(unit) =~= seq![b]);
        assert(grammar::unicode_escape(s, i + 2) == Ok::<(Seq<u8>, int), ErrorView>(
            (seq![b], i + 6),
        ));
    } else if n == 2 {
        assert(s[i + 1] == form[1]);
    }
}

/// What the writer writes for a text, the reader decodes to that text:
/// where the escaped form of `bytes` stands in `s` at `i` and a quote
/// follows it, the string that starts at `i` holds `bytes` and ends behind
/// that quote.
pub proof fn lemma_escaped_reads_back(s: Seq<u8>, i: int, bytes: Seq<u8>)
    requires
        0 <= i,
        i + crate::write::escaped(bytes).len() < s.len(),
        s.subrange(i, i + crate::write::escaped(bytes).len()) == crate::write::escaped(bytes),
        s[i + crate::write::escaped(bytes).len()] == QUOTE,
    ensures
        grammar::string_body(s, i) == Ok::<(Seq<u8>, int), ErrorView>(
            (bytes, i + crate::write::escaped(bytes).len() + 1),
        ),
    decreases bytes.len(),
{
    if bytes.len() == 0 {
        assert(bytes =~= Seq::<u8>::empty());
    } else {
        let b = bytes[0];
        let rest = bytes.drop_first();
        let form = crate::write::escaped_byte(b);
        assert(bytes =~= seq![b] + rest);
        crate::write::lemma_escaped_concat(seq![b], rest);
        assert(crate::write::escaped(seq![b]) =~= form) by {
            assert(seq![b].drop_last() =~= Seq::<u8>::empty());
            assert(crate::write::escaped(seq![b].drop_last()) =~= Seq::<u8>::empty());
        }
        let whole = crate::write::escaped(bytes);
        let tail = crate::write::escaped(rest);
        assert(whole == form + tail);
        let n = form.len() as int;
        assert(s.subrange(i, i + n) =~= form) by {
            assert forall|k: int| 0 <= k < n implies s.subrange(i, i + n)[k] == form[k] by {
                assert(s.subrange(i, i + whole.len())[k] == whole[k]);
            }
        }
        assert(s.subrange(i + n, i + n + tail.len()) =~= tail) by {
            assert forall|k: int| 0 <= k < tail.len() implies s.subrange(
                i + n,
                i + n + tail.len(),
            )[k] == tail[k] by {
                assert(s.subrange(i, i + whole.len())[n + k] == whole[n + k]);
            }
        }
        lemma_escaped_byte_reads_back(s, i, b);
        lemma_escaped_reads_back(s, i + n, rest);
    }
}

/// A string that the writer wrote reads back as the same string: the first
/// read of the token that the writer emits for a string of the text `text`
/// gives a string event with that text and takes the whole token.
pub proof fn lemma_string_reads_back(text: Seq<char>)
    ensures
        ReaderView::start(crate::write::quoted(text)).next_event() matches Ok((event, after))
            && event == EventView::String(text) && after.pos == crate::write::quoted(text).len()
            && after.pending.len() == 0,
{
    let bytes = vstd::utf8::encode_utf8(text);
    let token = crate::write::quoted(text);
    let body = crate::write::escaped(bytes);
    let state = ReaderView::start(token);
    assert(token[0] == QUOTE);
    assert(token.len() == body.len() + 2);
    assert(token[1 + body.len() as int] == QUOTE);
    assert(token.subrange(1, 1 + body.len() as int) =~= body);
    lemma_escaped_reads_back(token, 1, bytes);
    vstd::utf8::encode_utf8_valid_utf8(text);
    vstd::utf8::encode_utf8_decode_utf8(text);
    assert(state.run() == 0);
}

/// A string without escapes is spelled as the writer spells it: where the
/// bytes of `s` from `i` up to a quote at `end` are neither quotes nor
/// backslashes nor below `0x20`, the string that starts at `i` holds those
/// bytes as they are, and escaping them changes nothing.
pub proof fn lemma_plain_string(s: Seq<u8>, i: int, end: int)
    requires
        0 <= i <= end < s.len(),
        s[end] == QUOTE,
        forall|k: int|
            i <= k < end ==> (#[trigger] s[k]) >= 0x20 && s[k] != QUOTE && s[k]
                != crate::ascii::BACKSLASH,
    ensures
        grammar::string_body(s, i) == Ok::<(Seq<u8>, int), ErrorView>(
            (s.subrange(i, end), end + 1),
        ),
        crate::write::escaped(s.subrange(i, end)) == s.subrange(i, end),
    decreases end - i,
{
    if i == end {
        assert(s.subrange(i, end) =~= Seq::<u8>::empty());
    } else {
        lemma_plain_string(s, i + 1, end);
        assert(seq![s[i]] + s.subrange(i + 1, end) =~= s.subrange(i, end));
        crate::write::lemma_escaped_concat(seq![s[i]], s.subrange(i + 1, end));
        assert(crate::write::escaped(seq![s[i]]) =~= seq![s[i]]) by {
            assert(seq![s[i]].drop_last() =~= Seq::<u8>::empty());
            assert(crate::write::escaped(seq![s[i]].drop_last()) =~= Seq::<u8>::empty());
            assert(crate::write::escaped_byte(s[i]) =~= seq![s[i]]);
        }
    }
}

/// A string without escapes keeps its spelling: a read at the opening
/// quote of a string whose bytes up to the closing quote at `end` are
/// neither quotes nor backslashes nor below `0x20` keeps the spelling of
/// what it reads, provided that no white space follows the string where it
/// is an object key.
pub proof fn lemma_plain_string_reads_verbatim(state: ReaderView, end: int)
    requires
        state.wf(),
        state.front() == Some(QUOTE),
        state.pos < end < state.input.len(),
        state.input[end] == QUOTE,
        forall|k: int|
            state.pos < k < end ==> (#[trigger] state.input[k]) >= 0x20 && state.input[k] != QUOTE
                && state.input[k] != crate::ascii::BACKSLASH,
        state.expects_key() ==> grammar::whitespace_len(state.input, end + 1) == 0,
    ensures
        state.reads_verbatim(),
{
    let s = state.input;
    lemma_plain_string(s, state.pos + 1, end);
    let bytes = s.subrange(state.pos + 1, end);
    if vstd::utf8::valid_utf8(bytes) {
        vstd::utf8::decode_utf8_encode_utf8(bytes);
        assert(crate::write::quoted(vstd::utf8::decode_utf8(bytes)) =~= s.subrange(
            state.pos,
            end + 1,
        ));
    }
}

impl ReaderView {
    /// Whether the stack is in order: a state that says that the closing
    /// bracket follows is on top of the stack only, and that bracket is then
    /// the byte at the position.
    pub open spec fn settled(self) -> bool {
        &&& forall|k: int|
            0 <= k < self.stack.len() - 1 ==> (#[trigger] self.stack[k]) != JsonState::LastArray
                && self.stack[k] != JsonState::LastObjectKey
        &&& self.stack.len() > 0 && self.stack.last() == JsonState::LastArray ==> self.front()
            == Some(CLOSE_BRACKET)
        &&& self.stack.len() > 0 && self.stack.last() == JsonState::LastObjectKey ==> self.front()
            == Some(CLOSE_BRACE)
    }
}

/// Completing a value under a stack whose top does not say that the closing
/// bracket follows leaves the stack in order, and does not fail for want of
/// a comma before a value.
proof fn lemma_after_value_settles(state: ReaderView, value: EventView)
    requires
        state.wf(),
        state.pending.len() == 0,
        value != EventView::Eof,
        forall|k: int|
            0 <= k < state.stack.len() ==> (#[trigger] state.stack[k]) != JsonState::LastArray
                && state.stack[k] != JsonState::LastObjectKey,
    ensures
        state.after_value(value) != Err::<(EventView, ReaderView), ErrorView>(
            ErrorView::DanglingComma,
        ),
        state.after_value(value) matches Ok((_, after)) ==> after.settled() && after.wf(),
{
    grammar::lemma_whitespace_run(state.input, state.pos);
    if state.stack.len() > 0 {
        let rest = state.stack.drop_last();
        assert forall|k: int| 0 <= k < rest.len() implies (#[trigger] rest[k])
            != JsonState::LastArray && rest[k] != JsonState::LastObjectKey by {
            assert(rest[k] == state.stack[k]);
        }
        match state.after_value(value) {
            Ok((_, after)) => {
                assert(after.stack.drop_last() =~= rest);
                assert forall|k: int| 0 <= k < after.stack.len() - 1 implies (
                #[trigger] after.stack[k]) != JsonState::LastArray && after.stack[k]
                    != JsonState::LastObjectKey by {
                    assert(after.stack[k] == rest[k]);
                }
            },
            Err(_) => {},
        }
    }
}

/// A read leaves the stack in order, and does not fail with
/// [`ErrorView::DanglingComma`] where it finds the stack in order.
pub proof fn lemma_read_stays_settled(state: ReaderView)
    requires
        state.wf(),
        state.settled(),
    ensures
        state.next_event() != Err::<(EventView, ReaderView), ErrorView>(ErrorView::DanglingComma),
        state.next_event() matches Ok((_, after)) ==> after.settled() && after.wf(),
{
    grammar::lemma_whitespace_run(state.input, state.pos);
    if state.pending.len() == 0 && state.run() == 0 {
        match state.front() {
            None => {},
            Some(c) => {
                if c == crate::ascii::OPEN_BRACE || c == crate::ascii::OPEN_BRACKET {
                    match state.token() {
                        Ok((_, after)) => {
                            assert forall|k: int| 0 <= k < after.stack.len() - 1 implies (
                            #[trigger] after.stack[k]) != JsonState::LastArray && after.stack[k]
                                != JsonState::LastObjectKey by {
                                assert(after.stack[k] == state.stack[k]);
                            }
                        },
                        Err(_) => {},
                    }
                } else if c == CLOSE_BRACE || c == CLOSE_BRACKET {
                    if state.stack.len() > 0 {
                        let closed = state.at(state.pos + 1).with_stack(state.stack.drop_last());
                        assert forall|k: int| 0 <= k < closed.stack.len() implies (
                        #[trigger] closed.stack[k]) != JsonState::LastArray && closed.stack[k]
                            != JsonState::LastObjectKey by {
                            assert(closed.stack[k] == state.stack[k]);
                        }
                        lemma_after_value_settles(
                            closed,
                            if c == CLOSE_BRACE {
                                EventView::EndObject
                            } else {
                                EventView::EndArray
                            },
                        );
                    }
                } else {
                    assert forall|k: int| 0 <= k < state.stack.len() implies (
                    #[trigger] state.stack[k]) != JsonState::LastArray && state.stack[k]
                        != JsonState::LastObjectKey by {
                        if k == state.stack.len() - 1 {
                            assert(state.stack[k] == state.stack.last());
                        }
                    }
                    if c == QUOTE {
                        grammar::lemma_string_errors(state.input, state.pos + 1);
                        match grammar::string_body(state.input, state.pos + 1) {
                            Ok((bytes, end)) => {
                                grammar::lemma_string_body_end(state.input, state.pos + 1);
                                if vstd::utf8::valid_utf8(bytes) {
                                    lemma_after_value_settles(
                                        state.at(end),
                                        EventView::String(vstd::utf8::decode_utf8(bytes)),
                                    );
                                }
                            },
                            Err(_) => {},
                        }
                    } else if c == crate::ascii::LOWER_T {
                        match grammar::literal_end(
                            state.input,
                            state.pos,
                            crate::error::Literal::True,
                        ) {
                            Ok(end) => {
                                lemma_after_value_settles(
                                    state.at(end),
                                    EventView::Boolean(true),
                                );
                            },
                            Err(_) => {},
                        }
                    } else if c == crate::ascii::LOWER_F {
                        match grammar::literal_end(
                            state.input,
                            state.pos,
                            crate::error::Literal::False,
                        ) {
                            Ok(end) => {
                                lemma_after_value_settles(
                                    state.at(end),
                                    EventView::Boolean(false),
                                );
                            },
                            Err(_) => {},
                        }
                    } else if c == crate::ascii::LOWER_N {
                        match grammar::literal_end(
                            state.input,
                            state.pos,
                            crate::error::Literal::Null,
                        ) {
                            Ok(end) => {
                                lemma_after_value_settles(state.at(end), EventView::Null);
                            },
                            Err(_) => {},
                        }
                    } else if c == crate::ascii::MINUS || grammar::is_digit(c) {
                        match grammar::number_end(state.input, state.pos) {
                            Ok(end) => {
                                grammar::lemma_number_is_ascii(state.input, state.pos);
                                lemma_after_value_settles(
                                    state.at(end),
                                    EventView::Number(
                                        crate::read::token_text(state.input, state.pos, end),
                                    ),
                                );
                            },
                            Err(_) => {},
                        }
                    }
                }
            },
        }
    }
}

/// No document makes the reader fail with [`ErrorView::DanglingComma`]:
/// read from its start, under any limit on nesting, a reader never meets a
/// value where it has announced a closing bracket.
pub proof fn lemma_never_dangling(input: Seq<u8>, max_stack_size: Option<usize>, n: nat)
    ensures
        ({
            let state = ReaderView { max_stack_size, ..ReaderView::start(input) };
            &&& state.reads(n) != Err::<(Seq<EventView>, ReaderView), ErrorView>(
                ErrorView::DanglingComma,
            )
            &&& state.reads(n) matches Ok((_, after)) ==> after.settled() && after.wf()
        }),
    decreases n,
{
    let state = ReaderView { max_stack_size, ..ReaderView::start(input) };
    if n > 0 {
        lemma_never_dangling(input, max_stack_size, (n - 1) as nat);
        match state.reads((n - 1) as nat) {
            Ok((_, middle)) => {
                lemma_read_stays_settled(middle);
            },
            Err(_) => {},
        }
    }
}

/// By how much an event changes the number of open objects and arrays.
pub open spec fn nesting_change(event: EventView) -> int {
    if event is StartObject || event is StartArray {
        1
    } else if event is EndObject || event is EndArray {
        -1
    } else {
        0
    }
}

/// How many objects and arrays a sequence of events leaves open.
pub open spec fn nesting(events: Seq<EventView>) -> int
    decreases events.len(),
{
    if events.len() == 0 {
        0
    } else {
        nesting(events.drop_last()) + nesting_change(events.last())
    }
}

/// A read changes the depth of the stack as the event it hands out says:
/// by one up for an opening bracket, by one down for a closing bracket, and
/// not at all for any other event.
pub proof fn lemma_read_tracks_nesting(state: ReaderView)
    requires
        state.wf(),
        state.next_event() is Ok,
    ensures
        ({
            let (event, after) = state.next_event()->Ok_0;
            after.stack.len() == state.stack.len() + nesting_change(event)
        }),
{
    let (event, after) = state.next_event()->Ok_0;
    if state.pending.len() > 0 {
        assert(crate::read::deferrable(state.pending[0]));
    } else if state.run() > 0 {
    } else {
        match state.front() {
            None => {},
            Some(c) => {
                if c == crate::ascii::OPEN_BRACE || c == crate::ascii::OPEN_BRACKET {
                } else if c == CLOSE_BRACE {
                    lemma_after_value_keeps_depth(
                        state.at(state.pos + 1).with_stack(state.stack.drop_last()),
                        EventView::EndObject,
                    );
                } else if c == CLOSE_BRACKET {
                    lemma_after_value_keeps_depth(
                        state.at(state.pos + 1).with_stack(state.stack.drop_last()),
                        EventView::EndArray,
                    );
                } else if c == QUOTE {
                    let (bytes, end) = grammar::string_body(state.input, state.pos + 1)->Ok_0;
                    lemma_after_value_keeps_depth(
                        state.at(end),
                        EventView::String(vstd::utf8::decode_utf8(bytes)),
                    );
                } else if c == crate::ascii::LOWER_T {
                    let end = grammar::literal_end(
                        state.input,
                        state.pos,
                        crate::error::Literal::True,
                    )->Ok_0;
                    lemma_after_value_keeps_depth(state.at(end), EventView::Boolean(true));
                } else if c == crate::ascii::LOWER_F {
                    let end = grammar::literal_end(
                        state.input,
                        state.pos,
                        crate::error::Literal::False,
                    )->Ok_0;
                    lemma_after_value_keeps_depth(state.at(end), EventView::Boolean(false));
                } else if c == crate::ascii::LOWER_N {
                    let end = grammar::literal_end(
                        state.input,
                        state.pos,
                        crate::error::Literal::Null,
                    )->Ok_0;
                    lemma_after_value_keeps_depth(state.at(end), EventView::Null);
                } else {
                    let end = grammar::number_end(state.input, state.pos)->Ok_0;
                    lemma_after_value_keeps_depth(
                        state.at(end),
                        EventView::Number(crate::read::token_text(state.input, state.pos, end)),
                    );
                }
            },
        }
    }
}

/// Completing a value keeps the depth of the stack, and hands out the value
/// itself or an event that may wait in the queue.
proof fn lemma_after_value_keeps_depth(state: ReaderView, value: EventView)
    requires
        state.after_value(value) is Ok,
    ensures
        ({
            let (event, after) = state.after_value(value)->Ok_0;
            &&& after.stack.len() == state.stack.len()
            &&& event == value || crate::read::deferrable(event)
        }),
{
}

/// The stack is as deep as the document is nested: after any number of
/// reads from the start of a document, the stack holds one state for each
/// object or array that the events handed out have opened and not closed.
pub proof fn lemma_depth_is_nesting(input: Seq<u8>, max_stack_size: Option<usize>, n: nat)
    ensures
        ({
            let state = ReaderView { max_stack_size, ..ReaderView::start(input) };
            state.reads(n) matches Ok((events, after)) ==> after.stack.len() == nesting(events)
        }),
    decreases n,
{
    let state = ReaderView { max_stack_size, ..ReaderView::start(input) };
    if n > 0 {
        lemma_depth_is_nesting(input, max_stack_size, (n - 1) as nat);
        lemma_never_dangling(input, max_stack_size, (n - 1) as nat);
        match state.reads((n - 1) as nat) {
            Ok((events, middle)) => {
                match middle.next_event() {
                    Ok((event, after)) => {
                        lemma_read_tracks_nesting(middle);
                        assert(events.push(event).drop_last() =~= events);
                    },
                    Err(_) => {},
                }
            },
            Err(_) => {},
        }
    }
}

/// An opening bracket is refused exactly when it would nest deeper than
/// the limit: where nothing is pending and `{` or `[` stands at the position,
/// the read fails, with [`ErrorView::DepthExceeded`], if and only if a limit
/// is set and the stack with one more state would exceed it; else it hands
/// out the opening event, moves over the bracket and puts one state on the
/// stack.
pub proof fn lemma_depth_cap(state: ReaderView)
    requires
        state.pending.len() == 0,
        state.run() == 0,
        state.front() == Some(crate::ascii::OPEN_BRACE) || state.front() == Some(
            crate::ascii::OPEN_BRACKET,
        ),
    ensures
        state.next_event() is Err <==> (state.max_stack_size matches Some(max) && state.stack.len()
            + 1 > max),
        state.next_event() matches Err(e) ==> e == ErrorView::DepthExceeded(
            state.max_stack_size->0,
        ),
        state.next_event() matches Ok((event, after)) ==> {
            &&& event == if state.front() == Some(crate::ascii::OPEN_BRACE) {
                EventView::StartObject
            } else {
                EventView::StartArray
            }
            &&& after == state.at(state.pos + 1).with_stack(after.stack)
            &&& after.stack.drop_last() == state.stack
            &&& after.stack.len() == state.stack.len() + 1
        },
{
    match state.next_event() {
        Ok((_, after)) => {
            assert(after.stack.drop_last() =~= state.stack);
        },
        Err(_) => {},
    }
}

/// A pair of surrogates names the character that UTF-16 gives it: the
/// place of the first in the high half times `0x400`, plus the place of the
/// second in the low half, counted from `0x10000`.
pub proof fn lemma_pair_is_supplementary(high: u32, low: u32)
    requires
        0xD800 <= high <= 0xDBFF,
        0xDC00 <= low <= 0xDFFF,
    ensures
        grammar::combine_surrogates(high, low) == 0x10000 + (high - 0xD800) * 0x400 + (low
            - 0xDC00),
        0x10000 <= grammar::combine_surrogates(high, low) <= 0x10FFFF,
{
    assert(((high & 0x03FF) << 10) == (high - 0xD800) * 0x400 && (low & 0x03FF) == low - 0xDC00)
        by (bit_vector)
        requires
            0xD800 <= high <= 0xDBFF,
            0xDC00 <= low <= 0xDFFF,
    ;
}

/// A surrogate must be followed by a low surrogate: where the four digits
/// at `i` name a surrogate and a second `\u` escape follows whose digits
/// name a code unit outside the low half, the escape is refused with
/// [`ErrorView::InvalidSurrogatePair`].
pub proof fn lemma_pair_needs_low_surrogate(s: Seq<u8>, i: int)
    requires
        0 <= i,
        i + 10 <= s.len(),
        grammar::hex_value(s.subrange(i, i + 4)) matches Ok(unit) && grammar::is_surrogate(unit),
        s[i + 4] == crate::ascii::BACKSLASH,
        s[i + 5] == crate::ascii::LOWER_U,
        grammar::hex_value(s.subrange(i + 6, i + 10)) matches Ok(low)
            && !grammar::is_low_surrogate(low),
    ensures
        grammar::unicode_escape(s, i) == Err::<(Seq<u8>, int), ErrorView>(
            ErrorView::InvalidSurrogatePair(
                grammar::hex_value(s.subrange(i, i + 4))->Ok_0 as u32,
                grammar::hex_value(s.subrange(i + 6, i + 10))->Ok_0 as u32,
            ),
        ),
{
}

} // verus!
