//! The reader: from text to events.
use crate::ascii::{
    BACKSLASH, BACKSPACE, CARRIAGE_RETURN, CLOSE_BRACE, CLOSE_BRACKET, COLON, COMMA, DIGIT_0,
    DIGIT_1, DIGIT_9, DOT, FORM_FEED, LINE_FEED, LOWER_A, LOWER_B, LOWER_E, LOWER_F, LOWER_L,
    LOWER_N, LOWER_R, LOWER_S, LOWER_T, LOWER_U, MINUS, OPEN_BRACE, OPEN_BRACKET, PLUS, QUOTE, SLASH, TAB, UPPER_E,
};
use crate::error::{ErrorView, JsonError, Literal};
use crate::event::{EventView, JsonEvent};
use crate::grammar;
use crate::scan;
use crate::scan::SkipWhitespace;
use crate::text;
use std::borrow::Cow;
use std::collections::VecDeque;
use vstd::prelude::*;

verus! {

/// What the reader remembers of one open object or array.
#[derive(Debug, Eq, PartialEq, Copy, Clone)]
pub enum JsonState {
    /// Inside an array, before its first element.
    FirstArray,
    /// Inside an array, behind a comma.
    NextArray,
    /// Inside an array, behind an element that `]` follows.
    LastArray,
    /// Inside an object, before its first key.
    FirstObjectKey,
    /// Inside an object, behind a comma.
    NextObjectKey,
    /// Inside an object, behind a value that `}` follows.
    LastObjectKey,
    /// Inside an object, behind a key and its colon.
    ObjectValue,
}

/// The mathematical value of a [`JsonReader`].
pub struct ReaderView {
    /// The document.
    pub input: Seq<u8>,
    /// How many bytes of it have been read.
    pub pos: int,
    /// One state for each object or array that is open, outermost first.
    pub stack: Seq<JsonState>,
    /// Whether the value that makes up the document is complete.
    pub element_read: bool,
    /// Events that are decided already and not handed out yet, oldest first.
    pub pending: Seq<EventView>,
    /// The greatest number of objects and arrays that may be open at once.
    pub max_stack_size: Option<usize>,
}

/// What one read gives: an event and the state behind it, or an error.
pub type Step = Result<(EventView, ReaderView), ErrorView>;

/// Whether an event may wait in the queue: only white space, an object key
/// and the two separators ever do.
pub open spec fn deferrable(event: EventView) -> bool {
    event is WhiteSpace || event is ObjectKey || event is NextObjectValue || event
        is NextArrayValue
}

/// The text that a run of white space or a number token holds.
pub open spec fn token_text(s: Seq<u8>, from: int, to: int) -> Seq<char> {
    vstd::utf8::decode_utf8(s.subrange(from, to))
}

impl ReaderView {
    /// The state of a reader that has read nothing of `input` yet.
    pub open spec fn start(input: Seq<u8>) -> ReaderView {
        ReaderView {
            input,
            pos: 0,
            stack: Seq::empty(),
            element_read: false,
            pending: Seq::empty(),
            max_stack_size: None,
        }
    }

    /// What every reader's state satisfies.
    pub open spec fn wf(self) -> bool {
        &&& 0 <= self.pos <= self.input.len()
        &&& self.pending.len() <= 2
        &&& forall|i: int| 0 <= i < self.pending.len() ==> deferrable(#[trigger] self.pending[i])
    }

    /// This state, moved to `pos`.
    pub open spec fn at(self, pos: int) -> ReaderView {
        ReaderView { pos, ..self }
    }

    /// This state with `stack` for its stack.
    pub open spec fn with_stack(self, stack: Seq<JsonState>) -> ReaderView {
        ReaderView { stack, ..self }
    }

    /// This state with `pending` for its queue.
    pub open spec fn with_pending(self, pending: Seq<EventView>) -> ReaderView {
        ReaderView { pending, ..self }
    }

    /// The byte at the position, if the input has not ended.
    pub open spec fn front(self) -> Option<u8> {
        grammar::byte_at(self.input, self.pos)
    }

    /// The length of the run of white space at the position.
    pub open spec fn run(self) -> nat {
        grammar::whitespace_len(self.input, self.pos)
    }

    /// Whether one more object or array may be opened.
    pub open spec fn may_open(self) -> bool {
        match self.max_stack_size {
            Some(max) => self.stack.len() < max,
            None => true,
        }
    }

    /// The step that completes a value in an object or array whose state is
    /// `top`, where `rest` is the stack below it: the value must be followed,
    /// behind white space or none, by `,` or by the `closer`.
    ///
    /// The comma is read and announced by `separator`; the closer is left
    /// where it is.  The value comes first, then the white space, then the
    /// separator.
    pub open spec fn after_element(
        self,
        value: EventView,
        rest: Seq<JsonState>,
        closer: u8,
        next: JsonState,
        last: JsonState,
        separator: EventView,
    ) -> Step {
        let end = self.pos + self.run();
        let space = EventView::WhiteSpace(token_text(self.input, self.pos, end));
        let spaces = if self.run() == 0 {
            Seq::<EventView>::empty()
        } else {
            seq![space]
        };
        match grammar::byte_at(self.input, end) {
            None => Err(ErrorView::UnexpectedEof),
            Some(c) => if c == COMMA {
                Ok(
                    (
                        value,
                        self.at(end + 1).with_stack(rest.push(next)).with_pending(
                            self.pending + spaces.push(separator),
                        ),
                    ),
                )
            } else if c == closer {
                Ok(
                    (
                        value,
                        self.at(end).with_stack(rest.push(last)).with_pending(
                            self.pending + spaces,
                        ),
                    ),
                )
            } else {
                Err(ErrorView::MissingComma)
            },
        }
    }

    /// The step that completes an object key, where `rest` is the stack
    /// below the object's state: the key must be a string and be followed,
    /// behind white space or none, by `:`.
    ///
    /// The colon is read, and the string becomes a key.  White space that
    /// stands between the two comes first and the key behind it.
    pub open spec fn after_key(self, value: EventView, rest: Seq<JsonState>) -> Step {
        let end = self.pos + self.run();
        let space = EventView::WhiteSpace(token_text(self.input, self.pos, end));
        match grammar::byte_at(self.input, end) {
            None => Err(ErrorView::UnexpectedEof),
            Some(c) => if c != COLON {
                Err(ErrorView::MissingColon)
            } else {
                match value {
                    EventView::String(key) => {
                        let state = self.at(end + 1).with_stack(rest.push(JsonState::ObjectValue));
                        if self.run() == 0 {
                            Ok((EventView::ObjectKey(key), state))
                        } else {
                            Ok(
                                (
                                    space,
                                    state.with_pending(
                                        self.pending.push(EventView::ObjectKey(key)),
                                    ),
                                ),
                            )
                        }
                    },
                    _ => Err(ErrorView::KeyNotString),
                }
            },
        }
    }

    /// The step that completes `value`, which was just read: what the
    /// innermost open object or array, if any, asks to follow it.
    pub open spec fn after_value(self, value: EventView) -> Step {
        if self.stack.len() == 0 {
            if self.element_read {
                Err(ErrorView::TrailingContent)
            } else {
                Ok((value, ReaderView { element_read: true, ..self }))
            }
        } else {
            let rest = self.stack.drop_last();
            match self.stack.last() {
                JsonState::FirstObjectKey | JsonState::NextObjectKey => self.after_key(value, rest),
                JsonState::ObjectValue => self.after_element(
                    value,
                    rest,
                    CLOSE_BRACE,
                    JsonState::NextObjectKey,
                    JsonState::LastObjectKey,
                    EventView::NextObjectValue,
                ),
                JsonState::FirstArray | JsonState::NextArray => self.after_element(
                    value,
                    rest,
                    CLOSE_BRACKET,
                    JsonState::NextArray,
                    JsonState::LastArray,
                    EventView::NextArrayValue,
                ),
                JsonState::LastObjectKey | JsonState::LastArray => Err(ErrorView::DanglingComma),
            }
        }
    }

    /// The step that opens an object or array whose state starts as `state`.
    pub open spec fn open(self, state: JsonState, event: EventView) -> Step {
        if self.may_open() {
            Ok((event, self.at(self.pos + 1).with_stack(self.stack.push(state))))
        } else {
            Err(ErrorView::DepthExceeded(self.max_stack_size->0))
        }
    }

    /// The step that closes the innermost object or array with the byte
    /// `closer`, which is allowed where its state is `first` or `last`.
    pub open spec fn close(
        self,
        closer: u8,
        first: JsonState,
        last: JsonState,
        event: EventView,
    ) -> Step {
        if self.stack.len() > 0 && (self.stack.last() == first || self.stack.last() == last) {
            self.at(self.pos + 1).with_stack(self.stack.drop_last()).after_value(event)
        } else {
            Err(ErrorView::UnmatchedClose(closer))
        }
    }

    /// The step that reads the string whose opening quote is at the position.
    pub open spec fn string(self) -> Step {
        match grammar::string_body(self.input, self.pos + 1) {
            Err(e) => Err(e),
            Ok((bytes, end)) => if vstd::utf8::valid_utf8(bytes) {
                self.at(end).after_value(EventView::String(vstd::utf8::decode_utf8(bytes)))
            } else {
                Err(ErrorView::InvalidUtf8)
            },
        }
    }

    /// The step that reads the literal name `literal` at the position.
    pub open spec fn literal(self, literal: Literal, event: EventView) -> Step {
        match grammar::literal_end(self.input, self.pos, literal) {
            Err(e) => Err(e),
            Ok(end) => self.at(end).after_value(event),
        }
    }

    /// The step that reads the number at the position.
    pub open spec fn number(self) -> Step {
        match grammar::number_end(self.input, self.pos) {
            Err(e) => Err(e),
            Ok(end) => self.at(end).after_value(
                EventView::Number(token_text(self.input, self.pos, end)),
            ),
        }
    }

    /// The step that reads the token at the position, where no white space
    /// stands: the end of the input, a bracket, or a value.
    pub open spec fn token(self) -> Step {
        match self.front() {
            None => if self.stack.len() == 0 && self.element_read {
                Ok((EventView::Eof, self))
            } else {
                Err(ErrorView::UnexpectedEof)
            },
            Some(c) => if c == OPEN_BRACE {
                self.open(JsonState::FirstObjectKey, EventView::StartObject)
            } else if c == CLOSE_BRACE {
                self.close(
                    c,
                    JsonState::FirstObjectKey,
                    JsonState::LastObjectKey,
                    EventView::EndObject,
                )
            } else if c == OPEN_BRACKET {
                self.open(JsonState::FirstArray, EventView::StartArray)
            } else if c == CLOSE_BRACKET {
                self.close(c, JsonState::FirstArray, JsonState::LastArray, EventView::EndArray)
            } else if c == QUOTE {
                self.string()
            } else if c == LOWER_T {
                self.literal(Literal::True, EventView::Boolean(true))
            } else if c == LOWER_F {
                self.literal(Literal::False, EventView::Boolean(false))
            } else if c == LOWER_N {
                self.literal(Literal::Null, EventView::Null)
            } else if c == MINUS || grammar::is_digit(c) {
                self.number()
            } else {
                Err(ErrorView::UnexpectedCharacter(c))
            },
        }
    }

    /// What the next read gives.
    ///
    /// An event that is pending is handed out first.  Else a run of white
    /// space at the position is an event of its own.  Else the token at the
    /// position is read.
    pub open spec fn next_event(self) -> Step {
        if self.pending.len() > 0 {
            Ok((self.pending[0], self.with_pending(self.pending.drop_first())))
        } else if self.run() > 0 {
            Ok(
                (
                    EventView::WhiteSpace(
                        token_text(self.input, self.pos, self.pos + self.run()),
                    ),
                    self.at(self.pos + self.run()),
                ),
            )
        } else {
            self.token()
        }
    }
}

/// Whether a read that reported `r` and left the reader as `after` did what
/// `step` says: the same error, or the same event and the same state.
pub open spec fn took(r: Result<JsonEvent<'static>, JsonError>, after: ReaderView, step: Step) -> bool {
    match step {
        Ok((event, state)) => r matches Ok(e) && e@ == event && after == state,
        Err(error) => r matches Err(e) && e@ == error,
    }
}

/// Whether a scan that reported `r` passed over what `expected` says: it
/// failed with the same error, or it moved the reader from `before` to the
/// same end and added the bytes in between to the output.
pub open spec fn scanned(
    r: Result<(), JsonError>,
    before: ReaderView,
    after: ReaderView,
    output_before: Seq<u8>,
    output_after: Seq<u8>,
    expected: Result<int, ErrorView>,
) -> bool {
    match expected {
        Ok(end) => r is Ok && after == before.at(end) && output_after == output_before
            + before.input.subrange(before.pos, end),
        Err(error) => r matches Err(e) && e@ == error,
    }
}

/// Whether a scan that reported `r` decoded what `expected` says: it failed
/// with the same error, or it moved the reader from `before` to the same end
/// and added the same bytes to the output.
pub open spec fn decoded(
    r: Result<(), JsonError>,
    before: ReaderView,
    after: ReaderView,
    output_before: Seq<u8>,
    output_after: Seq<u8>,
    expected: Result<(Seq<u8>, int), ErrorView>,
) -> bool {
    match expected {
        Ok((bytes, end)) => r is Ok && after == before.at(end) && output_after == output_before
            + bytes,
        Err(error) => r matches Err(e) && e@ == error,
    }
}

/// The views of the events in a queue.
pub open spec fn views(events: Seq<JsonEvent<'static>>) -> Seq<EventView> {
    events.map_values(|e: JsonEvent<'static>| e@)
}

/// A streaming reader of one JSON document held in memory.
///
/// It keeps a stack with one entry for each object or array that is open,
/// and a short queue of events that it has decided on and not yet handed
/// out.  After an error the reader is still safe to call, but what it
/// reports then has no meaning.
pub struct JsonReader<'a> {
    reader: &'a [u8],
    position: usize,
    state_stack: Vec<JsonState>,
    element_read: bool,
    remain_events: VecDeque<JsonEvent<'static>>,
    max_stack_size: Option<usize>,
}

impl<'a> View for JsonReader<'a> {
    type V = ReaderView;

    closed spec fn view(&self) -> ReaderView {
        ReaderView {
            input: self.reader@,
            pos: self.position as int,
            stack: self.state_stack@,
            element_read: self.element_read,
            pending: views(self.remain_events@),
            max_stack_size: self.max_stack_size,
        }
    }
}

impl<'a> JsonReader<'a> {
    /// A reader at the start of the document `reader`, with no limit on
    /// nesting.
    pub fn from_reader(reader: &'a [u8]) -> (r: Self)
        ensures
            r@.wf(),
            r@ == ReaderView::start(reader@),
    {
        let r = JsonReader {
            reader,
            position: 0,
            state_stack: Vec::new(),
            element_read: false,
            max_stack_size: None,
            remain_events: VecDeque::new(),
        };
        assert(r@.pending =~= Seq::empty());
        assert(r@.stack =~= Seq::empty());
        r
    }

    /// Sets the greatest number of objects and arrays that may be open at
    /// once.  Without a call of this there is no limit.
    pub fn max_stack_size(&mut self, size: usize) -> (r: &mut Self)
        requires
            old(self)@.wf(),
        ensures
            r@.wf(),
            r@ == (ReaderView { max_stack_size: Some(size), ..old(self)@ }),
            *final(self) == *final(r),
    {
        self.max_stack_size = Some(size);
        self
    }

    /// The byte at the position, if the input has not ended.
    fn lookup_front(&self) -> (front: Option<u8>)
        requires
            self@.wf(),
        ensures
            front == self@.front(),
    {
        if self.position < self.reader.len() {
            Some(self.reader[self.position])
        } else {
            None
        }
    }

    /// The byte at the position; it is an error for the input to have ended.
    fn lookup_mandatory_front(&self) -> (front: Result<u8, JsonError>)
        requires
            self@.wf(),
        ensures
            match self@.front() {
                Some(c) => front == Ok::<u8, JsonError>(c),
                None => front matches Err(e) && e@ == ErrorView::UnexpectedEof,
            },
    {
        match self.lookup_front() {
            Some(c) => Ok(c),
            None => Err(JsonError::UnexpectedEof),
        }
    }

    /// Moves the position over `n` bytes.
    fn consume(&mut self, n: usize)
        requires
            old(self)@.wf(),
            old(self)@.pos + n <= old(self)@.input.len(),
        ensures
            final(self)@.wf(),
            final(self)@ == old(self)@.at(old(self)@.pos + n),
    {
        proof {
            assert(self.reader@.len() == self.reader.len());
        }
        self.position = self.position + n;
    }

    /// Copies the digits at the position to `output` and moves behind them.
    fn read_digits(&mut self, output: &mut Vec<u8>)
        requires
            old(self)@.wf(),
        ensures
            final(self)@.wf(),
            final(self)@ == old(self)@.at(
                old(self)@.pos + grammar::digits_len(old(self)@.input, old(self)@.pos),
            ),
            final(self)@.pos <= old(self)@.input.len(),
            final(output)@ == old(output)@ + old(self)@.input.subrange(
                old(self)@.pos,
                final(self)@.pos,
            ),
    {
        let ghost before = self@;
        let ghost copied = output@;
        proof {
            assert(copied =~= copied + before.input.subrange(before.pos, before.pos));
        }
        loop
            invariant
                before.wf(),
                self@ == before.at(self@.pos),
                before.pos <= self@.pos <= before.input.len(),
                grammar::digits_len(before.input, before.pos) == (self@.pos - before.pos)
                    + grammar::digits_len(before.input, self@.pos),
                output@ == copied + before.input.subrange(before.pos, self@.pos),
            ensures
                self@ == before.at(
                    before.pos + grammar::digits_len(before.input, before.pos),
                ),
                self@.pos <= before.input.len(),
                output@ == copied + before.input.subrange(before.pos, self@.pos),
            decreases before.input.len() - self@.pos,
        {
            match self.lookup_front() {
                Some(c) => {
                    if DIGIT_0 <= c && c <= DIGIT_9 {
                        let ghost here = self@.pos;
                        output.push(c);
                        self.consume(1);
                        proof {
                            assert(before.input.subrange(before.pos, here + 1)
                                =~= before.input.subrange(before.pos, here).push(c));
                        }
                    } else {
                        break ;
                    }
                },
                None => {
                    break ;
                },
            }
        }
    }

    /// Copies the digit at the position to `output` and moves behind it; it
    /// is an error for anything else to stand there.
    fn read_char(&mut self, output: &mut Vec<u8>) -> (r: Result<(), JsonError>)
        requires
            old(self)@.wf(),
        ensures
            final(self)@.wf(),
            match old(self)@.front() {
                None => r matches Err(e) && e@ == ErrorView::UnexpectedEof,
                Some(c) => if grammar::is_digit(c) {
                    r is Ok && final(self)@ == old(self)@.at(old(self)@.pos + 1) && final(output)@
                        == old(output)@.push(c)
                } else {
                    r matches Err(e) && e@ == ErrorView::InvalidNumber(c)
                },
            },
    {
        let c = self.lookup_mandatory_front()?;
        if DIGIT_0 <= c && c <= DIGIT_9 {
            output.push(c);
            self.consume(1);
            Ok(())
        } else {
            Err(JsonError::InvalidNumber(c))
        }
    }

    /// Copies the exponent at the position, if there is one, to `output` and
    /// moves behind it.
    fn read_exponent(&mut self, output: &mut Vec<u8>) -> (r: Result<(), JsonError>)
        requires
            old(self)@.wf(),
        ensures
            final(self)@.wf(),
            scanned(
                r,
                old(self)@,
                final(self)@,
                old(output)@,
                final(output)@,
                grammar::exponent_end(old(self)@.input, old(self)@.pos),
            ),
    {
        let ghost before = self@;
        let ghost copied = output@;
        match self.lookup_front() {
            Some(c) => {
                if c == LOWER_E || c == UPPER_E {
                    output.push(c);
                    self.consume(1);
                    let c = self.lookup_mandatory_front()?;
                    if c == MINUS || c == PLUS {
                        output.push(c);
                        self.consume(1);
                        self.read_char(output)?;
                    } else if DIGIT_0 <= c && c <= DIGIT_9 {
                        output.push(c);
                        self.consume(1);
                    } else {
                        return Err(JsonError::InvalidNumber(c));
                    }
                    self.read_digits(output);
                    proof {
                        assert(output@ =~= copied + before.input.subrange(
                            before.pos,
                            self@.pos,
                        ));
                    }
                    Ok(())
                } else {
                    proof {
                        assert(output@ =~= copied + before.input.subrange(
                            before.pos,
                            before.pos,
                        ));
                    }
                    Ok(())
                }
            },
            None => {
                proof {
                    assert(output@ =~= copied + before.input.subrange(before.pos, before.pos));
                }
                Ok(())
            },
        }
    }

    /// Copies the fraction and the exponent at the position, as far as they
    /// are there, to `output` and moves behind them.
    fn read_fraction(&mut self, output: &mut Vec<u8>) -> (r: Result<(), JsonError>)
        requires
            old(self)@.wf(),
        ensures
            final(self)@.wf(),
            scanned(
                r,
                old(self)@,
                final(self)@,
                old(output)@,
                final(output)@,
                grammar::fraction_end(old(self)@.input, old(self)@.pos),
            ),
    {
        let ghost before = self@;
        let ghost copied = output@;
        match self.lookup_front() {
            Some(c) => {
                if c == DOT {
                    output.push(DOT);
                    self.consume(1);
                    self.read_char(output)?;
                    self.read_digits(output);
                }
            },
            None => {},
        }
        let ghost middle = self@.pos;
        proof {
            assert(output@ =~= copied + before.input.subrange(before.pos, middle));
        }
        self.read_exponent(output)?;
        proof {
            assert(output@ =~= copied + before.input.subrange(before.pos, self@.pos));
        }
        Ok(())
    }

    /// Copies the number token at the position to `output`, emptied first,
    /// and moves behind it.
    fn read_number(&mut self, first_byte: u8, output: &mut Vec<u8>) -> (r: Result<
        (),
        JsonError,
    >)
        requires
            old(self)@.wf(),
            old(self)@.front() == Some(first_byte),
        ensures
            final(self)@.wf(),
            scanned(
                r,
                old(self)@,
                final(self)@,
                Seq::empty(),
                final(output)@,
                grammar::number_end(old(self)@.input, old(self)@.pos),
            ),
    {
        let ghost before = self@;
        output.clear();
        if first_byte == MINUS {
            output.push(MINUS);
            self.consume(1);
        }
        let c = self.lookup_mandatory_front()?;
        if c == DIGIT_0 {
            output.push(DIGIT_0);
            self.consume(1);
        } else if DIGIT_1 <= c && c <= DIGIT_9 {
            output.push(c);
            self.consume(1);
            self.read_digits(output);
        } else {
            return Err(JsonError::InvalidNumber(c));
        }
        let ghost middle = self@.pos;
        proof {
            assert(output@ =~= before.input.subrange(before.pos, middle));
        }
        self.read_fraction(output)?;
        proof {
            assert(output@ =~= Seq::<u8>::empty() + before.input.subrange(
                before.pos,
                self@.pos,
            ));
        }
        Ok(())
    }

    /// Reads the four hexadecimal digits at the position and moves behind
    /// them.
    fn read_code_unit(&mut self) -> (r: Result<u32, JsonError>)
        requires
            old(self)@.wf(),
        ensures
            final(self)@.wf(),
            old(self)@.pos + 4 > old(self)@.input.len() ==> (r matches Err(e) && e@
                == ErrorView::UnexpectedEof),
            old(self)@.pos + 4 <= old(self)@.input.len() ==> match grammar::hex_value(
                old(self)@.input.subrange(old(self)@.pos, old(self)@.pos + 4),
            ) {
                Ok(unit) => r == Ok::<u32, JsonError>(unit as u32) && 0 <= unit < 0x10000
                    && final(self)@ == old(self)@.at(old(self)@.pos + 4),
                Err(error) => r matches Err(e) && e@ == error,
            },
    {
        if self.reader.len() - self.position < 4 {
            return Err(JsonError::UnexpectedEof);
        }
        let digits = vstd::slice::slice_subrange(self.reader, self.position, self.position + 4);
        let unit = scan::read_hexa_char(digits)?;
        proof {
            grammar::lemma_hex_value_bound(digits@);
            reveal_with_fuel(grammar::pow16, 5);
        }
        self.consume(4);
        Ok(unit)
    }

    /// Decodes the `\u` escape whose digits stand at the position, appends
    /// the UTF-8 bytes of its character to `output` and moves behind it.
    fn read_unicode_escape(&mut self, output: &mut Vec<u8>) -> (r: Result<(), JsonError>)
        requires
            old(self)@.wf(),
        ensures
            final(self)@.wf(),
            decoded(
                r,
                old(self)@,
                final(self)@,
                old(output)@,
                final(output)@,
                grammar::unicode_escape(old(self)@.input, old(self)@.pos),
            ),
    {
        let ghost before = self@;
        let unit = self.read_code_unit()?;
        if unit < 0xD800 || unit > 0xDFFF {
            text::push_scalar(unit, output);
            return Ok(());
        }
        if self.reader.len() - self.position < 6 {
            return Err(JsonError::UnexpectedEof);
        }
        if self.reader[self.position] != BACKSLASH || self.reader[self.position + 1] != LOWER_U {
            return Err(JsonError::LoneSurrogate(unit));
        }
        self.consume(2);
        let low = self.read_code_unit()?;
        if low < 0xDC00 || low > 0xDFFF {
            return Err(JsonError::InvalidSurrogatePair(unit, low));
        }
        assert(((unit & 0x03FF) << 10) <= 0xFFC00 && (low & 0x03FF) <= 0x3FF) by (bit_vector);
        let code_point: u32 = 0x10000 + ((unit & 0x03FF) << 10) + (low & 0x03FF);
        text::push_scalar(code_point, output);
        Ok(())
    }

    /// Decodes the escape whose name stands at the position, just behind the
    /// backslash, appends what it stands for to `output` and moves behind it.
    fn read_escape(&mut self, output: &mut Vec<u8>) -> (r: Result<(), JsonError>)
        requires
            old(self)@.wf(),
        ensures
            final(self)@.wf(),
            decoded(
                r,
                old(self)@,
                final(self)@,
                old(output)@,
                final(output)@,
                grammar::escape(old(self)@.input, old(self)@.pos),
            ),
            r is Ok ==> final(self)@.pos > old(self)@.pos,
    {
        let ghost copied = output@;
        let c = self.lookup_mandatory_front()?;
        self.consume(1);
        if c == QUOTE || c == BACKSLASH || c == SLASH {
            output.push(c);
        } else if c == LOWER_B {
            output.push(BACKSPACE);
        } else if c == LOWER_F {
            output.push(FORM_FEED);
        } else if c == LOWER_N {
            output.push(LINE_FEED);
        } else if c == LOWER_R {
            output.push(CARRIAGE_RETURN);
        } else if c == LOWER_T {
            output.push(TAB);
        } else if c == LOWER_U {
            self.read_unicode_escape(output)?;
        } else {
            return Err(JsonError::InvalidEscape(c));
        }
        proof {
            if c != LOWER_U {
                assert(output@ =~= copied + seq![output@.last()]);
            }
        }
        Ok(())
    }

    /// Decodes the string whose opening quote stands at the position into
    /// `output`, emptied first, and moves behind the closing quote.
    fn read_string(&mut self, output: &mut Vec<u8>) -> (r: Result<(), JsonError>)
        requires
            old(self)@.wf(),
            old(self)@.front() == Some(QUOTE),
        ensures
            final(self)@.wf(),
            decoded(
                r,
                old(self)@,
                final(self)@,
                Seq::empty(),
                final(output)@,
                grammar::string_body(old(self)@.input, old(self)@.pos + 1),
            ),
    {
        let ghost before = self@;
        output.clear();
        self.consume(1);
        loop
            invariant
                before == old(self)@,
                before.wf(),
                self@ == before.at(self@.pos),
                before.pos < self@.pos <= before.input.len(),
                grammar::string_body(before.input, before.pos + 1) == grammar::prepend(
                    output@,
                    grammar::string_body(before.input, self@.pos),
                ),
            decreases before.input.len() - self@.pos,
        {
            let ghost here = self@.pos;
            let ghost sofar = output@;
            let c = self.lookup_mandatory_front()?;
            self.consume(1);
            if c == QUOTE {
                proof {
                    assert(sofar + Seq::<u8>::empty() =~= sofar);
                    assert(output@ =~= Seq::<u8>::empty() + sofar);
                }
                return Ok(());
            } else if c == BACKSLASH {
                self.read_escape(output)?;
                proof {
                    let piece = grammar::escape(before.input, here + 1)->Ok_0.0;
                    let rest = grammar::string_body(before.input, self@.pos);
                    match rest {
                        Ok((bytes, end)) => {
                            assert(sofar + (piece + bytes) =~= (sofar + piece) + bytes);
                        },
                        Err(_) => {},
                    }
                }
            } else if c < 0x20 {
                return Err(JsonError::ControlCharacter(c));
            } else {
                output.push(c);
                proof {
                    let rest = grammar::string_body(before.input, self@.pos);
                    match rest {
                        Ok((bytes, end)) => {
                            assert(sofar + (seq![c] + bytes) =~= sofar.push(c) + bytes);
                        },
                        Err(_) => {},
                    }
                }
            }
        }
    }

    /// Copies the run of white space at the position to `output`, emptied
    /// first, moves behind it and says what was found.
    fn lookup_front_segment_whitespaces(&mut self, output: &mut Vec<u8>) -> (found: SkipWhitespace)
        requires
            old(self)@.wf(),
        ensures
            final(self)@.wf(),
            final(self)@ == old(self)@.at(old(self)@.pos + old(self)@.run()),
            final(self)@.pos <= old(self)@.input.len(),
            old(self)@.run() == 0 ==> match old(self)@.front() {
                None => found is EmptyBuffer,
                Some(c) => found == SkipWhitespace::NoSkip(c),
            },
            old(self)@.run() > 0 ==> (found matches SkipWhitespace::Skip(space, next) && next
                == final(self)@.front() && space@ == token_text(
                old(self)@.input,
                old(self)@.pos,
                final(self)@.pos,
            )),
    {
        let found = scan::lookup_front_segment_whitespaces_impl(
            self.reader,
            self.position,
            output,
        );
        self.consume(output.len());
        found
    }

    /// Puts `event` at the end of the queue.
    fn defer(&mut self, event: JsonEvent<'static>)
        requires
            old(self)@.wf(),
            old(self)@.pending.len() < 2,
            deferrable(event@),
        ensures
            final(self)@.wf(),
            final(self)@ == old(self)@.with_pending(old(self)@.pending.push(event@)),
    {
        let ghost queue = self.remain_events@;
        self.remain_events.push_back(event);
        proof {
            assert(views(queue.push(event)) =~= views(queue).push(event@));
        }
    }

    /// Puts `state` on top of the stack.
    fn enter(&mut self, state: JsonState)
        requires
            old(self)@.wf(),
        ensures
            final(self)@.wf(),
            final(self)@ == old(self)@.with_stack(old(self)@.stack.push(state)),
    {
        self.state_stack.push(state);
    }

    /// Completes `value` inside an object or array whose state has been
    /// taken off the stack: reads the white space behind the value and the
    /// comma, if one follows, and queues what comes behind the value.
    fn read_after_element(
        &mut self,
        value: JsonEvent<'static>,
        buffer: &mut Vec<u8>,
        closer: u8,
        next: JsonState,
        last: JsonState,
        separator: JsonEvent<'static>,
    ) -> (r: Result<JsonEvent<'static>, JsonError>)
        requires
            old(self)@.wf(),
            old(self)@.pending.len() == 0,
            separator@ is NextObjectValue || separator@ is NextArrayValue,
            closer != COMMA,
        ensures
            final(self)@.wf(),
            took(
                r,
                final(self)@,
                old(self)@.after_element(
                    value@,
                    old(self)@.stack,
                    closer,
                    next,
                    last,
                    separator@,
                ),
            ),
    {
        let ghost before = self@;
        let (space, front): (Option<String>, u8) = match self.lookup_front_segment_whitespaces(
            buffer,
        ) {
            SkipWhitespace::EmptyBuffer => {
                return Err(JsonError::UnexpectedEof);
            },
            SkipWhitespace::NoSkip(front) => (None, front),
            SkipWhitespace::Skip(space, front) => match front {
                None => {
                    return Err(JsonError::UnexpectedEof);
                },
                Some(front) => (Some(space), front),
            },
        };
        if front == COMMA {
            self.consume(1);
            self.enter(next);
            match space {
                Some(space) => {
                    self.defer(JsonEvent::WhiteSpace(space));
                },
                None => {},
            }
            self.defer(separator);
            proof {
                assert(self@.pending =~= before.pending + (if before.run() == 0 {
                    Seq::<EventView>::empty()
                } else {
                    seq![
                        EventView::WhiteSpace(
                            token_text(before.input, before.pos, before.pos + before.run()),
                        ),
                    ]
                }).push(separator@));
            }
            Ok(value)
        } else if front == closer {
            self.enter(last);
            match space {
                Some(space) => {
                    self.defer(JsonEvent::WhiteSpace(space));
                },
                None => {},
            }
            proof {
                assert(self@.pending =~= before.pending + (if before.run() == 0 {
                    Seq::<EventView>::empty()
                } else {
                    seq![
                        EventView::WhiteSpace(
                            token_text(before.input, before.pos, before.pos + before.run()),
                        ),
                    ]
                }));
            }
            Ok(value)
        } else {
            Err(JsonError::MissingComma)
        }
    }

    /// Completes an object key, the state of whose object has been taken off
    /// the stack: reads the white space behind the key and the colon, and
    /// turns the string `value` into a key.
    fn read_after_key(&mut self, value: JsonEvent<'static>, buffer: &mut Vec<u8>) -> (r: Result<
        JsonEvent<'static>,
        JsonError,
    >)
        requires
            old(self)@.wf(),
            old(self)@.pending.len() == 0,
        ensures
            final(self)@.wf(),
            took(r, final(self)@, old(self)@.after_key(value@, old(self)@.stack)),
    {
        let (space, front): (Option<String>, u8) = match self.lookup_front_segment_whitespaces(
            buffer,
        ) {
            SkipWhitespace::EmptyBuffer => {
                return Err(JsonError::UnexpectedEof);
            },
            SkipWhitespace::NoSkip(front) => (None, front),
            SkipWhitespace::Skip(space, front) => match front {
                None => {
                    return Err(JsonError::UnexpectedEof);
                },
                Some(front) => (Some(space), front),
            },
        };
        if front != COLON {
            return Err(JsonError::MissingColon);
        }
        self.consume(1);
        self.enter(JsonState::ObjectValue);
        match value {
            JsonEvent::String(key) => {
                let key = JsonEvent::ObjectKey(key);
                match space {
                    None => Ok(key),
                    Some(space) => {
                        self.defer(key);
                        Ok(JsonEvent::WhiteSpace(space))
                    },
                }
            },
            _ => Err(JsonError::KeyNotString),
        }
    }

    /// Completes `value`, which was just read: looks at what the innermost
    /// open object or array, if any, asks to follow it.
    fn read_after_value(&mut self, value: JsonEvent<'static>, buffer: &mut Vec<u8>) -> (r: Result<
        JsonEvent<'static>,
        JsonError,
    >)
        requires
            old(self)@.wf(),
            old(self)@.pending.len() == 0,
        ensures
            final(self)@.wf(),
            took(r, final(self)@, old(self)@.after_value(value@)),
    {
        match self.state_stack.pop() {
            None => {
                if self.element_read {
                    Err(JsonError::TrailingContent)
                } else {
                    self.element_read = true;
                    Ok(value)
                }
            },
            Some(JsonState::FirstObjectKey) | Some(JsonState::NextObjectKey) => {
                self.read_after_key(value, buffer)
            },
            Some(JsonState::ObjectValue) => self.read_after_element(
                value,
                buffer,
                CLOSE_BRACE,
                JsonState::NextObjectKey,
                JsonState::LastObjectKey,
                JsonEvent::NextObjectValue,
            ),
            Some(JsonState::FirstArray) | Some(JsonState::NextArray) => self.read_after_element(
                value,
                buffer,
                CLOSE_BRACKET,
                JsonState::NextArray,
                JsonState::LastArray,
                JsonEvent::NextArrayValue,
            ),
            Some(JsonState::LastObjectKey) | Some(JsonState::LastArray) => Err(
                JsonError::DanglingComma,
            ),
        }
    }

    /// Reads the string at the position and completes it as a value or as
    /// an object key.
    fn parse_string(&mut self, output: &mut Vec<u8>) -> (r: Result<JsonEvent<'static>, JsonError>)
        requires
            old(self)@.wf(),
            old(self)@.pending.len() == 0,
            old(self)@.front() == Some(QUOTE),
        ensures
            final(self)@.wf(),
            took(r, final(self)@, old(self)@.string()),
    {
        self.read_string(output)?;
        match text::string_from_utf8(output.clone()) {
            Some(string) => self.read_after_value(JsonEvent::String(Cow::Owned(string)), output),
            None => Err(JsonError::InvalidUtf8),
        }
    }

    /// Reads the literal name `expected` at the position and completes
    /// `value`, which it stands for.
    fn parse_constant(
        &mut self,
        expected: Literal,
        value: JsonEvent<'static>,
        buffer: &mut Vec<u8>,
    ) -> (r: Result<JsonEvent<'static>, JsonError>)
        requires
            old(self)@.wf(),
            old(self)@.pending.len() == 0,
        ensures
            final(self)@.wf(),
            took(r, final(self)@, old(self)@.literal(expected, value@)),
    {
        let size: usize = match expected {
            Literal::True => 4,
            Literal::False => 5,
            Literal::Null => 4,
        };
        if self.reader.len() - self.position < size {
            return Err(JsonError::UnexpectedEof);
        }
        let found = vstd::slice::slice_subrange(self.reader, self.position, self.position + size);
        let spelled = match expected {
            Literal::True => found[0] == LOWER_T && found[1] == LOWER_R && found[2] == LOWER_U
                && found[3] == LOWER_E,
            Literal::False => found[0] == LOWER_F && found[1] == LOWER_A && found[2] == LOWER_L
                && found[3] == LOWER_S && found[4] == LOWER_E,
            Literal::Null => found[0] == LOWER_N && found[1] == LOWER_U && found[2] == LOWER_L
                && found[3] == LOWER_L,
        };
        proof {
            if spelled {
                assert(found@ =~= grammar::literal_bytes(expected));
            }
        }
        self.consume(size);
        if spelled {
            self.read_after_value(value, buffer)
        } else {
            Err(JsonError::InvalidLiteral { expected, found: vstd::slice::slice_to_vec(found) })
        }
    }

    /// Reads the number at the position, whose first byte is `first_byte`,
    /// and completes it.
    fn parse_number(&mut self, first_byte: u8, output: &mut Vec<u8>) -> (r: Result<
        JsonEvent<'static>,
        JsonError,
    >)
        requires
            old(self)@.wf(),
            old(self)@.pending.len() == 0,
            old(self)@.front() == Some(first_byte),
        ensures
            final(self)@.wf(),
            took(r, final(self)@, old(self)@.number()),
    {
        let ghost before = self@;
        self.read_number(first_byte, output)?;
        proof {
            grammar::lemma_number_is_ascii(before.input, before.pos);
            assert(output@ =~= before.input.subrange(before.pos, self@.pos));
            text::lemma_ascii_is_utf8(output@);
        }
        // A number token is ASCII, so the conversion cannot fail.
        match text::string_from_utf8(output.clone()) {
            Some(number) => self.read_after_value(JsonEvent::Number(Cow::Owned(number)), output),
            None => Err(JsonError::InvalidUtf8),
        }
    }

    /// The first byte at or behind the position that is no white space, if
    /// there is one; nothing is read.
    pub fn peek_front_skipping_whitespaces(&self) -> (front: Option<u8>)
        requires
            self@.wf(),
        ensures
            front == grammar::byte_at(self@.input, self@.pos + self@.run()),
    {
        let len = self.reader.len();
        let skipped = scan::skip_whitespaces(self.reader, self.position);
        let end = self.position + skipped;
        if end < len {
            Some(self.reader[end])
        } else {
            None
        }
    }

    /// Reads the next event of the document.
    ///
    /// `buffer` is scratch space that the reader fills and empties as it
    /// likes; hand the same buffer to every call.  What the call gives is
    /// [`ReaderView::next_event`] of the reader's state: on success that
    /// event, and the reader is left in the state that goes with it.
    pub fn read_event(&mut self, buffer: &mut Vec<u8>) -> (r: Result<JsonEvent<'static>, JsonError>)
        requires
            old(self)@.wf(),
        ensures
            final(self)@.wf(),
            took(r, final(self)@, old(self)@.next_event()),
    {
        let ghost before = self@;
        let ghost queue = self.remain_events@;
        match self.remain_events.pop_front() {
            Some(event) => {
                proof {
                    assert(views(queue.drop_first()) =~= views(queue).drop_first());
                }
                return Ok(event);
            },
            None => {},
        }
        match self.lookup_front_segment_whitespaces(buffer) {
            SkipWhitespace::EmptyBuffer => {
                if self.state_stack.len() == 0 && self.element_read {
                    Ok(JsonEvent::Eof)
                } else {
                    Err(JsonError::UnexpectedEof)
                }
            },
            SkipWhitespace::Skip(whitespaces, _) => Ok(JsonEvent::WhiteSpace(whitespaces)),
            SkipWhitespace::NoSkip(front) => {
                if front == OPEN_BRACE {
                    self.check_stack_size()?;
                    self.consume(1);
                    self.enter(JsonState::FirstObjectKey);
                    Ok(JsonEvent::StartObject)
                } else if front == CLOSE_BRACE {
                    self.consume(1);
                    match self.state_stack.pop() {
                        Some(JsonState::FirstObjectKey) | Some(JsonState::LastObjectKey) => {
                            self.read_after_value(JsonEvent::EndObject, buffer)
                        },
                        _ => Err(JsonError::UnmatchedClose(front)),
                    }
                } else if front == OPEN_BRACKET {
                    self.check_stack_size()?;
                    self.consume(1);
                    self.enter(JsonState::FirstArray);
                    Ok(JsonEvent::StartArray)
                } else if front == CLOSE_BRACKET {
                    self.consume(1);
                    match self.state_stack.pop() {
                        Some(JsonState::FirstArray) | Some(JsonState::LastArray) => {
                            self.read_after_value(JsonEvent::EndArray, buffer)
                        },
                        _ => Err(JsonError::UnmatchedClose(front)),
                    }
                } else if front == QUOTE {
                    self.parse_string(buffer)
                } else if front == LOWER_T {
                    self.parse_constant(Literal::True, JsonEvent::Boolean(true), buffer)
                } else if front == LOWER_F {
                    self.parse_constant(Literal::False, JsonEvent::Boolean(false), buffer)
                } else if front == LOWER_N {
                    self.parse_constant(Literal::Null, JsonEvent::Null, buffer)
                } else if front == MINUS || (DIGIT_0 <= front && front <= DIGIT_9) {
                    self.parse_number(front, buffer)
                } else {
                    self.consume(1);
                    Err(JsonError::UnexpectedCharacter(front))
                }
            },
        }
    }

    /// Whether one more object or array may be opened: it may not where a
    /// limit is set and the stack with one more state would exceed it.
    fn check_stack_size(&self) -> (r: Result<(), JsonError>)
        requires
            self@.wf(),
        ensures
            r is Err <==> (self@.max_stack_size matches Some(max) && self@.stack.len() + 1 > max),
            r is Err <==> !self@.may_open(),
            r matches Err(e) ==> e@ == ErrorView::DepthExceeded(self@.max_stack_size->0),
    {
        match self.max_stack_size {
            Some(max_stack_size) => {
                if self.state_stack.len() >= max_stack_size {
                    Err(JsonError::DepthExceeded(max_stack_size))
                } else {
                    Ok(())
                }
            },
            None => Ok(()),
        }
    }
}

} // verus!
