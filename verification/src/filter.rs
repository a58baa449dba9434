//! A filter over the events of a Jupyter notebook that drops what running
//! the notebook left behind: the outputs and execution counts of its cells,
//! and the `collapsed` entry of their metadata.
//!
//! The filter is fed the events of the document one by one and writes those
//! that stay.  White space is held back until the next event decides whether
//! it stays.
use crate::error::JsonError;
use crate::event::{cow_as_str, EventView, JsonEvent};
use crate::write::JsonWriter;
use vstd::prelude::*;

verus! {

/// Where in the notebook the filter is.
#[derive(Debug, Clone, Copy, PartialEq, Eq)]
pub enum State {
    /// Before the `cells` key.
    Root,
    /// Behind the `cells` key.
    Cells,
    /// Inside the array of cells, before anything of interest.
    CellsArrayStart,
    /// Behind an `outputs` key.
    Outputs,
    /// Inside an array of outputs.
    OutputsArrayStart,
    /// Inside the array of cells, behind something that was treated.
    OutputsArrayEnd,
    /// Behind an `execution_count` key.
    ExecutionCount,
    /// Behind a `metadata` key.
    MetaData,
    /// Behind a `collapsed` key inside metadata.
    Collapsed,
}

/// The mathematical value of a [`NotebookFilter`].
pub struct FilterView {
    pub state: State,
    /// How many arrays are open inside an array of outputs, that array
    /// included.
    pub stack: nat,
    /// Whether events are being dropped.
    pub skip: bool,
    /// The white space held back, oldest first.
    pub spaces: Seq<Seq<char>>,
}

/// The bytes of runs of white space, one after the other.
pub open spec fn spaces_bytes(spaces: Seq<Seq<char>>) -> Seq<u8>
    decreases spaces.len(),
{
    if spaces.len() == 0 {
        Seq::empty()
    } else {
        spaces_bytes(spaces.drop_last()) + vstd::utf8::encode_utf8(spaces.last())
    }
}

/// What flushing writes: nothing while events are dropped, else the white
/// space held back and the event behind it.
pub open spec fn flushed(skip: bool, spaces: Seq<Seq<char>>, event: EventView) -> Seq<u8> {
    if skip {
        Seq::empty()
    } else {
        spaces_bytes(spaces) + crate::write::event_bytes(event)
    }
}

/// Whether `event` is the object key `name`.
pub open spec fn is_key(event: EventView, name: Seq<char>) -> bool {
    event matches EventView::ObjectKey(key) && key == name
}

impl FilterView {
    /// The value of a filter that has seen nothing yet.
    pub open spec fn start() -> FilterView {
        FilterView { state: State::Root, stack: 0, skip: false, spaces: Seq::empty() }
    }

    /// What every filter's value satisfies.
    pub open spec fn wf(self) -> bool {
        &&& self.stack <= usize::MAX
        &&& self.state == State::OutputsArrayStart ==> self.stack >= 1
    }

    /// Whether the filter is among the entries of a cell.
    pub open spec fn in_cell(self) -> bool {
        self.state == State::CellsArrayStart || self.state == State::OutputsArrayEnd
    }

    /// The first half of a step: what is written for `event`, and the value
    /// of the filter behind that.
    pub open spec fn write_phase(self, event: EventView) -> (FilterView, Seq<u8>) {
        if self.state == State::OutputsArrayStart && event == EventView::EndArray {
            let stack = (self.stack - 1) as nat;
            let done = stack == 0;
            let skip = self.skip && !done;
            (
                FilterView {
                    state: if done {
                        State::OutputsArrayEnd
                    } else {
                        self.state
                    },
                    stack,
                    skip,
                    spaces: Seq::empty(),
                },
                flushed(skip, Seq::empty(), event),
            )
        } else if self.state == State::ExecutionCount && (event is Number || event
            == EventView::Null) {
            (
                FilterView {
                    state: State::OutputsArrayEnd,
                    skip: false,
                    spaces: Seq::empty(),
                    ..self
                },
                flushed(false, self.spaces, EventView::Null),
            )
        } else if self.state == State::MetaData && event == EventView::EndObject {
            (
                FilterView { state: State::OutputsArrayEnd, spaces: Seq::empty(), ..self },
                flushed(self.skip, self.spaces, event),
            )
        } else if self.state == State::Collapsed && event == EventView::NextObjectValue {
            (FilterView { state: State::MetaData, skip: false, ..self }, Seq::empty())
        } else if self.state == State::MetaData && is_key(event, "collapsed"@) {
            (FilterView { state: State::Collapsed, skip: true, ..self }, Seq::empty())
        } else if event is WhiteSpace {
            (FilterView { spaces: self.spaces.push(event->WhiteSpace_0), ..self }, Seq::empty())
        } else {
            (FilterView { spaces: Seq::empty(), ..self }, flushed(self.skip, self.spaces, event))
        }
    }

    /// The second half of a step: where `event` takes the filter.
    pub open spec fn track_phase(self, event: EventView) -> FilterView {
        if self.state == State::Root && is_key(event, "cells"@) {
            FilterView { state: State::Cells, ..self }
        } else if self.state == State::Cells && event == EventView::StartArray {
            FilterView { state: State::CellsArrayStart, ..self }
        } else if self.in_cell() && is_key(event, "outputs"@) {
            FilterView { state: State::Outputs, ..self }
        } else if self.in_cell() && is_key(event, "execution_count"@) {
            FilterView { state: State::ExecutionCount, skip: true, ..self }
        } else if self.in_cell() && is_key(event, "metadata"@) {
            FilterView { state: State::MetaData, ..self }
        } else if self.state == State::Outputs && event == EventView::StartArray {
            FilterView { state: State::OutputsArrayStart, skip: true, stack: self.stack + 1, ..self }
        } else if self.state == State::OutputsArrayStart && event == EventView::StartArray {
            FilterView { stack: self.stack + 1, ..self }
        } else {
            self
        }
    }

    /// One step: what is written for `event`, and the value of the filter
    /// behind it.
    pub open spec fn step(self, event: EventView) -> (FilterView, Seq<u8>) {
        let (middle, written) = self.write_phase(event);
        (middle.track_phase(event), written)
    }
}

/// The texts of the strings in `spaces`.
pub open spec fn texts(spaces: Seq<String>) -> Seq<Seq<char>> {
    spaces.map_values(|s: String| s@)
}

/// Whether two texts are the same.
fn same_text(a: &str, b: &str) -> (same: bool)
    ensures
        same == (a@ == b@),
{
    let x = a.as_bytes();
    let y = b.as_bytes();
    proof {
        vstd::utf8::encode_utf8_decode_utf8(a@);
        vstd::utf8::encode_utf8_decode_utf8(b@);
    }
    if x.len() != y.len() {
        return false;
    }
    let mut i: usize = 0;
    while i < x.len()
        invariant
            i <= x@.len(),
            x@.len() == y@.len(),
            x@.take(i as int) == y@.take(i as int),
            x@ == vstd::utf8::encode_utf8(a@),
            y@ == vstd::utf8::encode_utf8(b@),
            vstd::utf8::decode_utf8(vstd::utf8::encode_utf8(a@)) == a@,
            vstd::utf8::decode_utf8(vstd::utf8::encode_utf8(b@)) == b@,
        decreases x@.len() - i,
    {
        if x[i] != y[i] {
            proof {
                if a@ == b@ {
                    assert(x@[i as int] == y@[i as int]);
                }
            }
            return false;
        }
        proof {
            assert(x@.take(i + 1) =~= x@.take(i as int).push(x@[i as int]));
            assert(y@.take(i + 1) =~= y@.take(i as int).push(y@[i as int]));
        }
        i = i + 1;
    }
    proof {
        assert(x@.take(i as int) =~= x@);
        assert(y@.take(i as int) =~= y@);
    }
    true
}

/// Whether `event` is the object key `name`.
fn event_is_key(event: &JsonEvent, name: &str) -> (r: bool)
    ensures
        r == is_key(event@, name@),
{
    match event {
        JsonEvent::ObjectKey(key) => same_text(cow_as_str(key), name),
        _ => false,
    }
}

/// Writes the white space held back in `spaces` and `event` behind it,
/// unless `skip` says to drop them; either way `spaces` is empty afterwards.
pub fn flush_events(
    skip: bool,
    writer: &mut JsonWriter,
    spaces: &mut Vec<String>,
    event: &JsonEvent,
) -> (r: Result<(), JsonError>)
    ensures
        r is Ok,
        final(spaces)@.len() == 0,
        final(writer)@ == old(writer)@ + flushed(skip, texts(old(spaces)@), event@),
{
    let ghost before = writer@;
    if !skip {
        let mut i: usize = 0;
        while i < spaces.len()
            invariant
                i <= spaces@.len(),
                spaces@ == old(spaces)@,
                writer@ == before + spaces_bytes(texts(spaces@).take(i as int)),
            decreases spaces@.len() - i,
        {
            let space = spaces[i].clone();
            proof {
                let all = texts(spaces@);
                assert(all.take(i + 1).drop_last() =~= all.take(i as int));
                assert(all.take(i + 1).last() == spaces@[i as int]@);
                assert((before + spaces_bytes(all.take(i as int))) + vstd::utf8::encode_utf8(
                    space@,
                ) =~= before + spaces_bytes(all.take(i + 1)));
            }
            writer.write_event(JsonEvent::WhiteSpace(space))?;
            i = i + 1;
        }
        proof {
            let all = texts(spaces@);
            assert(all.take(i as int) =~= all);
        }
        let ghost held = writer@;
        writer.write_event(event.into_owned())?;
        proof {
            assert(writer@ =~= before + flushed(skip, texts(old(spaces)@), event@));
        }
    } else {
        proof {
            assert(writer@ =~= before + flushed(skip, texts(old(spaces)@), event@));
        }
    }
    spaces.clear();
    Ok(())
}

/// The filter: its place in the notebook and the white space it holds back.
pub struct NotebookFilter {
    state: State,
    stack: usize,
    skip: bool,
    save_spaces: Vec<String>,
}

impl View for NotebookFilter {
    type V = FilterView;

    closed spec fn view(&self) -> FilterView {
        FilterView {
            state: self.state,
            stack: self.stack as nat,
            skip: self.skip,
            spaces: texts(self.save_spaces@),
        }
    }
}

impl NotebookFilter {
    /// A filter at the start of a notebook.
    pub fn new() -> (filter: Self)
        ensures
            filter@ == FilterView::start(),
            filter@.wf(),
    {
        let filter = NotebookFilter {
            state: State::Root,
            stack: 0,
            skip: false,
            save_spaces: Vec::new(),
        };
        assert(filter@.spaces =~= Seq::empty());
        filter
    }

    /// Takes the next event of the notebook and writes to `writer` what
    /// stays of it and of the white space before it; see
    /// [`FilterView::step`].
    ///
    /// Arrays nested in an array of outputs are counted.  The call fails,
    /// after it has written, where one more would overflow the counter.
    pub fn filter_event(&mut self, event: &JsonEvent, writer: &mut JsonWriter) -> (r: Result<
        (),
        JsonError,
    >)
        requires
            old(self)@.wf(),
        ensures
            final(self)@.wf(),
            final(writer)@ == old(writer)@ + old(self)@.step(event@).1,
            old(self)@.step(event@).0.stack <= usize::MAX ==> r is Ok && final(self)@ == old(
                self,
            )@.step(event@).0,
            old(self)@.step(event@).0.stack > usize::MAX ==> (r matches Err(e) && e@
                == crate::error::ErrorView::DepthExceeded(usize::MAX)),
    {
        let ghost before = writer@;
        let ghost start = self@;
        let in_outputs = matches!(self.state, State::OutputsArrayStart);
        let in_count = matches!(self.state, State::ExecutionCount);
        let in_metadata = matches!(self.state, State::MetaData);
        let in_collapsed = matches!(self.state, State::Collapsed);
        if in_outputs && matches!(event, JsonEvent::EndArray) {
            self.stack = self.stack - 1;
            if self.stack == 0 {
                self.state = State::OutputsArrayEnd;
                self.skip = false;
            }
            self.save_spaces.clear();
            flush_events(self.skip, writer, &mut self.save_spaces, event)?;
            proof {
                assert(texts(Seq::<String>::empty()) =~= Seq::<Seq<char>>::empty());
            }
        } else if in_count && matches!(event, JsonEvent::Number(_) | JsonEvent::Null) {
            self.state = State::OutputsArrayEnd;
            self.skip = false;
            flush_events(self.skip, writer, &mut self.save_spaces, &JsonEvent::Null)?;
        } else if in_metadata && matches!(event, JsonEvent::EndObject) {
            self.state = State::OutputsArrayEnd;
            flush_events(self.skip, writer, &mut self.save_spaces, event)?;
        } else if in_collapsed && matches!(event, JsonEvent::NextObjectValue) {
            self.state = State::MetaData;
            self.skip = false;
            proof {
                assert(writer@ =~= before + Seq::<u8>::empty());
            }
        } else if in_metadata && event_is_key(event, "collapsed") {
            self.state = State::Collapsed;
            self.skip = true;
            proof {
                assert(writer@ =~= before + Seq::<u8>::empty());
            }
        } else {
            match event {
                JsonEvent::WhiteSpace(space) => {
                    let ghost held = self.save_spaces@;
                    self.save_spaces.push(space.clone());
                    proof {
                        assert(texts(held.push(self.save_spaces@.last())) =~= texts(held).push(
                            space@,
                        ));
                        assert(writer@ =~= before + Seq::<u8>::empty());
                    }
                },
                _ => {
                    flush_events(self.skip, writer, &mut self.save_spaces, event)?;
                },
            }
        }
        proof {
            assert(self@.spaces =~= start.write_phase(event@).0.spaces);
            assert(self@ == start.write_phase(event@).0);
        }
        let in_cell = matches!(self.state, State::CellsArrayStart | State::OutputsArrayEnd);
        if matches!(self.state, State::Root) && event_is_key(event, "cells") {
            self.state = State::Cells;
        } else if matches!(self.state, State::Cells) && matches!(event, JsonEvent::StartArray) {
            self.state = State::CellsArrayStart;
        } else if in_cell && event_is_key(event, "outputs") {
            self.state = State::Outputs;
        } else if in_cell && event_is_key(event, "execution_count") {
            self.state = State::ExecutionCount;
            self.skip = true;
        } else if in_cell && event_is_key(event, "metadata") {
            self.state = State::MetaData;
        } else if matches!(self.state, State::Outputs | State::OutputsArrayStart) && matches!(
            event,
            JsonEvent::StartArray
        ) {
            if self.stack == usize::MAX {
                return Err(JsonError::DepthExceeded(usize::MAX));
            }
            if matches!(self.state, State::Outputs) {
                self.state = State::OutputsArrayStart;
                self.skip = true;
            }
            self.stack = self.stack + 1;
        }
        Ok(())
    }
}

} // verus!
