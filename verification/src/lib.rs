//! A streaming JSON reader that reports a document as a sequence of events,
//! white space included, and a writer that turns events back into text.
//!
//! The reader walks a document held in memory and hands out one
//! [`JsonEvent`] per call; the writer appends the text of each event to a byte
//! buffer.  Feeding every event of a document to the writer gives the document
//! back, which is what makes it possible to edit part of a large document and
//! leave the layout of the rest untouched.
#![allow(unused_imports)]

pub mod ascii;
pub mod error;
pub mod event;
pub mod filter;
pub mod grammar;
pub mod laws;
pub mod read;
pub mod scan;
pub mod text;
pub mod write;

pub use error::{JsonError, JsonErrorKind, Literal};
pub use event::JsonEvent;
pub use filter::{flush_events, NotebookFilter};
pub use read::JsonReader;
pub use write::JsonWriter;
