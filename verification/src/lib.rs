//! A fixed-size validator for streams of structured values.
//!
//! A producer describes a value as a run of events: a primitive, the start and
//! end of a map or a sequence, and the start of each key, value and element.
//! The [`Stack`] accepts one event at a time and rejects any event that would
//! make the run an ill-formed document. Its whole state is one packed word
//! and a depth counter; every contract is stated over a list of [`Frame`]s.

pub mod depth;
pub mod error;
pub mod grammar;
pub mod laws;
pub mod model;
mod packed;
pub mod pos;
pub mod stack;

pub use crate::depth::Depth;
pub use crate::error::{Error, ErrorKind, Expecting};
pub use crate::model::{Event, Frame, Slot};
pub use crate::pos::Pos;
pub use crate::stack::Stack;
