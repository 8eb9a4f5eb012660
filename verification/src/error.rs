//! The errors of the validator.

use vstd::prelude::*;

verus! {

/// What the validator expected when it refused an event.
#[derive(Clone, Copy, PartialEq, Eq, Debug, Structural)]
pub enum Expecting {
    Primitive,
    MapBegin,
    MapKey,
    MapValue,
    MapEnd,
    SeqBegin,
    SeqElem,
    SeqEnd,
    /// Room for one more frame, asked for by a map.
    MapDepth,
    /// Room for one more frame, asked for by a sequence.
    SeqDepth,
    /// A complete stream.
    End,
}

/// The three kinds of failure.
#[derive(Clone, Copy, PartialEq, Eq, Debug, Structural)]
pub enum ErrorKind {
    /// An event came while the validator was in no state to take it.
    Protocol,
    /// A map or sequence was begun with every frame in use.
    DepthExceeded,
    /// The stream was ended before it was complete.
    Incomplete,
}

/// A refused event.
#[derive(Clone, Copy, PartialEq, Eq, Debug, Structural)]
pub struct Error {
    pub expecting: Expecting,
}

/// The kind of failure that each expectation stands for.
pub open spec fn kind_of(e: Expecting) -> ErrorKind {
    match e {
        Expecting::MapDepth | Expecting::SeqDepth => ErrorKind::DepthExceeded,
        Expecting::End => ErrorKind::Incomplete,
        _ => ErrorKind::Protocol,
    }
}

/// The words for each expectation.
pub open spec fn text_of(e: Expecting) -> Seq<char> {
    match e {
        Expecting::Primitive => "expecting a primitive"@,
        Expecting::MapBegin => "expecting the start of a map"@,
        Expecting::MapKey => "expecting a map key"@,
        Expecting::MapValue => "expecting a map value"@,
        Expecting::MapEnd => "expecting the end of a map"@,
        Expecting::SeqBegin => "expecting the start of a sequence"@,
        Expecting::SeqElem => "expecting a sequence element"@,
        Expecting::SeqEnd => "expecting the end of a sequence"@,
        Expecting::MapDepth => "expecting more depth at the start of a map"@,
        Expecting::SeqDepth => "expecting more depth at the start of a sequence"@,
        Expecting::End => "expecting the end of the stream"@,
    }
}

impl Error {
    /// An error that says what was expected.
    pub fn custom(expecting: Expecting) -> (r: Error)
        ensures
            r == (Error { expecting }),
    {
        Error { expecting }
    }

    /// The kind of this failure.
    pub fn kind(&self) -> (r: ErrorKind)
        ensures
            r == kind_of(self.expecting),
    {
        match self.expecting {
            Expecting::MapDepth | Expecting::SeqDepth => ErrorKind::DepthExceeded,
            Expecting::End => ErrorKind::Incomplete,
            _ => ErrorKind::Protocol,
        }
    }

    /// A short description of what was expected.
    pub fn message(&self) -> (r: &'static str)
        ensures
            r@ == text_of(self.expecting),
    {
        match self.expecting {
            Expecting::Primitive => "expecting a primitive",
            Expecting::MapBegin => "expecting the start of a map",
            Expecting::MapKey => "expecting a map key",
            Expecting::MapValue => "expecting a map value",
            Expecting::MapEnd => "expecting the end of a map",
            Expecting::SeqBegin => "expecting the start of a sequence",
            Expecting::SeqElem => "expecting a sequence element",
            Expecting::SeqEnd => "expecting the end of a sequence",
            Expecting::MapDepth => "expecting more depth at the start of a map",
            Expecting::SeqDepth => "expecting more depth at the start of a sequence",
            Expecting::End => "expecting the end of the stream",
        }
    }
}

} // verus!
