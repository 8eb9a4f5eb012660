//! The mathematical model of the validator: a list of frames, root first,
//! and the transition that each event makes on it.

use crate::error::Expecting;
use vstd::prelude::*;

verus! {

/// The most frames that can be open at once.
pub const CAPACITY: u8 = 12;

/// The part of a document that a frame is working on.
#[derive(Clone, Copy, PartialEq, Eq, Debug, Structural)]
pub enum Slot {
    /// The one top-level item.
    Root,
    /// A key of a map.
    MapKey,
    /// A value of a map. A map that has begun no entry is kept at this slot
    /// with `used` unset: it has entered no value yet.
    MapValue,
    /// An element of a sequence. A sequence that has begun no element is kept
    /// at this slot with `used` unset: it has entered no element yet.
    SeqElem,
}

/// One frame: the slot it is at, whether that slot still waits for its item,
/// and whether the frame has begun a key or an element since it was opened.
#[derive(Clone, Copy, PartialEq, Eq, Debug, Structural)]
pub struct Frame {
    pub slot: Slot,
    pub pending: bool,
    pub used: bool,
}

/// One structural event of a stream.
#[derive(Clone, Copy, PartialEq, Eq, Debug, Structural)]
pub enum Event {
    Primitive,
    MapBegin,
    MapKey,
    MapValue,
    MapEnd,
    SeqBegin,
    SeqElem,
    SeqEnd,
}

/// A map or sequence that was just begun: it has no key or element yet.
pub open spec fn opened(slot: Slot) -> Frame {
    Frame { slot, pending: false, used: false }
}

/// A frame that has begun a key, a value or an element and waits for its item.
pub open spec fn entered(slot: Slot) -> Frame {
    Frame { slot, pending: true, used: true }
}

/// A frame whose key, value or element has its item.
pub open spec fn done(slot: Slot) -> Frame {
    Frame { slot, pending: false, used: true }
}

/// Whether a frame is at the given slot and waits for no item. A map in this
/// state at `Slot::MapValue` waits for its next key or its end; at
/// `Slot::MapKey` it waits for the value.
pub open spec fn rests(f: Frame, slot: Slot) -> bool {
    f.slot == slot && !f.pending
}

/// The root before its item.
pub open spec fn root_waiting() -> Frame {
    Frame { slot: Slot::Root, pending: true, used: false }
}

/// The root once it has its item.
pub open spec fn root_done() -> Frame {
    Frame { slot: Slot::Root, pending: false, used: false }
}

/// The frames of a validator that has seen nothing.
pub open spec fn fresh() -> Seq<Frame> {
    seq![root_waiting()]
}

/// The number of open frames; the root is not counted.
pub open spec fn depth_of(s: Seq<Frame>) -> int {
    s.len() - 1
}

/// The frames with the top one replaced.
pub open spec fn with_top(s: Seq<Frame>, f: Frame) -> Seq<Frame> {
    s.update(s.len() - 1, f)
}

/// The frames once the item that the top frame waits for has arrived.
pub open spec fn filled(s: Seq<Frame>) -> Seq<Frame> {
    with_top(s, Frame { slot: s.last().slot, pending: false, used: s.last().used })
}

/// What every reachable list of frames satisfies: the root is at the bottom
/// and nowhere else, at most `CAPACITY` frames are open above it, and only
/// the top frame can wait for an item.
pub open spec fn valid(s: Seq<Frame>) -> bool {
    &&& 1 <= s.len() <= CAPACITY + 1
    &&& s[0].slot == Slot::Root
    &&& forall|i: int| 1 <= i < s.len() ==> (#[trigger] s[i]).slot != Slot::Root
    &&& forall|i: int| 0 <= i < s.len() - 1 ==> !(#[trigger] s[i]).pending
}

/// Whether the stream is complete: nothing is open and the root has its item.
pub open spec fn complete(s: Seq<Frame>) -> bool {
    s.len() == 1 && !s[0].pending
}

/// Whether event `e` is legal in state `s`.
pub open spec fn accepts(s: Seq<Frame>, e: Event) -> bool {
    match e {
        Event::Primitive => s.last().pending,
        Event::MapBegin | Event::SeqBegin => depth_of(s) < CAPACITY && s.last().pending,
        Event::MapKey | Event::MapEnd => rests(s.last(), Slot::MapValue),
        Event::MapValue => rests(s.last(), Slot::MapKey),
        Event::SeqElem | Event::SeqEnd => rests(s.last(), Slot::SeqElem),
    }
}

/// The state that a legal event `e` leads to from state `s`.
pub open spec fn after(s: Seq<Frame>, e: Event) -> Seq<Frame> {
    match e {
        Event::Primitive => filled(s),
        Event::MapBegin => filled(s).push(opened(Slot::MapValue)),
        Event::SeqBegin => filled(s).push(opened(Slot::SeqElem)),
        Event::MapKey => with_top(s, entered(Slot::MapKey)),
        Event::MapValue => with_top(s, entered(Slot::MapValue)),
        Event::SeqElem => with_top(s, entered(Slot::SeqElem)),
        Event::MapEnd | Event::SeqEnd => s.drop_last(),
    }
}

/// Whether the position after the legal event `e` is that of an empty map:
/// a map that was just begun, or one that was closed without an entry.
pub open spec fn empty_map(s: Seq<Frame>, e: Event) -> bool {
    e == Event::MapBegin || (e == Event::MapEnd && !s.last().used)
}

/// Whether the position after the legal event `e` is that of an empty
/// sequence: one that was just begun, or one that was closed without an
/// element.
pub open spec fn empty_seq(s: Seq<Frame>, e: Event) -> bool {
    e == Event::SeqBegin || (e == Event::SeqEnd && !s.last().used)
}

/// What the error says was expected when event `e` is illegal in state `s`.
/// A full validator refuses a new frame for its depth, whatever its top
/// frame waits for.
pub open spec fn refusal(s: Seq<Frame>, e: Event) -> Expecting {
    match e {
        Event::Primitive => Expecting::Primitive,
        Event::MapBegin => if depth_of(s) >= CAPACITY {
            Expecting::MapDepth
        } else {
            Expecting::MapBegin
        },
        Event::MapKey => Expecting::MapKey,
        Event::MapValue => Expecting::MapValue,
        Event::MapEnd => Expecting::MapEnd,
        Event::SeqBegin => if depth_of(s) >= CAPACITY {
            Expecting::SeqDepth
        } else {
            Expecting::SeqBegin
        },
        Event::SeqElem => Expecting::SeqElem,
        Event::SeqEnd => Expecting::SeqEnd,
    }
}

/// The state after a whole run of events, or `None` if one of them is illegal.
pub open spec fn run(s: Seq<Frame>, events: Seq<Event>) -> Option<Seq<Frame>>
    decreases events.len(),
{
    if events.len() == 0 {
        Some(s)
    } else if accepts(s, events[0]) {
        run(after(s, events[0]), events.drop_first())
    } else {
        None
    }
}

/// The state at which the run stops: after its last event if all are legal,
/// before the first illegal one if not.
pub open spec fn halt(s: Seq<Frame>, events: Seq<Event>) -> Seq<Frame>
    decreases events.len(),
{
    if events.len() == 0 || !accepts(s, events[0]) {
        s
    } else {
        halt(after(s, events[0]), events.drop_first())
    }
}

/// What was expected by the first event of the run that is illegal, or `None`
/// if every event is legal.
pub open spec fn first_refusal(s: Seq<Frame>, events: Seq<Event>) -> Option<Expecting>
    decreases events.len(),
{
    if events.len() == 0 {
        None
    } else if accepts(s, events[0]) {
        first_refusal(after(s, events[0]), events.drop_first())
    } else {
        Some(refusal(s, events[0]))
    }
}

/// The states that the run passes through, one after each legal event, up to
/// the first illegal one.
pub open spec fn positions(s: Seq<Frame>, events: Seq<Event>) -> Seq<Seq<Frame>>
    decreases events.len(),
{
    if events.len() == 0 || !accepts(s, events[0]) {
        Seq::empty()
    } else {
        seq![after(s, events[0])] + positions(after(s, events[0]), events.drop_first())
    }
}

/// The state in which the run meets its event `i`.
pub open spec fn state_before(s: Seq<Frame>, events: Seq<Event>, i: int) -> Seq<Frame> {
    if i == 0 {
        s
    } else {
        positions(s, events)[i - 1]
    }
}

} // verus!
