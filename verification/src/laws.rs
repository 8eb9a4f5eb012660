//! What holds of every state and of every run of events.

use crate::error::{kind_of, Error, ErrorKind};
use crate::model::{
    accepts, after, depth_of, first_refusal, fresh, halt, positions, refusal, run, valid, Event,
    Frame, Slot, CAPACITY,
};
use crate::pos::Pos;
use crate::stack::fed;
use vstd::prelude::*;

verus! {

/// The event that starts the next slot of an open map or sequence whose top
/// frame has its item.
pub open spec fn next_slot(f: Frame) -> Event {
    match f.slot {
        Slot::MapKey => Event::MapValue,
        Slot::SeqElem => Event::SeqElem,
        _ => Event::MapKey,
    }
}

/// A new validator is in a valid state.
pub proof fn lemma_fresh_valid()
    ensures
        valid(fresh()),
        depth_of(fresh()) == 0,
{
}

/// A legal event leads from a valid state to a valid state: the depth stays
/// between zero and the capacity. A begin adds one to it, an end takes one
/// off, and every other event leaves it as it is.
pub proof fn lemma_step_valid(s: Seq<Frame>, e: Event)
    requires
        valid(s),
        accepts(s, e),
    ensures
        valid(after(s, e)),
        0 <= depth_of(after(s, e)) <= CAPACITY,
        depth_of(after(s, e)) == depth_of(s) + match e {
            Event::MapBegin | Event::SeqBegin => 1int,
            Event::MapEnd | Event::SeqEnd => -1int,
            _ => 0int,
        },
{
}

/// Every state that a run of legal events reaches from a valid state is
/// valid, so its depth is between zero and the capacity.
pub proof fn lemma_run_valid(s: Seq<Frame>, events: Seq<Event>)
    requires
        valid(s),
        run(s, events) is Some,
    ensures
        valid(run(s, events).unwrap()),
        0 <= depth_of(run(s, events).unwrap()) <= CAPACITY,
    decreases events.len(),
{
    if events.len() > 0 {
        lemma_step_valid(s, events[0]);
        lemma_run_valid(after(s, events[0]), events.drop_first());
    }
}

/// A refused event is refused again: the first refusal leaves the state as
/// it was, so the same call fails once more, with the same error.
pub proof fn lemma_refusal_repeats(
    s: Seq<Frame>,
    e: Event,
    first_state: Seq<Frame>,
    first: Result<Pos, Error>,
    second_state: Seq<Frame>,
    second: Result<Pos, Error>,
)
    requires
        fed(s, e, first_state, first),
        first is Err,
        fed(first_state, e, second_state, second),
    ensures
        second == first,
        second_state == s,
{
}

/// Below the capacity, a frame that waits for its item takes a new map or
/// sequence, and the new frame is one deeper.
pub proof fn lemma_begin_below_capacity(s: Seq<Frame>)
    requires
        valid(s),
        s.last().pending,
        depth_of(s) < CAPACITY,
    ensures
        accepts(s, Event::MapBegin),
        accepts(s, Event::SeqBegin),
        depth_of(after(s, Event::MapBegin)) == depth_of(s) + 1,
        depth_of(after(s, Event::SeqBegin)) == depth_of(s) + 1,
{
}

/// At the capacity, a new map or sequence is refused for its depth.
pub proof fn lemma_begin_at_capacity(s: Seq<Frame>)
    requires
        valid(s),
        depth_of(s) == CAPACITY,
    ensures
        !accepts(s, Event::MapBegin),
        !accepts(s, Event::SeqBegin),
        kind_of(refusal(s, Event::MapBegin)) == ErrorKind::DepthExceeded,
        kind_of(refusal(s, Event::SeqBegin)) == ErrorKind::DepthExceeded,
{
}

/// Once a frame is closed at the capacity, the frame under it can start its
/// next slot, and that slot takes a new map or sequence, again at the
/// capacity.
pub proof fn lemma_reopen_at_capacity(s: Seq<Frame>, close: Event, begin: Event)
    requires
        valid(s),
        depth_of(s) == CAPACITY,
        close == Event::MapEnd || close == Event::SeqEnd,
        begin == Event::MapBegin || begin == Event::SeqBegin,
        accepts(s, close),
    ensures
        accepts(after(s, close), next_slot(after(s, close).last())),
        accepts(after(after(s, close), next_slot(after(s, close).last())), begin),
        run(s, seq![close, next_slot(after(s, close).last()), begin]) is Some,
        depth_of(run(s, seq![close, next_slot(after(s, close).last()), begin]).unwrap())
            == CAPACITY,
{
    let t = after(s, close);
    let slot = next_slot(t.last());
    let u = after(t, slot);
    assert(t.last() == s[s.len() - 2]);
    assert(!t.last().pending);
    assert(accepts(t, slot));
    assert(accepts(u, begin));
    let events = seq![close, slot, begin];
    let rest = events.drop_first();
    assert(rest[0] == slot);
    assert(rest.drop_first()[0] == begin);
    assert(rest.drop_first().drop_first().len() == 0);
    assert(run(after(u, begin), rest.drop_first().drop_first()) == Some(after(u, begin)));
    assert(run(u, rest.drop_first()) == Some(after(u, begin)));
    assert(run(t, rest) == Some(after(u, begin)));
    assert(run(s, events) == Some(after(u, begin)));
}

/// The positions of a run of legal events: one for each event, each the
/// state that the events up to it lead to.
pub proof fn lemma_positions(s: Seq<Frame>, events: Seq<Event>, i: int)
    requires
        run(s, events) is Some,
        0 <= i < events.len(),
    ensures
        first_refusal(s, events) is None,
        halt(s, events) == run(s, events).unwrap(),
        positions(s, events).len() == events.len(),
        run(s, events.take(i + 1)) == Some(positions(s, events)[i]),
    decreases events.len(),
{
    let rest = events.drop_first();
    let next = after(s, events[0]);
    let part = events.take(i + 1);
    assert(part[0] == events[0]);
    assert(part.drop_first() =~= rest.take(i));
    assert(positions(s, events) == seq![next] + positions(next, rest));
    assert(run(s, part) == run(next, rest.take(i)));
    if rest.len() > 0 {
        lemma_positions(next, rest, if i > 0 { i - 1 } else { 0 });
    } else {
        assert(positions(next, rest).len() == 0);
        assert(halt(next, rest) == next);
        assert(run(next, rest) == Some(next));
    }
    if i == 0 {
        assert(rest.take(0).len() == 0);
        assert(run(next, rest.take(0)) == Some(next));
    } else {
        assert(positions(s, events)[i] == positions(next, rest)[i - 1]);
    }
}

/// A cleared validator replays a run of events as a new one does: `clear`
/// leaves the frames of a new validator, and the outcome of a run, the
/// positions it passes through and the error that stops it depend on
/// nothing but the frames it starts from.
pub proof fn lemma_clear_replays(cleared: Seq<Frame>, events: Seq<Event>)
    requires
        cleared == fresh(),
    ensures
        run(cleared, events) == run(fresh(), events),
        halt(cleared, events) == halt(fresh(), events),
        positions(cleared, events) == positions(fresh(), events),
        first_refusal(cleared, events) == first_refusal(fresh(), events),
{
}

} // verus!
