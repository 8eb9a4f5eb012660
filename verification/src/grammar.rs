//! The grammar of well-formed streams, and the proof that the validator
//! accepts each of them and finds it complete at its end, not before.

use crate::model::{
    accepts, after, complete, depth_of, done, entered, filled, fresh, rests, root_done, run,
    with_top, Event, Frame, Slot, CAPACITY,
};
use vstd::prelude::*;

verus! {

/// One complete value: a primitive, a map or a sequence.
#[derive(Debug)]
pub enum Item {
    Primitive,
    Mapping(Entries),
    Sequence(Elems),
}

/// The entries of a map, first to last.
#[derive(Debug)]
pub enum Entries {
    End,
    Entry(Box<Item>, Box<Item>, Box<Entries>),
}

/// The elements of a sequence, first to last.
#[derive(Debug)]
pub enum Elems {
    End,
    Elem(Box<Item>, Box<Elems>),
}

/// The events that stream an item.
pub open spec fn item_events(item: Item) -> Seq<Event>
    decreases item,
{
    match item {
        Item::Primitive => seq![Event::Primitive],
        Item::Mapping(entries) => seq![Event::MapBegin] + entries_events(entries) + seq![
            Event::MapEnd,
        ],
        Item::Sequence(elems) => seq![Event::SeqBegin] + elems_events(elems) + seq![Event::SeqEnd],
    }
}

/// The events that stream the entries of a map: for each one its key and
/// its value.
pub open spec fn entries_events(entries: Entries) -> Seq<Event>
    decreases entries,
{
    match entries {
        Entries::End => Seq::empty(),
        Entries::Entry(key, value, rest) => seq![Event::MapKey] + item_events(*key) + seq![
            Event::MapValue,
        ] + item_events(*value) + entries_events(*rest),
    }
}

/// The events that stream the elements of a sequence.
pub open spec fn elems_events(elems: Elems) -> Seq<Event>
    decreases elems,
{
    match elems {
        Elems::End => Seq::empty(),
        Elems::Elem(item, rest) => seq![Event::SeqElem] + item_events(*item) + elems_events(
            *rest,
        ),
    }
}

/// The larger of two numbers.
pub open spec fn larger(a: nat, b: nat) -> nat {
    if a >= b {
        a
    } else {
        b
    }
}

/// How many frames an item has open at its deepest point.
pub open spec fn item_height(item: Item) -> nat
    decreases item,
{
    match item {
        Item::Primitive => 0,
        Item::Mapping(entries) => 1 + entries_height(entries),
        Item::Sequence(elems) => 1 + elems_height(elems),
    }
}

/// The height of the highest key or value among the entries.
pub open spec fn entries_height(entries: Entries) -> nat
    decreases entries,
{
    match entries {
        Entries::End => 0,
        Entries::Entry(key, value, rest) => larger(
            larger(item_height(*key), item_height(*value)),
            entries_height(*rest),
        ),
    }
}

/// The height of the highest element.
pub open spec fn elems_height(elems: Elems) -> nat
    decreases elems,
{
    match elems {
        Elems::End => 0,
        Elems::Elem(item, rest) => larger(item_height(*item), elems_height(*rest)),
    }
}

/// Every event of the run is legal, and no state on the way, the first and
/// the last included, has fewer than `floor` frames.
pub open spec fn stays_above(s: Seq<Frame>, events: Seq<Event>, floor: nat) -> bool
    decreases events.len(),
{
    s.len() >= floor && (events.len() == 0 || (accepts(s, events[0]) && stays_above(
        after(s, events[0]),
        events.drop_first(),
        floor,
    )))
}

/// A run of two parts is the run of the second part from where the first ends.
pub proof fn lemma_run_concat(s: Seq<Frame>, a: Seq<Event>, b: Seq<Event>)
    ensures
        run(s, a + b) == match run(s, a) {
            Some(t) => run(t, b),
            None => None,
        },
    decreases a.len(),
{
    if a.len() == 0 {
        assert(a + b =~= b);
    } else {
        assert((a + b)[0] == a[0]);
        assert((a + b).drop_first() =~= a.drop_first() + b);
        if accepts(s, a[0]) {
            lemma_run_concat(after(s, a[0]), a.drop_first(), b);
        }
    }
}

/// Two runs that stay above a floor, the second from where the first ends,
/// make one run that stays above it.
pub proof fn lemma_above_concat(s: Seq<Frame>, a: Seq<Event>, b: Seq<Event>, floor: nat)
    requires
        stays_above(s, a, floor),
        run(s, a) is Some ==> stays_above(run(s, a).unwrap(), b, floor),
    ensures
        run(s, a) is Some,
        stays_above(s, a + b, floor),
        run(s, a + b) == run(run(s, a).unwrap(), b),
    decreases a.len(),
{
    lemma_run_concat(s, a, b);
    if a.len() == 0 {
        assert(a + b =~= b);
    } else {
        assert((a + b)[0] == a[0]);
        assert((a + b).drop_first() =~= a.drop_first() + b);
        lemma_above_concat(after(s, a[0]), a.drop_first(), b, floor);
    }
}

/// A run of one legal event stays above the floor if both its ends do.
pub proof fn lemma_above_one(s: Seq<Frame>, e: Event, floor: nat)
    requires
        accepts(s, e),
        s.len() >= floor,
        after(s, e).len() >= floor,
    ensures
        stays_above(s, seq![e], floor),
        run(s, seq![e]) == Some(after(s, e)),
{
    let events = seq![e];
    assert(events[0] == e);
    assert(events.drop_first().len() == 0);
    assert(stays_above(after(s, e), events.drop_first(), floor));
    assert(run(after(s, e), events.drop_first()) == Some(after(s, e)));
}

/// Every part of a run that stays above a floor is legal and ends above it.
pub proof fn lemma_above_prefix(s: Seq<Frame>, events: Seq<Event>, floor: nat, n: int)
    requires
        stays_above(s, events, floor),
        0 <= n <= events.len(),
    ensures
        run(s, events.take(n)) is Some,
        run(s, events.take(n)).unwrap().len() >= floor,
    decreases n,
{
    if n > 0 {
        assert(events.take(n)[0] == events[0]);
        assert(events.take(n).drop_first() =~= events.drop_first().take(n - 1));
        lemma_above_prefix(after(s, events[0]), events.drop_first(), floor, n - 1);
    }
}

/// A frame that waits for its item takes any item that fits under the
/// capacity, and has its item once the last event of it is in. On the way
/// no frame under it is touched.
pub proof fn lemma_item(s: Seq<Frame>, item: Item)
    requires
        s.len() >= 1,
        s.last().pending,
        depth_of(s) + item_height(item) <= CAPACITY,
    ensures
        run(s, item_events(item)) == Some(filled(s)),
        stays_above(s, item_events(item), s.len()),
    decreases item,
{
    let floor = s.len();
    match item {
        Item::Primitive => {
            lemma_above_one(s, Event::Primitive, floor);
        },
        Item::Mapping(entries) => {
            let inner = after(s, Event::MapBegin);
            let body = entries_events(entries);
            lemma_above_one(s, Event::MapBegin, floor);
            lemma_entries(inner, entries);
            lemma_above_weaken(inner, body, inner.len(), floor);
            lemma_above_concat(s, seq![Event::MapBegin], body, floor);
            let last = extended(inner, Slot::MapValue, entries != Entries::End);
            assert(last.drop_last() =~= filled(s));
            lemma_above_one(last, Event::MapEnd, floor);
            lemma_above_concat(s, seq![Event::MapBegin] + body, seq![Event::MapEnd], floor);
        },
        Item::Sequence(elems) => {
            let inner = after(s, Event::SeqBegin);
            let body = elems_events(elems);
            lemma_above_one(s, Event::SeqBegin, floor);
            lemma_elems(inner, elems);
            lemma_above_weaken(inner, body, inner.len(), floor);
            lemma_above_concat(s, seq![Event::SeqBegin], body, floor);
            let last = extended(inner, Slot::SeqElem, elems != Elems::End);
            assert(last.drop_last() =~= filled(s));
            lemma_above_one(last, Event::SeqEnd, floor);
            lemma_above_concat(s, seq![Event::SeqBegin] + body, seq![Event::SeqEnd], floor);
        },
    }
}

/// A run that stays above a floor stays above every lower one.
pub proof fn lemma_above_weaken(s: Seq<Frame>, events: Seq<Event>, floor: nat, lower: nat)
    requires
        stays_above(s, events, floor),
        lower <= floor,
    ensures
        stays_above(s, events, lower),
    decreases events.len(),
{
    if events.len() > 0 {
        lemma_above_weaken(after(s, events[0]), events.drop_first(), floor, lower);
    }
}

/// The frames once the top one, a map or sequence at the given slot, has
/// taken some entries or elements: as they were if there were none.
pub open spec fn extended(s: Seq<Frame>, slot: Slot, any: bool) -> Seq<Frame> {
    if any {
        with_top(s, done(slot))
    } else {
        s
    }
}

/// A map between two entries takes any entries that fit under the capacity,
/// and is between two entries again after them. It is never closed on the way.
pub proof fn lemma_entries(s: Seq<Frame>, entries: Entries)
    requires
        s.len() >= 1,
        rests(s.last(), Slot::MapValue),
        depth_of(s) + entries_height(entries) <= CAPACITY,
    ensures
        run(s, entries_events(entries)) == Some(
            extended(s, Slot::MapValue, entries != Entries::End),
        ),
        stays_above(s, entries_events(entries), s.len()),
    decreases entries,
{
    let floor = s.len();
    match entries {
        Entries::End => {},
        Entries::Entry(key, value, rest) => {
            let at_key = with_top(s, entered(Slot::MapKey));
            let keyed = with_top(s, done(Slot::MapKey));
            let at_value = with_top(s, entered(Slot::MapValue));
            let valued = with_top(s, done(Slot::MapValue));
            let k = item_events(*key);
            let v = item_events(*value);
            let r = entries_events(*rest);
            assert(filled(at_key) =~= keyed);
            assert(after(keyed, Event::MapValue) =~= at_value);
            assert(filled(at_value) =~= valued);
            assert(with_top(valued, done(Slot::MapValue)) =~= valued);
            lemma_above_one(s, Event::MapKey, floor);
            lemma_item(at_key, *key);
            lemma_above_concat(s, seq![Event::MapKey], k, floor);
            lemma_above_one(keyed, Event::MapValue, floor);
            lemma_above_concat(s, seq![Event::MapKey] + k, seq![Event::MapValue], floor);
            lemma_item(at_value, *value);
            lemma_above_concat(s, seq![Event::MapKey] + k + seq![Event::MapValue], v, floor);
            lemma_entries(valued, *rest);
            lemma_above_concat(
                s,
                seq![Event::MapKey] + k + seq![Event::MapValue] + v,
                r,
                floor,
            );
        },
    }
}

/// A sequence between two elements takes any elements that fit under the
/// capacity, and is between two elements again after them. It is never
/// closed on the way.
pub proof fn lemma_elems(s: Seq<Frame>, elems: Elems)
    requires
        s.len() >= 1,
        rests(s.last(), Slot::SeqElem),
        depth_of(s) + elems_height(elems) <= CAPACITY,
    ensures
        run(s, elems_events(elems)) == Some(extended(s, Slot::SeqElem, elems != Elems::End)),
        stays_above(s, elems_events(elems), s.len()),
    decreases elems,
{
    let floor = s.len();
    match elems {
        Elems::End => {},
        Elems::Elem(item, rest) => {
            let at_elem = with_top(s, entered(Slot::SeqElem));
            let held = with_top(s, done(Slot::SeqElem));
            let i = item_events(*item);
            let r = elems_events(*rest);
            assert(filled(at_elem) =~= held);
            assert(with_top(held, done(Slot::SeqElem)) =~= held);
            lemma_above_one(s, Event::SeqElem, floor);
            lemma_item(at_elem, *item);
            lemma_above_concat(s, seq![Event::SeqElem], i, floor);
            lemma_elems(held, *rest);
            lemma_above_concat(s, seq![Event::SeqElem] + i, r, floor);
        },
    }
}

/// While an item is streamed, every position is at least as deep as the
/// frame that waits for the item.
pub proof fn lemma_depth_inside_item(s: Seq<Frame>, item: Item, n: int)
    requires
        s.len() >= 1,
        s.last().pending,
        depth_of(s) + item_height(item) <= CAPACITY,
        0 <= n <= item_events(item).len(),
    ensures
        run(s, item_events(item).take(n)) is Some,
        depth_of(run(s, item_events(item).take(n)).unwrap()) >= depth_of(s),
{
    lemma_item(s, item);
    lemma_above_prefix(s, item_events(item), s.len(), n);
}

/// A new validator accepts the events of any item that has at most
/// `CAPACITY` frames open at a time. It is complete once the last event is
/// in, with no frame open, and after no shorter part of the events.
pub proof fn lemma_complete_at_the_end(item: Item)
    requires
        item_height(item) <= CAPACITY,
    ensures
        run(fresh(), item_events(item)) == Some(seq![root_done()]),
        complete(run(fresh(), item_events(item)).unwrap()),
        depth_of(run(fresh(), item_events(item)).unwrap()) == 0,
        forall|n: int|
            0 <= n < item_events(item).len() ==> {
                &&& (#[trigger] run(fresh(), item_events(item).take(n))) is Some
                &&& !complete(run(fresh(), item_events(item).take(n)).unwrap())
            },
{
    let s = fresh();
    let events = item_events(item);
    lemma_item(s, item);
    assert(filled(s) =~= seq![root_done()]);
    assert forall|n: int| 0 <= n < events.len() implies {
        &&& (#[trigger] run(s, events.take(n))) is Some
        &&& !complete(run(s, events.take(n)).unwrap())
    } by {
        if n == 0 {
            assert(events.take(0).len() == 0);
        } else {
            let (begin, body, end) = match item {
                Item::Primitive => (Event::Primitive, Seq::<Event>::empty(), Event::Primitive),
                Item::Mapping(entries) => (Event::MapBegin, entries_events(entries), Event::MapEnd),
                Item::Sequence(elems) => (Event::SeqBegin, elems_events(elems), Event::SeqEnd),
            };
            assert(item != Item::Primitive);
            let inner = after(s, begin);
            match item {
                Item::Primitive => {},
                Item::Mapping(entries) => {
                    lemma_entries(inner, entries);
                },
                Item::Sequence(elems) => {
                    lemma_elems(inner, elems);
                },
            }
            assert(stays_above(inner, body, 2));
            assert(events == seq![begin] + body + seq![end]);
            assert(events.take(n) =~= seq![begin] + body.take(n - 1));
            lemma_above_prefix(inner, body, 2, n - 1);
            lemma_above_one(s, begin, 1);
            lemma_run_concat(s, seq![begin], body.take(n - 1));
        }
    }
}

impl Item {
    /// The events that stream this item, in order.
    pub fn events(&self) -> (r: Vec<Event>)
        ensures
            r@ == item_events(*self),
    {
        let mut out: Vec<Event> = Vec::new();
        push_item(self, &mut out);
        assert(Seq::<Event>::empty() + item_events(*self) =~= item_events(*self));
        out
    }
}

/// Appends the events of an item.
fn push_item(item: &Item, out: &mut Vec<Event>)
    ensures
        final(out)@ == old(out)@ + item_events(*item),
    decreases *item,
{
    let ghost before = out@;
    match item {
        Item::Primitive => {
            out.push(Event::Primitive);
            assert(out@ =~= before + item_events(*item));
        },
        Item::Mapping(entries) => {
            out.push(Event::MapBegin);
            push_entries(entries, out);
            out.push(Event::MapEnd);
            assert(out@ =~= before + item_events(*item));
        },
        Item::Sequence(elems) => {
            out.push(Event::SeqBegin);
            push_elems(elems, out);
            out.push(Event::SeqEnd);
            assert(out@ =~= before + item_events(*item));
        },
    }
}

/// Appends the events of the entries of a map.
fn push_entries(entries: &Entries, out: &mut Vec<Event>)
    ensures
        final(out)@ == old(out)@ + entries_events(*entries),
    decreases *entries,
{
    let ghost before = out@;
    match entries {
        Entries::End => {
            assert(out@ =~= before + entries_events(*entries));
        },
        Entries::Entry(key, value, rest) => {
            out.push(Event::MapKey);
            push_item(key, out);
            out.push(Event::MapValue);
            push_item(value, out);
            push_entries(rest, out);
            assert(out@ =~= before + entries_events(*entries));
        },
    }
}

/// Appends the events of the elements of a sequence.
fn push_elems(elems: &Elems, out: &mut Vec<Event>)
    ensures
        final(out)@ == old(out)@ + elems_events(*elems),
    decreases *elems,
{
    let ghost before = out@;
    match elems {
        Elems::End => {
            assert(out@ =~= before + elems_events(*elems));
        },
        Elems::Elem(item, rest) => {
            out.push(Event::SeqElem);
            push_item(item, out);
            push_elems(rest, out);
            assert(out@ =~= before + elems_events(*elems));
        },
    }
}

} // verus!
