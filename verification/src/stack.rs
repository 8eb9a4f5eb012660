//! The validator.

use crate::error::{Error, Expecting};
use crate::model::{
    accepts, after, complete, depth_of, empty_map, empty_seq, filled, first_refusal, fresh, halt,
    positions, refusal, run, state_before, valid, with_top, Event, Frame, CAPACITY,
};
use crate::packed::{
    frame_of, frames, lemma_fill, lemma_pop, lemma_push, lemma_set, lemma_slot_bits, lemma_valid,
    open_code, packed_ok, ABOVE, BEGIN, MAP_KEY, MAP_VALUE, PENDING, SEQ_ELEM, STATE, USED, WIDTH,
};
use crate::pos::Pos;
use vstd::prelude::*;

verus! {

/// What feeding event `e` to a validator does. Where the event is legal in
/// state `pre`, the validator moves to the state after it and hands out a
/// snapshot of that state, which also says whether an empty map or sequence
/// was begun or closed. Where it is not, the validator stays as it was
/// and the error says what it expected.
pub open spec fn fed(pre: Seq<Frame>, e: Event, post: Seq<Frame>, r: Result<Pos, Error>) -> bool {
    if accepts(pre, e) {
        &&& post == after(pre, e)
        &&& r is Ok
        &&& r->Ok_0@ == post
        &&& r->Ok_0.empty_map() == empty_map(pre, e)
        &&& r->Ok_0.empty_seq() == empty_seq(pre, e)
    } else {
        &&& post == pre
        &&& r == Err::<Pos, Error>(Error { expecting: refusal(pre, e) })
    }
}

/// A fixed-size validator of the structure of one stream.
#[derive(Debug)]
pub struct Stack {
    word: u64,
    depth: u8,
}

impl View for Stack {
    type V = Seq<Frame>;

    /// The frames of the validator, root first.
    closed spec fn view(&self) -> Seq<Frame> {
        frames(self.word, self.depth as nat)
    }
}

impl Clone for Stack {
    fn clone(&self) -> (r: Stack)
        ensures
            r@ == self@,
    {
        proof {
            use_type_invariant(self);
        }
        Stack { word: self.word, depth: self.depth }
    }
}

impl Stack {
    #[verifier::type_invariant]
    pub closed spec fn wf(self) -> bool {
        packed_ok(self.word, self.depth)
    }

    /// A validator that has seen nothing.
    pub fn new() -> (r: Stack)
        ensures
            r@ == fresh(),
    {
        proof {
            lemma_slot_bits(1);
        }
        Stack { word: PENDING, depth: 0 }
    }

    /// Forgets everything, so that the validator can take a new stream.
    pub fn clear(&mut self)
        ensures
            final(self)@ == fresh(),
    {
        *self = Stack::new();
    }

    /// Feeds a primitive: a value that is no map and no sequence.
    pub fn primitive(&mut self) -> (r: Result<Pos, Error>)
        ensures
            fed(old(self)@, Event::Primitive, final(self)@, r),
            valid(final(self)@),
    {
        proof {
            use_type_invariant(&*self);
            lemma_valid(self.word, self.depth);
            lemma_fill(self.word, self.depth);
        }
        if self.word & PENDING == PENDING {
            self.word = self.word ^ PENDING;
            Ok(Pos::at(self.word, self.depth, false, false))
        } else {
            Err(Error::custom(Expecting::Primitive))
        }
    }

    /// Begins a map. It must be completed by `map_end`.
    pub fn map_begin(&mut self) -> (r: Result<Pos, Error>)
        ensures
            fed(old(self)@, Event::MapBegin, final(self)@, r),
            valid(final(self)@),
    {
        proof {
            use_type_invariant(&*self);
            lemma_valid(self.word, self.depth);
            lemma_fill(self.word, self.depth);
        }
        if self.depth == CAPACITY {
            return Err(Error::custom(Expecting::MapDepth));
        }
        if self.word & PENDING == PENDING {
            Ok(self.open(MAP_VALUE, true, false))
        } else {
            Err(Error::custom(Expecting::MapBegin))
        }
    }

    /// Begins a map key. The item that follows completes it.
    pub fn map_key(&mut self) -> (r: Result<Pos, Error>)
        ensures
            fed(old(self)@, Event::MapKey, final(self)@, r),
            valid(final(self)@),
    {
        proof {
            use_type_invariant(&*self);
            lemma_slot_bits(self.word);
            lemma_valid(self.word, self.depth);
            lemma_fill(self.word, self.depth);
        }
        if self.word & STATE == MAP_VALUE {
            Ok(self.enter(MAP_KEY))
        } else {
            Err(Error::custom(Expecting::MapKey))
        }
    }

    /// Begins a map value. The item that follows completes it.
    pub fn map_value(&mut self) -> (r: Result<Pos, Error>)
        ensures
            fed(old(self)@, Event::MapValue, final(self)@, r),
            valid(final(self)@),
    {
        proof {
            use_type_invariant(&*self);
            lemma_slot_bits(self.word);
            lemma_valid(self.word, self.depth);
            lemma_fill(self.word, self.depth);
        }
        if self.word & STATE == MAP_KEY {
            Ok(self.enter(MAP_VALUE))
        } else {
            Err(Error::custom(Expecting::MapValue))
        }
    }

    /// Completes the current map.
    pub fn map_end(&mut self) -> (r: Result<Pos, Error>)
        ensures
            fed(old(self)@, Event::MapEnd, final(self)@, r),
            valid(final(self)@),
    {
        proof {
            use_type_invariant(&*self);
            lemma_slot_bits(self.word);
            lemma_valid(self.word, self.depth);
            lemma_fill(self.word, self.depth);
        }
        if self.word & STATE == MAP_VALUE {
            let empty = self.word & USED == 0;
            Ok(self.close(empty, false))
        } else {
            Err(Error::custom(Expecting::MapEnd))
        }
    }

    /// Begins a sequence. It must be completed by `seq_end`.
    pub fn seq_begin(&mut self) -> (r: Result<Pos, Error>)
        ensures
            fed(old(self)@, Event::SeqBegin, final(self)@, r),
            valid(final(self)@),
    {
        proof {
            use_type_invariant(&*self);
            lemma_valid(self.word, self.depth);
            lemma_fill(self.word, self.depth);
        }
        if self.depth == CAPACITY {
            return Err(Error::custom(Expecting::SeqDepth));
        }
        if self.word & PENDING == PENDING {
            Ok(self.open(SEQ_ELEM, false, true))
        } else {
            Err(Error::custom(Expecting::SeqBegin))
        }
    }

    /// Begins a sequence element. The item that follows completes it.
    pub fn seq_elem(&mut self) -> (r: Result<Pos, Error>)
        ensures
            fed(old(self)@, Event::SeqElem, final(self)@, r),
            valid(final(self)@),
    {
        proof {
            use_type_invariant(&*self);
            lemma_slot_bits(self.word);
            lemma_valid(self.word, self.depth);
            lemma_fill(self.word, self.depth);
        }
        if self.word & STATE == SEQ_ELEM {
            Ok(self.enter(SEQ_ELEM))
        } else {
            Err(Error::custom(Expecting::SeqElem))
        }
    }

    /// Completes the current sequence.
    pub fn seq_end(&mut self) -> (r: Result<Pos, Error>)
        ensures
            fed(old(self)@, Event::SeqEnd, final(self)@, r),
            valid(final(self)@),
    {
        proof {
            use_type_invariant(&*self);
            lemma_slot_bits(self.word);
            lemma_valid(self.word, self.depth);
            lemma_fill(self.word, self.depth);
        }
        if self.word & STATE == SEQ_ELEM {
            let empty = self.word & USED == 0;
            Ok(self.close(false, empty))
        } else {
            Err(Error::custom(Expecting::SeqEnd))
        }
    }

    /// Feeds the event `e`, whichever it is.
    pub fn apply(&mut self, e: Event) -> (r: Result<Pos, Error>)
        ensures
            fed(old(self)@, e, final(self)@, r),
            valid(final(self)@),
    {
        match e {
            Event::Primitive => self.primitive(),
            Event::MapBegin => self.map_begin(),
            Event::MapKey => self.map_key(),
            Event::MapValue => self.map_value(),
            Event::MapEnd => self.map_end(),
            Event::SeqBegin => self.seq_begin(),
            Event::SeqElem => self.seq_elem(),
            Event::SeqEnd => self.seq_end(),
        }
    }

    /// Feeds a run of events, and stops before the first one that is illegal.
    /// Where all are legal the result holds the position after each event.
    pub fn replay(&mut self, events: &Vec<Event>) -> (r: Result<Vec<Pos>, Error>)
        ensures
            valid(final(self)@),
            final(self)@ == halt(old(self)@, events@),
            match run(old(self)@, events@) {
                Some(last) => {
                    &&& final(self)@ == last
                    &&& r is Ok
                    &&& r->Ok_0@.len() == events@.len()
                    &&& forall|i: int|
                        0 <= i < events@.len() ==> {
                            let pos = #[trigger] r->Ok_0@[i];
                            let before = state_before(old(self)@, events@, i);
                            &&& pos@ == positions(old(self)@, events@)[i]
                            &&& pos.empty_map() == empty_map(before, events@[i])
                            &&& pos.empty_seq() == empty_seq(before, events@[i])
                        }
                },
                None => {
                    &&& first_refusal(old(self)@, events@) is Some
                    &&& r == Err::<Vec<Pos>, Error>(
                        Error { expecting: first_refusal(old(self)@, events@).unwrap() },
                    )
                },
            },
    {
        let ghost start = self@;
        let ghost seen: Seq<Seq<Frame>> = Seq::empty();
        let mut out: Vec<Pos> = Vec::new();
        let mut i: usize = 0;
        proof {
            use_type_invariant(&*self);
            lemma_valid(self.word, self.depth);
            assert(events@.skip(0) =~= events@);
        }
        while i < events.len()
            invariant
                0 <= i <= events@.len(),
                start == old(self)@,
                valid(self@),
                out@.len() == i,
                seen.len() == i,
                self@ == (if i == 0 {
                    start
                } else {
                    seen[i - 1]
                }),
                forall|j: int|
                    0 <= j < i ==> {
                        let pos = #[trigger] out@[j];
                        let before = if j == 0 {
                            start
                        } else {
                            seen[j - 1]
                        };
                        &&& pos@ == seen[j]
                        &&& pos.empty_map() == empty_map(before, events@[j])
                        &&& pos.empty_seq() == empty_seq(before, events@[j])
                    },
                run(start, events@) == run(self@, events@.skip(i as int)),
                halt(start, events@) == halt(self@, events@.skip(i as int)),
                first_refusal(start, events@) == first_refusal(self@, events@.skip(i as int)),
                positions(start, events@) == seen + positions(self@, events@.skip(i as int)),
            decreases events@.len() - i,
        {
            let ghost before = self@;
            let ghost rest = events@.skip(i as int);
            proof {
                assert(rest[0] == events@[i as int]);
                assert(rest.drop_first() =~= events@.skip(i + 1));
            }
            match self.apply(events[i]) {
                Ok(pos) => {
                    out.push(pos);
                    proof {
                        let tail = positions(self@, rest.drop_first());
                        assert(seen + (seq![self@] + tail) =~= seen.push(self@) + tail);
                        seen = seen.push(self@);
                    }
                },
                Err(e) => {
                    proof {
                        assert(!accepts(before, rest[0]));
                        assert(run(before, rest) is None);
                        assert(halt(before, rest) == before);
                        assert(first_refusal(before, rest) == Some(refusal(before, rest[0])));
                    }
                    return Err(e);
                },
            }
            i += 1;
        }
        proof {
            assert(events@.skip(i as int).len() == 0);
            assert(positions(start, events@) =~= seen);
        }
        Ok(out)
    }

    /// Whether the validator has seen one complete item and nothing else.
    pub fn can_end(&self) -> (r: bool)
        ensures
            r == complete(self@),
            valid(self@),
    {
        proof {
            use_type_invariant(self);
            lemma_valid(self.word, self.depth);
            lemma_fill(self.word, self.depth);
            lemma_slot_bits(self.word);
        }
        self.depth == 0 && self.word & PENDING == 0
    }

    /// Ends the stream. The validator stays as it was either way.
    pub fn end(&mut self) -> (r: Result<(), Error>)
        ensures
            final(self)@ == old(self)@,
            complete(old(self)@) ==> r is Ok,
            !complete(old(self)@) ==> r == Err::<(), Error>(Error { expecting: Expecting::End }),
    {
        if self.can_end() {
            Ok(())
        } else {
            Err(Error::custom(Expecting::End))
        }
    }

    /// Puts a new frame with the given code on top of a frame that waits
    /// for its item.
    fn open(&mut self, code: u64, empty_map: bool, empty_seq: bool) -> (r: Pos)
        requires
            old(self)@.last().pending,
            depth_of(old(self)@) < CAPACITY,
            open_code(code),
        ensures
            final(self)@ == filled(old(self)@).push(frame_of(code)),
            r@ == final(self)@,
            r.empty_map() == empty_map,
            r.empty_seq() == empty_seq,
            valid(final(self)@),
    {
        proof {
            use_type_invariant(&*self);
            lemma_valid(self.word, self.depth);
            lemma_fill(self.word, self.depth);
            lemma_push(self.word, self.depth, code);
        }
        let word: u64 = ((self.word << WIDTH) & BEGIN) | code;
        let depth: u8 = self.depth + 1;
        proof {
            lemma_valid(word, depth);
        }
        *self = Stack { word, depth };
        Pos::at(word, depth, empty_map, empty_seq)
    }

    /// Moves the top frame, that of an open map or sequence, to the given
    /// slot, where it waits for an item.
    fn enter(&mut self, state: u64) -> (r: Pos)
        requires
            depth_of(old(self)@) > 0,
            state == MAP_KEY || state == MAP_VALUE || state == SEQ_ELEM,
        ensures
            final(self)@ == with_top(old(self)@, frame_of((state + PENDING + USED) as u64)),
            r@ == final(self)@,
            !r.empty_map(),
            !r.empty_seq(),
            valid(final(self)@),
    {
        let code: u64 = state + PENDING + USED;
        proof {
            use_type_invariant(&*self);
            lemma_valid(self.word, self.depth);
            lemma_set(self.word, self.depth, code);
            lemma_valid((self.word & ABOVE) | code, self.depth);
        }
        self.word = (self.word & ABOVE) | code;
        Pos::at(self.word, self.depth, false, false)
    }

    /// Takes the top frame off.
    fn close(&mut self, empty_map: bool, empty_seq: bool) -> (r: Pos)
        requires
            depth_of(old(self)@) > 0,
        ensures
            final(self)@ == old(self)@.drop_last(),
            r@ == final(self)@,
            r.empty_map() == empty_map,
            r.empty_seq() == empty_seq,
            valid(final(self)@),
    {
        proof {
            use_type_invariant(&*self);
            lemma_valid(self.word, self.depth);
            lemma_pop(self.word, self.depth);
        }
        let word: u64 = self.word >> WIDTH;
        let depth: u8 = self.depth - 1;
        proof {
            lemma_valid(word, depth);
        }
        *self = Stack { word, depth };
        Pos::at(word, depth, empty_map, empty_seq)
    }
}

impl Default for Stack {
    fn default() -> (r: Stack)
        ensures
            r@ == fresh(),
    {
        Stack::new()
    }
}

} // verus!
