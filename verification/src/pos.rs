//! A position in the stream.

use crate::depth::Depth;
use crate::model::{valid, Frame, Slot, CAPACITY};
use crate::packed::{
    frames, lemma_retop, lemma_slot_bits, lemma_valid, packed_ok, MAP_KEY, MAP_VALUE, SEQ_ELEM,
    SLOT, USED, VALUE_ELEM,
};
use vstd::prelude::*;

verus! {

/// The state of the validator at the moment it accepted an event.
#[derive(Clone, Copy, Debug)]
pub struct Pos {
    word: u64,
    depth: u8,
    empty_map: bool,
    empty_seq: bool,
}

impl View for Pos {
    type V = Seq<Frame>;

    /// The frames at that moment, root first.
    closed spec fn view(&self) -> Seq<Frame> {
        frames(self.word, self.depth as nat)
    }
}

impl Pos {
    #[verifier::type_invariant]
    pub closed spec fn wf(self) -> bool {
        packed_ok(self.word, self.depth)
    }

    /// Whether this is the position of an empty map: one that was just
    /// begun, or one that was closed without an entry.
    pub closed spec fn empty_map(self) -> bool {
        self.empty_map
    }

    /// Whether this is the position of an empty sequence: one that was just
    /// begun, or one that was closed without an element.
    pub closed spec fn empty_seq(self) -> bool {
        self.empty_seq
    }

    pub(crate) fn at(word: u64, depth: u8, empty_map: bool, empty_seq: bool) -> (r: Pos)
        requires
            packed_ok(word, depth),
        ensures
            r@ == frames(word, depth as nat),
            r.empty_map() == empty_map,
            r.empty_seq() == empty_seq,
    {
        Pos { word, depth, empty_map, empty_seq }
    }

    /// Whether the position is at a map key: from the moment the key is
    /// begun until the value is begun.
    pub fn is_key(&self) -> (r: bool)
        ensures
            r == (self@.last().slot == Slot::MapKey),
    {
        proof {
            lemma_retop(self.word, self.word, self.depth as nat);
            lemma_slot_bits(self.word);
        }
        self.word & SLOT == MAP_KEY
    }

    /// Whether the position is at a map value: from the moment the value is
    /// begun until the next key is begun or the map is closed. A map that
    /// has begun no entry is at no value.
    pub fn is_value(&self) -> (r: bool)
        ensures
            r == (self@.last().slot == Slot::MapValue && self@.last().used),
    {
        proof {
            lemma_retop(self.word, self.word, self.depth as nat);
            lemma_slot_bits(self.word);
        }
        self.word & SLOT == MAP_VALUE && self.word & USED != 0
    }

    /// Whether the position is at a sequence element: from the moment the
    /// element is begun until the next one is begun or the sequence is
    /// closed. A sequence that has begun no element is at none.
    pub fn is_elem(&self) -> (r: bool)
        ensures
            r == (self@.last().slot == Slot::SeqElem && self@.last().used),
    {
        proof {
            lemma_retop(self.word, self.word, self.depth as nat);
            lemma_slot_bits(self.word);
        }
        self.word & SLOT == SEQ_ELEM && self.word & USED != 0
    }

    /// Whether the position is at a map value or at a sequence element.
    pub fn is_value_elem(&self) -> (r: bool)
        ensures
            r == (self@.last().used && (self@.last().slot == Slot::MapValue
                || self@.last().slot == Slot::SeqElem)),
    {
        proof {
            use_type_invariant(self);
            lemma_retop(self.word, self.word, self.depth as nat);
            lemma_slot_bits(self.word);
        }
        self.word & VALUE_ELEM != 0 && self.word & USED != 0
    }

    /// Whether this is the position of an empty map.
    pub fn is_empty_map(&self) -> (r: bool)
        ensures
            r == self.empty_map(),
    {
        self.empty_map
    }

    /// Whether this is the position of an empty sequence.
    pub fn is_empty_seq(&self) -> (r: bool)
        ensures
            r == self.empty_seq(),
    {
        self.empty_seq
    }

    /// The number of frames that were open. It never exceeds the capacity.
    pub fn depth(&self) -> (r: Depth)
        ensures
            r@ == self@.len() - 1,
            r@ <= CAPACITY,
            valid(self@),
    {
        proof {
            use_type_invariant(self);
            lemma_valid(self.word, self.depth);
        }
        Depth::at(self.depth as usize)
    }
}

} // verus!
