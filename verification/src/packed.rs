//! The packed word: five bits for each frame, the top frame lowest, and the
//! root above the last open frame.

use crate::model::{filled, root_done, valid, with_top, Frame, Slot, CAPACITY};
use vstd::prelude::*;

verus! {

/// The number of bits that hold one frame.
pub const WIDTH: u64 = 5;

/// The bits of the top frame.
pub const FRAME: u64 = 31;

/// Every bit above the top frame.
pub const ABOVE: u64 = 0xffff_ffff_ffff_ffe0;

/// The bits of a frame that say where it is: its slot, and whether it waits
/// for an item.
pub const STATE: u64 = 15;

/// The bits of a frame that name its slot.
pub const SLOT: u64 = 14;

/// Bit 0 of a frame: it waits for an item.
pub const PENDING: u64 = 1;

/// Bit 4 of a frame: it has begun a key or an element.
pub const USED: u64 = 16;

/// The state of a map whose key has its item.
pub const MAP_KEY: u64 = 2;

/// The state of a map whose value has its item, and of a map just begun.
pub const MAP_VALUE: u64 = 6;

/// The state of a sequence whose element has its item, and of a sequence
/// just begun.
pub const SEQ_ELEM: u64 = 8;

/// The bits that are set in the state of a map value and of a sequence
/// element, and in no other.
pub const VALUE_ELEM: u64 = 12;

/// Every bit of a word that was moved up by one frame, but those of the new
/// top frame and the pending bit of the frame under it.
pub const BEGIN: u64 = 0xffff_ffff_ffff_ffc0;

/// The frame that a five-bit code stands for.
pub open spec fn frame_of(code: u64) -> Frame {
    let state = code % USED;
    Frame {
        slot: if state == MAP_KEY || state == MAP_KEY + PENDING {
            Slot::MapKey
        } else if state == MAP_VALUE || state == MAP_VALUE + PENDING {
            Slot::MapValue
        } else if state == SEQ_ELEM || state == SEQ_ELEM + PENDING {
            Slot::SeqElem
        } else {
            Slot::Root
        },
        pending: state == PENDING || state == MAP_KEY + PENDING || state == MAP_VALUE + PENDING
            || state == SEQ_ELEM + PENDING,
        used: code >= USED,
    }
}

/// The frames that a word holds at a given depth, root first.
pub open spec fn frames(word: u64, depth: nat) -> Seq<Frame>
    decreases depth,
{
    if depth == 0 {
        seq![frame_of(word & FRAME)]
    } else {
        frames(word >> WIDTH, (depth - 1) as nat).push(frame_of(word & FRAME))
    }
}

/// The codes that an open frame can have: those of a map or a sequence.
pub open spec fn open_code(code: u64) -> bool {
    code <= FRAME && frame_of(code).slot != Slot::Root
}

/// The codes that a frame under another can have: it has begun its item.
pub open spec fn parent_code(code: u64) -> bool {
    frame_of(code).slot != Slot::Root && !frame_of(code).pending
}

/// The number of bits under the root at a given depth.
pub open spec fn bits_under(depth: u8) -> u64 {
    (5 * depth) as u64
}

/// Every frame below the top one has a code of its kind, and the root has
/// begun its item.
pub open spec fn below_ok(word: u64, depth: nat) -> bool
    decreases depth,
{
    if depth == 0 {
        word & FRAME == 0
    } else {
        parent_code(word & FRAME) && below_ok(word >> WIDTH, (depth - 1) as nat)
    }
}

/// Every frame has a code of its kind.
pub open spec fn codes_ok(word: u64, depth: nat) -> bool {
    if depth == 0 {
        word & FRAME <= PENDING
    } else {
        open_code(word & FRAME) && below_ok(word >> WIDTH, (depth - 1) as nat)
    }
}

/// The word is well formed at this depth: the depth is within the capacity,
/// nothing is set above the root, and every frame has a code of its kind.
pub open spec fn packed_ok(word: u64, depth: u8) -> bool {
    &&& depth <= CAPACITY
    &&& (word >> bits_under(depth)) <= PENDING
    &&& codes_ok(word, depth as nat)
}

/// What the masks and shifts of the validator do to the top frame and to
/// the frames under it.
pub proof fn lemma_slot_bits(x: u64)
    by (bit_vector)
    ensures
        x & 31 < 32,
        x >> 0 == x,
        x <= 1 ==> x & 31 == x,
        x & 1 == 0 || x & 1 == 1,
        (x & 1 == 1) <==> (x & 31) % 2 == 1,
        (x ^ 1) >> 5 == x >> 5,
        x & 1 == 1 ==> ((x ^ 1) & 31) + 1 == (x & 31),
        x & 1 == 1 ==> (x ^ 1) + 1 == x,
        x & 15 == (x & 31) % 16,
        (x & 14) + (x & 1) == (x & 31) % 16,
        (x & 16 == 0) <==> x & 31 < 16,
        (x & 31) % 16 <= 3 ==> x & 12 == 0,
        6 <= (x & 31) % 16 <= 9 ==> x & 12 != 0,
{
}

/// A word with the code of its top frame replaced.
pub proof fn lemma_code_bits(x: u64, c: u64)
    by (bit_vector)
    requires
        c < 32,
    ensures
        ((x & 0xffff_ffff_ffff_ffe0) | c) >> 5 == x >> 5,
        ((x & 0xffff_ffff_ffff_ffe0) | c) & 31 == c,
{
}

/// A word moved up by one frame, with a new top frame.
pub proof fn lemma_push_bits(x: u64, k: u64, c: u64)
    by (bit_vector)
    requires
        k <= 55,
        x >> k <= 1,
        x & 1 == 1,
        c < 32,
    ensures
        (((x << 5) & 0xffff_ffff_ffff_ffc0) | c) & 31 == c,
        (((x << 5) & 0xffff_ffff_ffff_ffc0) | c) >> 5 == x ^ 1,
        (((x << 5) & 0xffff_ffff_ffff_ffc0) | c) >> ((k + 5) as u64) <= 1,
{
}

/// A word moved down by one frame stays within its bound.
pub proof fn lemma_pop_bits(x: u64, k: u64)
    by (bit_vector)
    requires
        k <= 55,
        x >> ((k + 5) as u64) <= 1,
    ensures
        (x >> 5) >> k <= 1,
{
}

/// Two words that differ in the top frame alone have the same bound.
pub proof fn lemma_retop_bits(x: u64, y: u64, k: u64)
    by (bit_vector)
    requires
        5 <= k <= 60,
        x >> 5 == y >> 5,
        x >> k <= 1,
    ensures
        y >> k <= 1,
{
}

/// A word holds one frame more than its depth: the root.
pub proof fn lemma_len(word: u64, depth: nat)
    ensures
        frames(word, depth).len() == depth + 1,
    decreases depth,
{
    if depth > 0 {
        lemma_len(word >> WIDTH, (depth - 1) as nat);
    }
}

/// Two words that differ in the top frame alone hold the same frames below it.
pub proof fn lemma_retop(x: u64, y: u64, depth: nat)
    requires
        x >> WIDTH == y >> WIDTH,
    ensures
        frames(y, depth) == with_top(frames(x, depth), frame_of(y & FRAME)),
        frames(x, depth).last() == frame_of(x & FRAME),
        depth > 0 ==> (codes_ok(y, depth) <==> open_code(y & FRAME) && below_ok(x >> WIDTH, (depth - 1) as nat)),
{
    lemma_len(x, depth);
    if depth > 0 {
        lemma_len(x >> WIDTH, (depth - 1) as nat);
    }
    assert(frames(y, depth) =~= with_top(frames(x, depth), frame_of(y & FRAME)));
}

/// Under the top frame, the frames are the root and frames that have begun
/// their items.
pub proof fn lemma_below(word: u64, depth: nat)
    requires
        below_ok(word, depth),
    ensures
        frames(word, depth).len() == depth + 1,
        frames(word, depth)[0] == root_done(),
        forall|i: int| 1 <= i <= depth ==> (#[trigger] frames(word, depth)[i]).slot != Slot::Root,
        forall|i: int| 0 <= i <= depth ==> !(#[trigger] frames(word, depth)[i]).pending,
    decreases depth,
{
    if depth > 0 {
        lemma_below(word >> WIDTH, (depth - 1) as nat);
    }
}

/// A well-formed word holds a valid list of frames.
pub proof fn lemma_valid(word: u64, depth: u8)
    requires
        packed_ok(word, depth),
    ensures
        frames(word, depth as nat).len() == depth + 1,
        valid(frames(word, depth as nat)),
{
    lemma_len(word, depth as nat);
    if depth > 0 {
        lemma_below(word >> WIDTH, (depth - 1) as nat);
    } else {
        lemma_slot_bits(word);
    }
}

/// Bit 0 of a well-formed word says whether the top frame waits for an item,
/// and to clear it is to hand the frame its item.
pub proof fn lemma_fill(word: u64, depth: u8)
    requires
        packed_ok(word, depth),
    ensures
        frames(word, depth as nat).last() == frame_of(word & FRAME),
        frames(word, depth as nat).last().pending == (word & PENDING == PENDING),
        word & PENDING == PENDING ==> packed_ok(word ^ PENDING, depth) && below_ok(word ^ PENDING, depth as nat)
            && frames(word ^ PENDING, depth as nat) == filled(frames(word, depth as nat)),
{
    lemma_slot_bits(word);
    lemma_slot_bits(word ^ PENDING);
    lemma_retop(word, word ^ PENDING, depth as nat);
    if depth > 0 {
        lemma_retop_bits(word, word ^ PENDING, bits_under(depth));
    }
}

/// A word with the code of the top frame replaced by that of an open frame.
pub proof fn lemma_set(word: u64, depth: u8, code: u64)
    requires
        packed_ok(word, depth),
        open_code(word & FRAME),
        open_code(code),
    ensures
        packed_ok((word & ABOVE) | code, depth),
        frames((word & ABOVE) | code, depth as nat) == with_top(
            frames(word, depth as nat),
            frame_of(code),
        ),
{
    let next = (word & ABOVE) | code;
    lemma_slot_bits(word);
    lemma_code_bits(word, code);
    lemma_retop(word, next, depth as nat);
    if depth > 0 {
        lemma_retop_bits(word, next, bits_under(depth));
    }
}

/// A word with one more frame on top: the frame under it has begun its item.
pub proof fn lemma_push(word: u64, depth: u8, code: u64)
    requires
        packed_ok(word, depth),
        depth < CAPACITY,
        word & PENDING == PENDING,
        open_code(code),
    ensures
        packed_ok((((word << WIDTH) & BEGIN) | code), (depth + 1) as u8),
        frames((((word << WIDTH) & BEGIN) | code), (depth + 1) as nat) == filled(
            frames(word, depth as nat),
        ).push(frame_of(code)),
{
    lemma_fill(word, depth);
    lemma_push_bits(word, bits_under(depth), code);
}

/// A word with its top frame taken off.
pub proof fn lemma_pop(word: u64, depth: u8)
    requires
        packed_ok(word, depth),
        open_code(word & FRAME),
    ensures
        depth > 0,
        packed_ok(word >> WIDTH, (depth - 1) as u8),
        frames(word >> WIDTH, (depth - 1) as nat) == frames(word, depth as nat).drop_last(),
{
    lemma_slot_bits(word);
    lemma_slot_bits(word >> WIDTH);
    lemma_pop_bits(word, bits_under((depth - 1) as u8));
    assert(frames(word >> WIDTH, (depth - 1) as nat) =~= frames(word, depth as nat).drop_last());
}

} // verus!
