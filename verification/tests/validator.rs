use stream_stack::model::CAPACITY;
use stream_stack::{Depth, Error, ErrorKind, Event, Expecting, Pos, Stack};

fn level(pos: &Pos) -> usize {
    pos.depth().level()
}

#[test]
fn a_single_primitive_is_a_complete_stream() {
    let mut stack = Stack::new();
    assert!(!stack.can_end());
    let pos = stack.primitive().unwrap();
    assert_eq!(level(&pos), 0);
    assert!(pos.depth() == Depth::root());
    assert!(!pos.is_key() && !pos.is_value() && !pos.is_elem() && !pos.is_value_elem());
    assert!(stack.can_end());
    assert_eq!(stack.end(), Ok(()));
}

#[test]
fn a_map_with_one_entry_is_a_complete_stream() {
    let mut stack = Stack::new();

    let pos = stack.map_begin().unwrap();
    assert_eq!(level(&pos), 1);
    assert!(!pos.is_key() && !pos.is_value() && !pos.is_elem() && !pos.is_value_elem());

    let pos = stack.map_key().unwrap();
    assert_eq!(level(&pos), 1);
    assert!(pos.is_key());
    assert!(!pos.is_value() && !pos.is_elem() && !pos.is_value_elem());

    let pos = stack.primitive().unwrap();
    assert_eq!(level(&pos), 1);
    assert!(pos.is_key());
    assert!(!pos.is_value() && !pos.is_elem() && !pos.is_value_elem());

    let pos = stack.map_value().unwrap();
    assert!(pos.is_value() && pos.is_value_elem());
    assert!(!pos.is_key() && !pos.is_elem());

    let pos = stack.primitive().unwrap();
    assert!(pos.is_value() && pos.is_value_elem());
    assert!(!pos.is_key() && !pos.is_elem());
    assert!(!stack.can_end());

    let pos = stack.map_end().unwrap();
    assert_eq!(level(&pos), 0);
    assert!(!pos.is_key() && !pos.is_value() && !pos.is_elem() && !pos.is_value_elem());

    assert!(stack.can_end());
    assert_eq!(stack.end(), Ok(()));
}

#[test]
fn a_sequence_that_holds_one_map_is_a_complete_stream() {
    let mut stack = Stack::new();

    let pos = stack.seq_begin().unwrap();
    assert_eq!(level(&pos), 1);
    assert!(!pos.is_key() && !pos.is_value() && !pos.is_elem() && !pos.is_value_elem());

    let pos = stack.seq_elem().unwrap();
    assert_eq!(level(&pos), 1);
    assert!(pos.is_elem() && pos.is_value_elem());
    assert!(!pos.is_key() && !pos.is_value());

    assert_eq!(level(&stack.map_begin().unwrap()), 2);
    assert_eq!(level(&stack.map_key().unwrap()), 2);
    assert!(stack.primitive().unwrap().is_key());
    assert_eq!(level(&stack.map_value().unwrap()), 2);
    assert!(stack.primitive().unwrap().is_value());

    let pos = stack.map_end().unwrap();
    assert_eq!(level(&pos), 1);
    assert!(pos.is_elem());

    let pos = stack.seq_end().unwrap();
    assert_eq!(level(&pos), 0);
    assert!(stack.can_end());
    assert_eq!(stack.end(), Ok(()));
}

#[test]
fn a_value_without_a_key_is_a_protocol_violation() {
    let mut stack = Stack::new();
    stack.map_begin().unwrap();
    let err = stack.map_value().unwrap_err();
    assert_eq!(err.kind(), ErrorKind::Protocol);
    assert_eq!(err.expecting, Expecting::MapValue);
    assert_eq!(err.message(), "expecting a map value");
}

#[test]
fn one_frame_more_than_the_capacity_is_refused() {
    let mut stack = Stack::new();
    for depth in 1..=12usize {
        let pos = stack.seq_begin().unwrap();
        assert_eq!(level(&pos), depth);
        stack.seq_elem().unwrap();
    }
    let err = stack.seq_begin().unwrap_err();
    assert_eq!(err.kind(), ErrorKind::DepthExceeded);
    assert_eq!(err.message(), "expecting more depth at the start of a sequence");
    let err = stack.map_begin().unwrap_err();
    assert_eq!(err.kind(), ErrorKind::DepthExceeded);
    assert_eq!(err.message(), "expecting more depth at the start of a map");
}

#[test]
fn the_capacity_is_twelve_frames() {
    assert_eq!(CAPACITY, 12);
    let mut stack = Stack::new();
    let mut opened: usize = 0;
    loop {
        if stack.map_begin().is_err() {
            break;
        }
        opened += 1;
        stack.map_key().unwrap();
    }
    assert_eq!(opened, 12);
}

#[test]
fn a_full_validator_refuses_for_depth_whatever_it_waits_for() {
    let mut stack = Stack::new();
    for _ in 0..11 {
        stack.seq_begin().unwrap();
        stack.seq_elem().unwrap();
    }
    stack.seq_begin().unwrap();
    assert_eq!(stack.seq_begin().unwrap_err().expecting, Expecting::SeqDepth);
    assert_eq!(stack.map_begin().unwrap_err().expecting, Expecting::MapDepth);
    assert_eq!(stack.primitive().unwrap_err().expecting, Expecting::Primitive);
}

#[test]
fn a_frame_can_be_reopened_after_one_was_closed_at_the_capacity() {
    let mut stack = Stack::new();
    for _ in 0..11 {
        stack.seq_begin().unwrap();
        stack.seq_elem().unwrap();
    }
    stack.map_begin().unwrap();
    stack.map_key().unwrap();
    assert!(stack.seq_begin().is_err());
    stack.primitive().unwrap();
    stack.map_value().unwrap();
    stack.primitive().unwrap();
    let pos = stack.map_end().unwrap();
    assert_eq!(level(&pos), 11);
    stack.seq_elem().unwrap();
    let pos = stack.seq_begin().unwrap();
    assert_eq!(level(&pos), 12);
    assert!(pos.is_empty_seq());
    assert!(!pos.is_elem());
    assert!(stack.seq_elem().unwrap().is_elem());
}

#[test]
fn a_full_stack_unwinds_to_a_complete_stream() {
    let mut stack = Stack::new();
    for _ in 0..6 {
        stack.seq_begin().unwrap();
        stack.seq_elem().unwrap();
        stack.map_begin().unwrap();
        stack.map_key().unwrap();
    }
    stack.primitive().unwrap();
    for depth in (0..6usize).rev() {
        stack.map_value().unwrap();
        stack.primitive().unwrap();
        let pos = stack.map_end().unwrap();
        assert_eq!(level(&pos), 2 * depth + 1);
        assert!(pos.is_elem());
        let pos = stack.seq_end().unwrap();
        assert_eq!(level(&pos), 2 * depth);
        assert_eq!(pos.is_key(), depth > 0);
    }
    assert!(stack.can_end());
}

#[test]
fn an_open_map_is_an_incomplete_stream() {
    let mut stack = Stack::new();
    stack.map_begin().unwrap();
    assert!(!stack.can_end());
    let err = stack.end().unwrap_err();
    assert_eq!(err.kind(), ErrorKind::Incomplete);
    assert_eq!(err.message(), "expecting the end of the stream");
}

#[test]
fn a_stream_without_an_item_is_incomplete() {
    let mut stack = Stack::new();
    assert!(!stack.can_end());
    assert_eq!(stack.end().unwrap_err().kind(), ErrorKind::Incomplete);
    let mut stack = Stack::default();
    assert!(!stack.can_end());
    assert_eq!(stack.end(), Err(Error::custom(Expecting::End)));
}

#[test]
fn the_root_takes_one_item_only() {
    let mut stack = Stack::new();
    stack.primitive().unwrap();
    assert_eq!(stack.primitive().unwrap_err().expecting, Expecting::Primitive);
    assert_eq!(stack.map_begin().unwrap_err().expecting, Expecting::MapBegin);
    assert_eq!(stack.seq_begin().unwrap_err().expecting, Expecting::SeqBegin);
    assert!(stack.can_end());
}

#[test]
fn each_event_is_refused_with_its_own_words() {
    let mut stack = Stack::new();
    stack.primitive().unwrap();
    let expected = [
        (Event::Primitive, "expecting a primitive"),
        (Event::MapBegin, "expecting the start of a map"),
        (Event::MapKey, "expecting a map key"),
        (Event::MapValue, "expecting a map value"),
        (Event::MapEnd, "expecting the end of a map"),
        (Event::SeqBegin, "expecting the start of a sequence"),
        (Event::SeqElem, "expecting a sequence element"),
        (Event::SeqEnd, "expecting the end of a sequence"),
    ];
    for (event, words) in expected {
        let err = stack.apply(event).unwrap_err();
        assert_eq!(err.kind(), ErrorKind::Protocol);
        assert_eq!(err.message(), words);
    }
}

#[test]
fn a_pending_key_blocks_the_map() {
    let mut stack = Stack::new();
    stack.map_begin().unwrap();
    stack.map_key().unwrap();
    assert_eq!(stack.map_key().unwrap_err().expecting, Expecting::MapKey);
    assert_eq!(stack.map_end().unwrap_err().expecting, Expecting::MapEnd);
    assert_eq!(stack.map_value().unwrap_err().expecting, Expecting::MapValue);
    stack.primitive().unwrap();
    assert_eq!(stack.map_key().unwrap_err().expecting, Expecting::MapKey);
    assert_eq!(stack.map_end().unwrap_err().expecting, Expecting::MapEnd);
    stack.map_value().unwrap();
    assert_eq!(stack.map_end().unwrap_err().expecting, Expecting::MapEnd);
    stack.primitive().unwrap();
    stack.map_end().unwrap();
}

#[test]
fn a_pending_element_blocks_the_sequence() {
    let mut stack = Stack::new();
    stack.seq_begin().unwrap();
    stack.seq_elem().unwrap();
    assert_eq!(stack.seq_end().unwrap_err().expecting, Expecting::SeqEnd);
    assert_eq!(stack.seq_elem().unwrap_err().expecting, Expecting::SeqElem);
    assert_eq!(stack.map_end().unwrap_err().expecting, Expecting::MapEnd);
    stack.primitive().unwrap();
    stack.seq_end().unwrap();
    assert_eq!(stack.seq_end().unwrap_err().expecting, Expecting::SeqEnd);
}

#[test]
fn a_refused_event_is_refused_again_in_the_same_words() {
    let events = [
        Event::Primitive,
        Event::MapBegin,
        Event::MapKey,
        Event::MapValue,
        Event::MapEnd,
        Event::SeqBegin,
        Event::SeqElem,
        Event::SeqEnd,
    ];
    let prefix = [Event::SeqBegin, Event::SeqElem, Event::MapBegin, Event::MapKey, Event::Primitive];
    for cut in 0..=prefix.len() {
        for event in events {
            let mut stack = Stack::new();
            for step in &prefix[..cut] {
                stack.apply(*step).unwrap();
            }
            if let Err(first) = stack.clone().apply(event) {
                assert_eq!(stack.apply(event).unwrap_err(), first);
                assert_eq!(stack.apply(event).unwrap_err(), first);
                assert_eq!(stack.apply(event).unwrap_err().message(), first.message());
            }
        }
    }
}

fn snapshot(pos: &Pos) -> (usize, bool, bool, bool, bool) {
    (level(pos), pos.is_key(), pos.is_value(), pos.is_elem(), pos.is_value_elem())
}

#[test]
fn a_cleared_validator_replays_a_stream_as_a_new_one_does() {
    let events = [
        Event::SeqBegin,
        Event::SeqElem,
        Event::MapBegin,
        Event::MapKey,
        Event::Primitive,
        Event::MapValue,
        Event::SeqBegin,
        Event::SeqEnd,
        Event::MapEnd,
        Event::SeqElem,
        Event::Primitive,
        Event::SeqEnd,
    ];
    let mut stack = Stack::new();
    let mut first = Vec::new();
    for event in events {
        first.push(snapshot(&stack.apply(event).unwrap()));
    }
    assert!(stack.can_end());
    assert_eq!(first[1], (1, false, false, true, true));
    assert_eq!(first[2], (2, false, false, false, false));
    assert_eq!(first[3], (2, true, false, false, false));
    assert_eq!(first[5], (2, false, true, false, true));
    assert_eq!(first[8], (1, false, false, true, true));

    stack.clear();
    assert!(!stack.can_end());
    let mut second = Vec::new();
    for event in events {
        second.push(snapshot(&stack.apply(event).unwrap()));
    }
    assert_eq!(first, second);
    assert!(stack.can_end());
}

#[test]
fn clear_recovers_from_a_refused_event() {
    let mut stack = Stack::new();
    stack.map_begin().unwrap();
    assert!(stack.seq_end().is_err());
    stack.clear();
    assert_eq!(level(&stack.primitive().unwrap()), 0);
    assert_eq!(stack.end(), Ok(()));
}

#[test]
fn a_stream_is_complete_only_at_its_end() {
    let events = [
        Event::MapBegin,
        Event::MapKey,
        Event::SeqBegin,
        Event::SeqElem,
        Event::Primitive,
        Event::SeqEnd,
        Event::MapValue,
        Event::Primitive,
        Event::MapEnd,
    ];
    let mut stack = Stack::new();
    for event in events {
        assert!(!stack.can_end());
        let pos = stack.apply(event).unwrap();
        assert!(level(&pos) <= 12);
    }
    assert!(stack.can_end());
}

#[test]
fn depths_are_ordered() {
    let mut stack = Stack::new();
    let outer = stack.seq_begin().unwrap().depth();
    stack.seq_elem().unwrap();
    let inner = stack.seq_begin().unwrap().depth();
    assert!(Depth::root() < outer);
    assert!(outer < inner);
    assert_eq!(outer.level(), 1);
    assert_eq!(inner.level(), 2);
    assert!(stack.seq_end().unwrap().depth() == outer);
}

#[test]
fn a_map_is_empty_when_begun_and_when_closed_without_an_entry() {
    let mut stack = Stack::new();
    let pos = stack.map_begin().unwrap();
    assert!(pos.is_empty_map());
    assert!(!pos.is_empty_seq());
    let pos = stack.map_end().unwrap();
    assert!(pos.is_empty_map());
    assert!(!pos.is_empty_seq());
    assert_eq!(level(&pos), 0);
    assert!(stack.can_end());
}

#[test]
fn a_map_with_an_entry_is_not_empty_when_closed() {
    let mut stack = Stack::new();
    assert!(stack.map_begin().unwrap().is_empty_map());
    assert!(!stack.map_key().unwrap().is_empty_map());
    assert!(!stack.primitive().unwrap().is_empty_map());
    assert!(!stack.map_value().unwrap().is_empty_map());
    assert!(!stack.primitive().unwrap().is_empty_map());
    let pos = stack.map_end().unwrap();
    assert!(!pos.is_empty_map());
    assert!(!pos.is_empty_seq());
}

#[test]
fn a_sequence_is_empty_when_begun_and_when_closed_without_an_element() {
    let mut stack = Stack::new();
    let pos = stack.seq_begin().unwrap();
    assert!(pos.is_empty_seq());
    assert!(!pos.is_empty_map());
    let pos = stack.seq_end().unwrap();
    assert!(pos.is_empty_seq());
    assert!(!pos.is_empty_map());
}

#[test]
fn a_sequence_with_an_element_is_not_empty_when_closed() {
    let mut stack = Stack::new();
    assert!(stack.seq_begin().unwrap().is_empty_seq());
    assert!(!stack.seq_elem().unwrap().is_empty_seq());
    assert!(!stack.primitive().unwrap().is_empty_seq());
    assert!(!stack.seq_end().unwrap().is_empty_seq());
}

#[test]
fn emptiness_is_kept_for_each_frame() {
    let mut stack = Stack::new();
    stack.seq_begin().unwrap();
    stack.seq_elem().unwrap();
    stack.map_begin().unwrap();
    stack.map_key().unwrap();
    assert!(stack.seq_begin().unwrap().is_empty_seq());
    let pos = stack.seq_end().unwrap();
    assert!(pos.is_empty_seq());
    assert!(pos.is_key());
    stack.map_value().unwrap();
    assert!(stack.map_begin().unwrap().is_empty_map());
    let pos = stack.map_end().unwrap();
    assert!(pos.is_empty_map());
    assert!(pos.is_value());
    let pos = stack.map_end().unwrap();
    assert!(!pos.is_empty_map());
    assert!(pos.is_elem());
    stack.seq_elem().unwrap();
    assert!(stack.seq_begin().unwrap().is_empty_seq());
    assert!(stack.seq_end().unwrap().is_empty_seq());
    let pos = stack.seq_end().unwrap();
    assert!(!pos.is_empty_seq());
    assert!(!pos.is_empty_map());
    assert!(stack.can_end());
}

#[test]
fn emptiness_is_kept_at_the_capacity() {
    let mut stack = Stack::new();
    for _ in 0..11 {
        stack.map_begin().unwrap();
        stack.map_key().unwrap();
    }
    assert!(stack.seq_begin().unwrap().is_empty_seq());
    assert!(stack.seq_end().unwrap().is_empty_seq());
    for depth in (0..11usize).rev() {
        stack.map_value().unwrap();
        assert!(stack.seq_begin().unwrap().is_empty_seq());
        stack.seq_elem().unwrap();
        stack.primitive().unwrap();
        assert!(!stack.seq_end().unwrap().is_empty_seq());
        let pos = stack.map_end().unwrap();
        assert!(!pos.is_empty_map());
        assert_eq!(level(&pos), depth);
    }
    assert!(stack.can_end());
}

#[test]
fn replay_gives_the_position_after_each_event() {
    let events = vec![
        Event::MapBegin,
        Event::MapKey,
        Event::Primitive,
        Event::MapValue,
        Event::SeqBegin,
        Event::SeqEnd,
        Event::MapEnd,
    ];
    let mut stack = Stack::new();
    let positions = stack.replay(&events).unwrap();
    assert_eq!(positions.len(), 7);
    let levels: Vec<usize> = positions.iter().map(level).collect();
    assert_eq!(levels, vec![1, 1, 1, 1, 2, 1, 0]);
    assert!(positions[0].is_empty_map());
    assert!(positions[2].is_key());
    assert!(positions[1].is_key());
    assert!(positions[3].is_value() && !positions[3].is_key());
    assert!(positions[4].is_empty_seq() && !positions[4].is_elem());
    assert!(positions[5].is_empty_seq() && positions[5].is_value());
    assert!(!positions[6].is_empty_map());
    assert!(stack.can_end());

    let mut one_by_one = Stack::new();
    for (event, pos) in events.iter().zip(positions.iter()) {
        assert_eq!(snapshot(&one_by_one.apply(*event).unwrap()), snapshot(pos));
    }
}

#[test]
fn replay_stops_at_the_first_illegal_event() {
    let events = vec![Event::SeqBegin, Event::SeqElem, Event::SeqEnd, Event::MapKey];
    let mut stack = Stack::new();
    let err = stack.replay(&events).unwrap_err();
    assert_eq!(err, Error::custom(Expecting::SeqEnd));
    assert_eq!(err.message(), "expecting the end of a sequence");
    assert_eq!(stack.primitive().map(|pos| level(&pos)), Ok(1));
}

#[test]
fn replay_after_clear_repeats_the_first_run() {
    let events = vec![
        Event::SeqBegin,
        Event::SeqElem,
        Event::SeqBegin,
        Event::SeqEnd,
        Event::SeqElem,
        Event::Primitive,
        Event::SeqEnd,
    ];
    let mut stack = Stack::new();
    let first: Vec<_> = stack.replay(&events).unwrap().iter().map(snapshot).collect();
    assert!(stack.replay(&events).is_err());
    stack.clear();
    let second: Vec<_> = stack.replay(&events).unwrap().iter().map(snapshot).collect();
    assert_eq!(first, second);
    assert_eq!(first.len(), 7);
    assert_eq!(first[3], (1, false, false, true, true));
}

#[test]
fn replay_of_nothing_changes_nothing() {
    let mut stack = Stack::new();
    assert!(stack.replay(&Vec::new()).unwrap().is_empty());
    assert!(!stack.can_end());
    stack.primitive().unwrap();
    assert!(stack.replay(&Vec::new()).unwrap().is_empty());
    assert!(stack.can_end());
}

#[test]
fn a_position_is_at_a_key_once_the_key_is_begun() {
    let mut stack = Stack::new();
    stack.map_begin().unwrap();
    let pos = stack.map_key().unwrap();
    assert!(pos.is_key());
    assert!(!pos.is_value() && !pos.is_elem() && !pos.is_value_elem());
    let pos = stack.primitive().unwrap();
    assert!(pos.is_key());
    assert!(!pos.is_value() && !pos.is_elem() && !pos.is_value_elem());
}

#[test]
fn a_position_is_at_a_value_once_the_value_is_begun() {
    let mut stack = Stack::new();
    stack.map_begin().unwrap();
    stack.map_key().unwrap();
    stack.primitive().unwrap();
    let pos = stack.map_value().unwrap();
    assert!(pos.is_value() && pos.is_value_elem());
    assert!(!pos.is_key() && !pos.is_elem());
    let pos = stack.primitive().unwrap();
    assert!(pos.is_value() && pos.is_value_elem());
    assert!(!pos.is_key() && !pos.is_elem());
    let pos = stack.map_key().unwrap();
    assert!(pos.is_key());
    assert!(!pos.is_value() && !pos.is_value_elem());
}

#[test]
fn a_position_is_at_an_element_once_the_element_is_begun() {
    let mut stack = Stack::new();
    stack.seq_begin().unwrap();
    let pos = stack.seq_elem().unwrap();
    assert!(pos.is_elem() && pos.is_value_elem());
    assert!(!pos.is_key() && !pos.is_value());
    let pos = stack.primitive().unwrap();
    assert!(pos.is_elem() && pos.is_value_elem());
    assert!(!pos.is_key() && !pos.is_value());
}

#[test]
fn a_map_or_sequence_just_begun_is_at_no_slot() {
    let mut stack = Stack::new();
    let pos = stack.map_begin().unwrap();
    assert!(!pos.is_key() && !pos.is_value() && !pos.is_elem() && !pos.is_value_elem());
    stack.map_key().unwrap();
    let pos = stack.seq_begin().unwrap();
    assert!(!pos.is_key() && !pos.is_value() && !pos.is_elem() && !pos.is_value_elem());
    let pos = stack.seq_end().unwrap();
    assert!(pos.is_key());
    stack.map_value().unwrap();
    let pos = stack.map_begin().unwrap();
    assert!(!pos.is_key() && !pos.is_value() && !pos.is_elem() && !pos.is_value_elem());
    let pos = stack.map_end().unwrap();
    assert!(pos.is_value() && pos.is_value_elem());
}
