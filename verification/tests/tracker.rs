use numaflow_core::error::Error;
use numaflow_core::message::{IntOffset, Message, Offset, ReadAck, StringOffset};
use numaflow_core::tracker::{Disposition, Tracker};

fn message_at(offset: i64) -> Message {
    let mut m = Message::default();
    m.offset = Offset::Int(IntOffset::new(offset, 0));
    m
}

fn at(offset: i64) -> Offset {
    Offset::Int(IntOffset::new(offset, 0))
}

#[test]
fn a_new_tracker_is_empty() {
    let tracker: Tracker<u32> = Tracker::new();
    assert!(tracker.is_empty());
    assert_eq!(tracker.len(), 0);
    assert!(!tracker.contains(&at(1)));
    assert_eq!(tracker.expected_signals(&at(1)), None);
}

#[test]
fn insert_registers_one_expected_signal() {
    let mut tracker: Tracker<u32> = Tracker::new();
    assert!(tracker.insert(&message_at(1), 11).is_ok());
    assert!(tracker.contains(&at(1)));
    assert_eq!(tracker.len(), 1);
    assert_eq!(tracker.expected_signals(&at(1)), Some(1));
    assert_eq!(tracker.received_signals(&at(1)), Some(0));
    assert_eq!(tracker.disposition(&at(1)), Some(Disposition::Pending));
}

#[test]
fn a_second_insert_of_an_offset_is_refused() {
    let mut tracker: Tracker<u32> = Tracker::new();
    assert!(tracker.insert(&message_at(1), 11).is_ok());
    let again = tracker.insert(&message_at(1), 12);
    assert!(matches!(again, Err(Error::DuplicateOffset)));
    assert_eq!(tracker.len(), 1);
    // the entry that was there is the one that stays
    let left = tracker.signal(&at(1), ReadAck::Ack).unwrap();
    assert_eq!(left.completion, 11);
}

#[test]
fn offsets_of_different_partitions_or_kinds_do_not_clash() {
    let mut tracker: Tracker<u32> = Tracker::new();
    let mut a = Message::default();
    a.offset = Offset::Int(IntOffset::new(1, 0));
    let mut b = Message::default();
    b.offset = Offset::Int(IntOffset::new(1, 1));
    let mut c = Message::default();
    c.offset = Offset::String(StringOffset::new("1".to_string(), 0));
    assert!(tracker.insert(&a, 0).is_ok());
    assert!(tracker.insert(&b, 1).is_ok());
    assert!(tracker.insert(&c, 2).is_ok());
    assert_eq!(tracker.len(), 3);
}

#[test]
fn the_one_signal_of_a_plain_message_completes_it() {
    let mut tracker: Tracker<u32> = Tracker::new();
    tracker.insert(&message_at(1), 11).unwrap();
    let left = tracker.signal(&at(1), ReadAck::Ack).expect("the entry is complete");
    assert_eq!(left.offset, at(1));
    assert_eq!(left.completion, 11);
    assert_eq!(left.expected_signals, 1);
    assert_eq!(left.received_signals, 1);
    assert_eq!(left.disposition, Disposition::Ack);
    assert_eq!(left.outcome(), ReadAck::Ack);
    assert!(tracker.is_empty());
    // at most one completion for an offset
    assert!(tracker.signal(&at(1), ReadAck::Ack).is_none());
}

#[test]
fn a_nak_completes_as_a_nak() {
    let mut tracker: Tracker<u32> = Tracker::new();
    tracker.insert(&message_at(1), 11).unwrap();
    let left = tracker.signal(&at(1), ReadAck::Nak).unwrap();
    assert_eq!(left.disposition, Disposition::Nak);
    assert_eq!(left.outcome(), ReadAck::Nak);
}

#[test]
fn a_signal_for_an_unknown_offset_is_ignored() {
    let mut tracker: Tracker<u32> = Tracker::new();
    tracker.insert(&message_at(1), 11).unwrap();
    assert!(tracker.signal(&at(2), ReadAck::Ack).is_none());
    assert_eq!(tracker.len(), 1);
    assert_eq!(tracker.received_signals(&at(1)), Some(0));
}

#[test]
fn fan_out_waits_for_every_signal() {
    let mut tracker: Tracker<u32> = Tracker::new();
    tracker.insert(&message_at(1), 11).unwrap();
    assert!(tracker.extend(&at(1), 2).is_ok());
    assert_eq!(tracker.expected_signals(&at(1)), Some(3));
    assert!(tracker.signal(&at(1), ReadAck::Ack).is_none());
    assert_eq!(tracker.received_signals(&at(1)), Some(1));
    assert_eq!(tracker.disposition(&at(1)), Some(Disposition::Pending));
    assert!(tracker.signal(&at(1), ReadAck::Ack).is_none());
    let left = tracker.signal(&at(1), ReadAck::Ack).expect("the third signal completes");
    assert_eq!(left.received_signals, 3);
    assert_eq!(left.expected_signals, 3);
    assert_eq!(left.outcome(), ReadAck::Ack);
    assert!(tracker.is_empty());
}

#[test]
fn a_nak_latches() {
    let mut tracker: Tracker<u32> = Tracker::new();
    tracker.insert(&message_at(1), 11).unwrap();
    tracker.extend(&at(1), 2).unwrap();
    assert!(tracker.signal(&at(1), ReadAck::Nak).is_none());
    assert_eq!(tracker.disposition(&at(1)), Some(Disposition::Nak));
    assert!(tracker.signal(&at(1), ReadAck::Ack).is_none());
    assert_eq!(tracker.disposition(&at(1)), Some(Disposition::Nak));
    let left = tracker.signal(&at(1), ReadAck::Ack).unwrap();
    assert_eq!(left.outcome(), ReadAck::Nak);
}

#[test]
fn extend_fails_on_unknown_offsets_and_on_overflow() {
    let mut tracker: Tracker<u32> = Tracker::new();
    assert!(matches!(tracker.extend(&at(1), 1), Err(Error::UnknownOffset)));
    tracker.insert(&message_at(1), 11).unwrap();
    assert!(matches!(tracker.extend(&at(1), u32::MAX), Err(Error::TooManySignals)));
    assert_eq!(tracker.expected_signals(&at(1)), Some(1));
    assert!(tracker.extend(&at(1), u32::MAX - 1).is_ok());
    assert_eq!(tracker.expected_signals(&at(1)), Some(u32::MAX));
    assert!(matches!(tracker.extend(&at(1), 1), Err(Error::TooManySignals)));
    assert!(tracker.extend(&at(1), 0).is_ok());
}

#[test]
fn discard_takes_the_entry_out_as_a_nak() {
    let mut tracker: Tracker<u32> = Tracker::new();
    tracker.insert(&message_at(1), 11).unwrap();
    tracker.insert(&message_at(2), 12).unwrap();
    tracker.extend(&at(1), 4).unwrap();
    let left = tracker.discard(&at(1)).unwrap();
    assert_eq!(left.completion, 11);
    assert_eq!(left.disposition, Disposition::Nak);
    assert_eq!(left.expected_signals, 5);
    assert_eq!(left.received_signals, 0);
    assert!(tracker.discard(&at(1)).is_none());
    assert!(tracker.contains(&at(2)));
    assert_eq!(tracker.len(), 1);
}

#[test]
fn cancel_turns_what_is_pending_into_naks_in_order() {
    let mut tracker: Tracker<u32> = Tracker::new();
    tracker.insert(&message_at(3), 30).unwrap();
    tracker.insert(&message_at(1), 10).unwrap();
    tracker.insert(&message_at(2), 20).unwrap();
    tracker.signal(&at(1), ReadAck::Ack).unwrap();
    let left = tracker.cancel();
    assert!(tracker.is_empty());
    assert_eq!(left.len(), 2);
    assert_eq!(left[0].offset, at(3));
    assert_eq!(left[0].completion, 30);
    assert_eq!(left[0].outcome(), ReadAck::Nak);
    assert_eq!(left[1].offset, at(2));
    assert_eq!(left[1].outcome(), ReadAck::Nak);
    assert!(tracker.cancel().is_empty());
}

#[test]
fn an_offset_can_be_tracked_again_once_it_left() {
    let mut tracker: Tracker<u32> = Tracker::new();
    tracker.insert(&message_at(1), 11).unwrap();
    tracker.signal(&at(1), ReadAck::Nak).unwrap();
    assert!(tracker.insert(&message_at(1), 12).is_ok());
    assert_eq!(tracker.signal(&at(1), ReadAck::Ack).unwrap().completion, 12);
}
