use numaflow_core::batch::{
    account_fan_out, acknowledge_all, discard_all, split_dropped, stamp_late, track_batch, Arrival,
};
use numaflow_core::error::Error;
use numaflow_core::message::{IntOffset, Message, Offset, ReadAck, Timestamp, DROP};
use numaflow_core::tracker::Tracker;

fn message(offset: i64) -> Message {
    let mut m = Message::default();
    m.offset = Offset::Int(IntOffset::new(offset, 0));
    m.event_time = Timestamp::new(offset, 0);
    m
}

fn at(offset: i64) -> Offset {
    Offset::Int(IntOffset::new(offset, 0))
}

fn arrivals(offsets: &[i64]) -> Vec<Arrival<usize>> {
    offsets.iter().enumerate().map(|(i, o)| Arrival { message: message(*o), completion: i }).collect()
}

#[test]
fn a_batch_is_registered_in_its_order() {
    let mut tracker: Tracker<usize> = Tracker::new();
    let (messages, offsets) = track_batch(&mut tracker, arrivals(&[3, 1, 2])).unwrap();
    assert_eq!(offsets, vec![at(3), at(1), at(2)]);
    assert_eq!(messages.len(), 3);
    assert_eq!(messages[1].offset, at(1));
    assert_eq!(tracker.len(), 3);
    assert_eq!(tracker.signal(&at(2), ReadAck::Ack).unwrap().completion, 2);
}

#[test]
fn registration_stops_at_the_first_clash() {
    let mut tracker: Tracker<usize> = Tracker::new();
    tracker.insert(&message(7), 70).unwrap();
    let result = track_batch(&mut tracker, arrivals(&[1, 2, 7, 3]));
    assert!(matches!(result, Err(Error::DuplicateOffset)));
    assert_eq!(tracker.len(), 3);
    assert!(tracker.contains(&at(1)));
    assert!(tracker.contains(&at(2)));
    assert!(!tracker.contains(&at(3)));
}

#[test]
fn fan_out_is_counted_per_offset() {
    let mut tracker: Tracker<usize> = Tracker::new();
    track_batch(&mut tracker, arrivals(&[1, 2, 3])).unwrap();
    let outputs =
        vec![message(1), message(2), message(1), message(9), message(1), message(9), message(2)];
    assert!(account_fan_out(&mut tracker, &outputs).is_ok());
    assert_eq!(tracker.expected_signals(&at(1)), Some(3));
    assert_eq!(tracker.expected_signals(&at(2)), Some(2));
    assert_eq!(tracker.expected_signals(&at(3)), Some(1));
    assert_eq!(tracker.expected_signals(&at(9)), None);
}

#[test]
fn fan_out_beyond_what_can_be_counted_fails() {
    let mut tracker: Tracker<usize> = Tracker::new();
    track_batch(&mut tracker, arrivals(&[1])).unwrap();
    tracker.extend(&at(1), u32::MAX - 2).unwrap();
    let outputs = vec![message(1), message(1), message(1), message(1)];
    let result = account_fan_out(&mut tracker, &outputs);
    assert!(matches!(result, Err(Error::TooManySignals)));
    assert_eq!(tracker.expected_signals(&at(1)), Some(u32::MAX));
}

#[test]
fn lateness_is_told_against_the_watermark() {
    let out = stamp_late(vec![message(5), message(10), message(15)], Timestamp::new(10, 0));
    assert_eq!(out.len(), 3);
    assert!(out[0].is_late);
    assert!(!out[1].is_late);
    assert!(!out[2].is_late);
    assert_eq!(out[0].offset, at(5));
    // against a later watermark what was late stays late
    let again = stamp_late(out, Timestamp::new(10, 1));
    assert!(again[0].is_late);
    assert!(again[1].is_late);
    assert!(!again[2].is_late);
}

#[test]
fn dropped_messages_are_parted_from_the_others() {
    let mut a = message(1);
    a.tags = Some(vec![DROP.to_string()]);
    let b = message(2);
    let mut c = message(3);
    c.tags = Some(vec![DROP.to_string()]);
    let d = message(4);
    let (keep, dropped) = split_dropped(vec![a, b, c, d]);
    assert_eq!(keep.iter().map(|m| m.offset.clone()).collect::<Vec<_>>(), vec![at(2), at(4)]);
    assert_eq!(dropped, vec![at(1), at(3)]);
    let (keep, dropped) = split_dropped(vec![]);
    assert!(keep.is_empty());
    assert!(dropped.is_empty());
}

#[test]
fn discarding_a_batch_hands_back_what_was_in_flight() {
    let mut tracker: Tracker<usize> = Tracker::new();
    track_batch(&mut tracker, arrivals(&[1, 2, 3])).unwrap();
    tracker.signal(&at(2), ReadAck::Ack).unwrap();
    let left = discard_all(&mut tracker, &vec![at(1), at(2), at(3), at(1)]);
    assert_eq!(left.len(), 2);
    assert_eq!(left[0].offset, at(1));
    assert_eq!(left[0].outcome(), ReadAck::Nak);
    assert_eq!(left[1].offset, at(3));
    assert!(tracker.is_empty());
}

#[test]
fn acknowledging_offsets_completes_what_waits_for_one_signal() {
    let mut tracker: Tracker<usize> = Tracker::new();
    track_batch(&mut tracker, arrivals(&[1, 2])).unwrap();
    tracker.extend(&at(2), 1).unwrap();
    let left = acknowledge_all(&mut tracker, &vec![at(1), at(2), at(5)]);
    assert_eq!(left.len(), 1);
    assert_eq!(left[0].offset, at(1));
    assert_eq!(left[0].outcome(), ReadAck::Ack);
    assert_eq!(tracker.received_signals(&at(2)), Some(1));
    let left = acknowledge_all(&mut tracker, &vec![at(2)]);
    assert_eq!(left.len(), 1);
    assert_eq!(left[0].outcome(), ReadAck::Ack);
}
