use numaflow_core::ack::{AckAction, AckEvent, AckTask};
use numaflow_core::backpressure::ReadAheadGate;
use numaflow_core::batch::Arrival;
use numaflow_core::error::Error;
use numaflow_core::message::{IntOffset, Message, Offset, ReadAck, Timestamp, DROP};
use numaflow_core::source::{ready, Action, Event, Phase, SourceForwarder, Step};
use numaflow_core::tracker::Tracker;
use numaflow_core::watermark::{PartitionMark, SourceWatermark};

/// The promise of a message: the batch it belongs to and its place there.
type Promise = (usize, usize);

fn message(offset: i64, partition: u16) -> Message {
    let mut m = Message::default();
    m.offset = Offset::Int(IntOffset::new(offset, partition));
    m.value = b"hello".to_vec();
    m.event_time = Timestamp::new(1000 + offset, 0);
    m
}

fn at(offset: i64, partition: u16) -> Offset {
    Offset::Int(IntOffset::new(offset, partition))
}

/// A source vertex that runs without waiting: what the forwarder and the
/// acknowledgements ask for is done at once, in one thread.
struct Vertex {
    forwarder: SourceForwarder,
    tracker: Tracker<Promise>,
    gate: ReadAheadGate,
    reads: Vec<Result<Vec<Message>, Error>>,
    next_read: usize,
    cancel_after: usize,
    transform: Option<fn(Vec<Message>) -> Result<Vec<Message>, Error>>,
    write: fn(&Message, usize) -> Option<ReadAck>,
    partitions: Vec<u16>,
    hold_signals: bool,
    held: Vec<(Offset, ReadAck)>,
    tasks: Vec<Option<AckTask>>,
    acked: Vec<Vec<Offset>>,
    written: Vec<Message>,
    published: Vec<Vec<PartitionMark>>,
    most_in_flight: u128,
    most_batches: usize,
    steps: usize,
}

impl Vertex {
    fn new(
        read_ahead: bool,
        batch_size: usize,
        reads: Vec<Result<Vec<Message>, Error>>,
        watermark: Option<SourceWatermark>,
        transform: Option<fn(Vec<Message>) -> Result<Vec<Message>, Error>>,
        write: fn(&Message, usize) -> Option<ReadAck>,
    ) -> Vertex {
        let cancel_after = reads.len();
        Vertex {
            forwarder: SourceForwarder::new(transform.is_some(), watermark),
            tracker: Tracker::new(),
            gate: ReadAheadGate::new(read_ahead, batch_size),
            reads,
            next_read: 0,
            cancel_after,
            transform,
            write,
            partitions: vec![1, 2],
            hold_signals: false,
            held: vec![],
            tasks: vec![],
            acked: vec![],
            written: vec![],
            published: vec![],
            most_in_flight: 0,
            most_batches: 0,
            steps: 0,
        }
    }

    fn act(&mut self, task: usize, action: AckAction) {
        let mut action = action;
        loop {
            let next = match action {
                AckAction::Await | AckAction::Ignore => return,
                AckAction::Ack(offsets) => {
                    self.acked.push(offsets);
                    AckEvent::Attempted { failed: false, cancelled: false }
                }
                AckAction::Sleep(_) => AckEvent::Waited,
                AckAction::Release(permit) => {
                    self.gate.release(permit);
                    return;
                }
            };
            action = self.tasks[task].as_mut().unwrap().step(next);
        }
    }

    fn resolve(&mut self, promise: Promise, outcome: ReadAck) {
        let (task, index) = promise;
        let action =
            self.tasks[task].as_mut().unwrap().step(AckEvent::Resolved { index, outcome: Some(outcome) });
        self.act(task, action);
    }

    fn signal(&mut self, offset: &Offset, outcome: ReadAck) {
        if let Some(entry) = self.tracker.signal(offset, outcome) {
            let outcome = entry.outcome();
            self.resolve(entry.completion, outcome);
        }
    }

    fn release_held(&mut self) {
        let held = std::mem::take(&mut self.held);
        for (offset, outcome) in held {
            self.signal(&offset, outcome);
        }
    }

    fn observe(&mut self) {
        self.most_in_flight = self.most_in_flight.max(self.gate.count_messages());
        self.most_batches = self.most_batches.max(self.gate.permits_taken());
    }

    fn answer(&mut self, step: Step<Promise>) -> Option<Result<Event<Promise>, Result<(), Error>>> {
        if let Some(scheduled) = step.ticket {
            let (task, first) = AckTask::start(scheduled.ticket, scheduled.permit);
            self.tasks.push(Some(task));
            let id = self.tasks.len() - 1;
            self.act(id, first);
        }
        for entry in step.completions {
            let outcome = entry.outcome();
            self.resolve(entry.completion, outcome);
        }
        self.observe();
        let event = match step.action {
            Action::Resume => Event::Wake { cancelled: self.next_read >= self.cancel_after },
            Action::AwaitPermit => {
                // a permit comes back when a batch in flight is resolved
                assert!(
                    !self.held.is_empty() || self.gate.available() > 0,
                    "nothing is in flight that could give a permit back"
                );
                self.release_held();
                Event::Wake { cancelled: self.next_read >= self.cancel_after }
            }
            Action::Read => {
                let read = std::mem::replace(&mut self.reads[self.next_read], Ok(vec![]));
                self.next_read += 1;
                let batch = self.tasks.len();
                Event::Read(read.map(|messages| {
                    messages
                        .into_iter()
                        .enumerate()
                        .map(|(i, message)| Arrival { message, completion: (batch, i) })
                        .collect()
                }))
            }
            Action::FetchPartitions => Event::Partitions(self.partitions.clone()),
            Action::Publish(marks) => {
                self.published.push(marks);
                Event::Done
            }
            Action::Transform(messages) => Event::Transformed((self.transform.unwrap())(messages)),
            Action::Write(messages) => {
                for m in messages {
                    let place = self.written.len();
                    let outcome = (self.write)(&m, place);
                    let offset = m.offset.clone();
                    self.written.push(m);
                    if let Some(outcome) = outcome {
                        if self.hold_signals {
                            self.held.push((offset, outcome));
                        } else {
                            self.signal(&offset, outcome);
                        }
                    }
                }
                self.observe();
                Event::Done
            }
            Action::Return(result) => return Some(Err(result)),
        };
        Some(Ok(event))
    }

    fn run(&mut self) -> Result<(), Error> {
        let mut event = Event::Wake { cancelled: self.next_read >= self.cancel_after };
        loop {
            self.steps += 1;
            assert!(self.steps < 100_000, "the forwarder does not come to an end");
            let step = self.forwarder.step(&mut self.tracker, &mut self.gate, event);
            match self.answer(step).unwrap() {
                Ok(next) => event = next,
                Err(result) => return result,
            }
        }
    }

    fn acked_offsets(&self) -> Vec<Offset> {
        self.acked.iter().flatten().cloned().collect()
    }
}

fn ack_all(_: &Message, _: usize) -> Option<ReadAck> {
    Some(ReadAck::Ack)
}

fn batches(count: i64, size: i64) -> Vec<Result<Vec<Message>, Error>> {
    (0..count).map(|b| Ok((0..size).map(|i| message(b * size + i, 1 + (i % 2) as u16)).collect())).collect()
}

#[test]
fn a_hundred_messages_are_forwarded_and_acknowledged_with_read_ahead() {
    let mut vertex = Vertex::new(true, 5, batches(20, 5), None, None, ack_all);
    assert_eq!(vertex.gate.permits(), 2000);
    assert!(vertex.run().is_ok());
    assert_eq!(vertex.written.len(), 100);
    assert!(vertex.written.iter().all(|m| m.value == b"hello".to_vec()));
    let expected: Vec<Offset> = (0..100).map(|i| at(i, 1 + ((i % 5) % 2) as u16)).collect();
    assert_eq!(vertex.acked_offsets(), expected);
    assert_eq!(vertex.acked.len(), 20);
    let pending = 100 - vertex.acked_offsets().len();
    assert_eq!(pending, 0);
    assert_eq!(vertex.partitions, vec![1, 2]);
    assert!(vertex.tracker.is_empty());
    assert!(vertex.gate.drained());
    assert!(vertex.forwarder.is_stopped());
}

fn to_one_of_five(_: &Message, _: usize) -> Option<ReadAck> {
    Some(ReadAck::Ack)
}

#[test]
fn a_generator_feeds_five_output_partitions() {
    // ten messages a second for one second, in batches of five
    let mut vertex = Vertex::new(true, 5, batches(2, 5), None, None, to_one_of_five);
    assert!(vertex.run().is_ok());
    // the writer spreads what it gets over five partitions, in turn
    let mut persisted = [0usize; 5];
    for (place, _) in vertex.written.iter().enumerate() {
        persisted[place % 5] += 1;
    }
    assert!(persisted.iter().all(|n| *n >= 1));
    assert!(vertex.tracker.is_empty());
    let pending = 10 - vertex.acked_offsets().len();
    assert_eq!(pending, 0);
    assert!(vertex.gate.drained());
}

#[test]
fn without_read_ahead_no_more_than_a_batch_is_in_flight() {
    let mut vertex = Vertex::new(false, 5, batches(6, 5), None, None, ack_all);
    vertex.hold_signals = true;
    assert!(vertex.run().is_ok());
    assert_eq!(vertex.most_batches, 1);
    assert_eq!(vertex.most_in_flight, 5);
    assert_eq!(vertex.written.len(), 30);
    assert_eq!(vertex.acked.len(), 6);
    assert_eq!(vertex.acked_offsets().len(), 30);
    assert!(vertex.gate.drained());
}

#[test]
fn with_read_ahead_batches_pile_up_until_they_are_resolved() {
    let mut vertex = Vertex::new(true, 5000, batches(4, 3), None, None, ack_all);
    vertex.hold_signals = true;
    assert_eq!(vertex.gate.permits(), 2);
    assert!(vertex.run().is_ok());
    assert_eq!(vertex.most_batches, 2);
    assert_eq!(vertex.most_in_flight, 6);
    assert_eq!(vertex.acked_offsets().len(), 12);
}

fn drop_all(messages: Vec<Message>) -> Result<Vec<Message>, Error> {
    Ok(messages
        .into_iter()
        .map(|mut m| {
            m.tags = Some(vec![DROP.to_string()]);
            m
        })
        .collect())
}

fn never_written(_: &Message, _: usize) -> Option<ReadAck> {
    panic!("a dropped message reached the writer")
}

#[test]
fn a_transformer_that_drops_everything() {
    let mut vertex = Vertex::new(true, 4, batches(3, 4), None, Some(drop_all), never_written);
    assert!(vertex.run().is_ok());
    assert!(vertex.written.is_empty());
    assert_eq!(vertex.acked_offsets().len(), 12);
    assert_eq!(vertex.acked.len(), 3);
    assert!(vertex.tracker.is_empty());
    assert!(vertex.gate.drained());
}

fn nak_every_third(_: &Message, place: usize) -> Option<ReadAck> {
    if place % 3 == 2 {
        Some(ReadAck::Nak)
    } else {
        Some(ReadAck::Ack)
    }
}

#[test]
fn a_writer_that_refuses_every_third_message() {
    let mut vertex = Vertex::new(true, 5, batches(2, 5), None, None, nak_every_third);
    assert!(vertex.run().is_ok());
    assert_eq!(vertex.written.len(), 10);
    let acked = vertex.acked_offsets();
    // of ten messages the third, sixth and ninth are refused: seven are acknowledged
    assert_eq!(acked.len(), 7);
    for refused in [2, 5, 8] {
        assert!(!acked.contains(&vertex.written[refused].offset));
    }
    assert!(vertex.tracker.is_empty());
}

fn never_resolves(_: &Message, _: usize) -> Option<ReadAck> {
    None
}

#[test]
fn cancellation_with_a_batch_in_flight_waits_and_acknowledges_nothing() {
    let mut vertex = Vertex::new(true, 5, batches(1, 5), None, None, never_resolves);
    let mut event = Event::Wake { cancelled: false };
    let mut waits = 0;
    loop {
        let step = vertex.forwarder.step(&mut vertex.tracker, &mut vertex.gate, event);
        if let Action::AwaitPermit = step.action {
            waits += 1;
            assert_eq!(vertex.forwarder.current_phase(), Phase::Draining);
            if waits == 3 {
                break;
            }
            event = Event::Wake { cancelled: true };
            continue;
        }
        event = vertex.answer(step).unwrap().ok().expect("the forwarder waits for its batch");
    }
    assert!(vertex.acked.is_empty());
    assert_eq!(vertex.tracker.len(), 5);
    // once the batch is resolved the forwarder returns
    for entry in vertex.tracker.cancel() {
        let outcome = entry.outcome();
        assert_eq!(outcome, ReadAck::Nak);
        vertex.resolve(entry.completion, outcome);
    }
    assert!(vertex.gate.drained());
    let step = vertex.forwarder.step(&mut vertex.tracker, &mut vertex.gate, Event::Wake { cancelled: true });
    assert!(matches!(step.action, Action::Return(Ok(()))));
    assert!(vertex.acked.is_empty());
}

fn triple(messages: Vec<Message>) -> Result<Vec<Message>, Error> {
    let mut out = vec![];
    for m in messages {
        for index in 0..3 {
            let mut copy = m.clone();
            copy.id.index = index;
            out.push(copy);
        }
    }
    Ok(out)
}

#[test]
fn a_fan_out_of_three_waits_for_all_three_writes() {
    let mut vertex = Vertex::new(true, 4, batches(1, 4), None, Some(triple), ack_all);
    vertex.hold_signals = true;
    let mut event = Event::Wake { cancelled: false };
    loop {
        let step = vertex.forwarder.step(&mut vertex.tracker, &mut vertex.gate, event);
        let written = matches!(step.action, Action::Write(_));
        event = vertex.answer(step).unwrap().ok().unwrap();
        if written {
            break;
        }
    }
    assert_eq!(vertex.written.len(), 12);
    for i in 0..4 {
        assert_eq!(vertex.tracker.expected_signals(&at(i, 1 + (i % 2) as u16)), Some(3));
    }
    // two of the three writes of each message resolve: nothing is acknowledged
    let held = std::mem::take(&mut vertex.held);
    let (early, late): (Vec<_>, Vec<_>) =
        held.into_iter().enumerate().partition(|(place, _)| place % 3 != 2);
    for (_, (offset, outcome)) in early {
        vertex.signal(&offset, outcome);
    }
    assert!(vertex.acked.is_empty());
    assert_eq!(vertex.tracker.len(), 4);
    for (_, (offset, outcome)) in late {
        vertex.signal(&offset, outcome);
    }
    assert_eq!(vertex.acked.len(), 1);
    assert_eq!(vertex.acked[0].len(), 4);
    assert!(vertex.tracker.is_empty());
    assert!(vertex.gate.drained());
    let _ = event;
}

#[test]
fn acknowledgements_follow_the_order_of_resolution() {
    let mut vertex = Vertex::new(true, 3, batches(1, 3), None, None, ack_all);
    vertex.hold_signals = true;
    let mut event = Event::Wake { cancelled: false };
    loop {
        let step = vertex.forwarder.step(&mut vertex.tracker, &mut vertex.gate, event);
        let written = matches!(step.action, Action::Write(_));
        event = vertex.answer(step).unwrap().ok().unwrap();
        if written {
            break;
        }
    }
    let mut held = std::mem::take(&mut vertex.held);
    held.reverse();
    for (offset, outcome) in held {
        vertex.signal(&offset, outcome);
    }
    assert_eq!(vertex.acked, vec![vec![at(2, 1), at(1, 2), at(0, 1)]]);
    let _ = event;
}

fn fail(_: Vec<Message>) -> Result<Vec<Message>, Error> {
    Err(Error::Transformer("broken".to_string()))
}

#[test]
fn a_failing_transformer_discards_the_batch_and_ends_the_forwarder() {
    let mut vertex = Vertex::new(true, 3, batches(2, 3), None, Some(fail), never_written);
    let result = vertex.run();
    assert!(matches!(result, Err(Error::Transformer(text)) if text == "broken"));
    assert!(vertex.written.is_empty());
    assert!(vertex.acked.is_empty());
    assert!(vertex.tracker.is_empty());
    assert!(vertex.gate.drained());
    assert_eq!(vertex.next_read, 1);
}

#[test]
fn a_failing_read_ends_the_forwarder_after_the_batches_in_flight() {
    let mut reads = batches(1, 2);
    reads.push(Err(Error::Source("gone".to_string())));
    reads.push(Ok(vec![message(99, 1)]));
    let mut vertex = Vertex::new(true, 2, reads, None, None, ack_all);
    vertex.hold_signals = true;
    let result = vertex.run();
    assert!(matches!(result, Err(Error::Source(text)) if text == "gone"));
    assert_eq!(vertex.written.len(), 2);
    assert_eq!(vertex.acked_offsets(), vec![at(0, 1), at(1, 2)]);
    assert_eq!(vertex.next_read, 2);
    assert!(vertex.gate.drained());
}

#[test]
fn an_offset_that_is_in_flight_twice_stops_the_forwarder_at_once() {
    let reads = vec![Ok(vec![message(1, 1), message(2, 1), message(1, 1)])];
    let mut vertex = Vertex::new(true, 3, reads, None, None, ack_all);
    let result = vertex.run();
    assert!(matches!(result, Err(Error::DuplicateOffset)));
    assert!(vertex.written.is_empty());
    assert!(vertex.acked.is_empty());
    assert_eq!(vertex.tracker.len(), 2);
    assert!(vertex.forwarder.is_stopped());
}

#[test]
fn late_messages_are_marked_against_the_watermark_of_the_source() {
    let generator = SourceWatermark::new(0, 1000, Timestamp::new(-1, 0));
    let mut early = message(1, 1);
    early.event_time = Timestamp::new(500, 0);
    let mut late = message(2, 1);
    late.event_time = Timestamp::new(100, 0);
    let mut on_time = message(3, 1);
    on_time.event_time = Timestamp::new(500, 0);
    let reads = vec![Ok(vec![early]), Ok(vec![late, on_time])];
    let mut vertex = Vertex::new(false, 5, reads, Some(generator), None, ack_all);
    assert!(vertex.run().is_ok());
    assert_eq!(vertex.written.len(), 3);
    // the first batch takes the watermark to 500; the second cannot take it back
    assert!(!vertex.written[0].is_late);
    assert!(vertex.written[1].is_late);
    assert!(!vertex.written[2].is_late);
    assert_eq!(
        vertex.published,
        vec![
            vec![PartitionMark { partition: 1, watermark: Timestamp::new(500, 0) }],
            vec![PartitionMark { partition: 1, watermark: Timestamp::new(500, 0) }],
        ]
    );
}

#[test]
fn empty_reads_publish_idle_watermarks_and_give_the_permit_back() {
    let generator = SourceWatermark::new(0, 2000, Timestamp::new(10, 0));
    let reads = vec![Ok(vec![]), Ok(vec![]), Ok(vec![])];
    let mut vertex = Vertex::new(false, 5, reads, Some(generator), None, ack_all);
    assert!(vertex.run().is_ok());
    assert_eq!(vertex.published.len(), 3);
    assert_eq!(
        vertex.published[2],
        vec![
            PartitionMark { partition: 1, watermark: Timestamp::new(16, 0) },
            PartitionMark { partition: 2, watermark: Timestamp::new(16, 0) },
        ]
    );
    assert!(vertex.acked.is_empty());
    assert!(vertex.tasks.is_empty());
    assert_eq!(vertex.most_batches, 1);
    assert!(vertex.gate.drained());
}

#[test]
fn empty_reads_without_a_generator_just_go_on() {
    let mut vertex = Vertex::new(false, 5, vec![Ok(vec![]), Ok(vec![])], None, None, ack_all);
    assert!(vertex.run().is_ok());
    assert!(vertex.published.is_empty());
    assert_eq!(vertex.next_read, 2);
}

#[test]
fn dropped_messages_are_acknowledged_and_the_others_written() {
    let mut a = message(1, 1);
    a.tags = Some(vec![DROP.to_string()]);
    let b = message(2, 1);
    let mut c = message(3, 1);
    c.tags = Some(vec!["keep".to_string(), DROP.to_string()]);
    let mut vertex = Vertex::new(true, 3, vec![Ok(vec![a, b, c])], None, None, ack_all);
    assert!(vertex.run().is_ok());
    assert_eq!(vertex.written.len(), 1);
    assert_eq!(vertex.written[0].offset, at(2, 1));
    assert_eq!(vertex.acked, vec![vec![at(1, 1), at(3, 1), at(2, 1)]]);
}

#[test]
fn a_forwarder_that_is_cancelled_before_it_reads_returns_at_once() {
    let mut forwarder = SourceForwarder::new(false, None);
    let mut tracker: Tracker<Promise> = Tracker::new();
    let mut gate = ReadAheadGate::new(false, 5);
    assert_eq!(forwarder.current_phase(), Phase::Idle);
    let step = forwarder.step(&mut tracker, &mut gate, Event::Wake { cancelled: true });
    assert!(matches!(step.action, Action::Return(Ok(()))));
    assert!(forwarder.is_stopped());
}

#[test]
fn an_event_out_of_turn_stops_the_forwarder() {
    let mut forwarder = SourceForwarder::new(false, None);
    let mut tracker: Tracker<Promise> = Tracker::new();
    let mut gate = ReadAheadGate::new(false, 5);
    let step = forwarder.step(&mut tracker, &mut gate, Event::Done);
    assert!(matches!(step.action, Action::Return(Err(Error::Protocol))));
    assert!(step.ticket.is_none());
    assert!(step.completions.is_empty());
    assert!(forwarder.is_stopped());
    let step = forwarder.step(&mut tracker, &mut gate, Event::Wake { cancelled: false });
    assert!(matches!(step.action, Action::Return(Err(Error::Protocol))));
}

#[test]
fn a_forwarder_waits_for_a_permit_where_none_is_free() {
    let mut forwarder = SourceForwarder::new(false, None);
    let mut tracker: Tracker<Promise> = Tracker::new();
    let mut gate = ReadAheadGate::new(true, 10001);
    let step = forwarder.step(&mut tracker, &mut gate, Event::Wake { cancelled: false });
    assert!(matches!(step.action, Action::AwaitPermit));
    assert_eq!(forwarder.current_phase(), Phase::Idle);
}

#[test]
fn readiness_of_a_source_vertex() {
    assert!(ready(None, None));
    assert!(ready(Some(Ok(true)), Some(true)));
    assert!(!ready(Some(Ok(false)), Some(true)));
    assert!(!ready(Some(Ok(true)), Some(false)));
    assert!(!ready(Some(Err(Error::Source("down".to_string()))), None));
    assert!(!ready(None, Some(false)));
    assert!(ready(Some(Ok(true)), None));
}
