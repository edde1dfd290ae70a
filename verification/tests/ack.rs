use numaflow_core::ack::{
    clone_offsets, next_ack_step, AckAction, AckEvent, AckStep, AckTask, BatchTicket,
    ACK_RETRY_ATTEMPTS, ACK_RETRY_INTERVAL,
};
use numaflow_core::backpressure::{Permit, ReadAheadGate};
use numaflow_core::message::{IntOffset, Offset, ReadAck};

fn at(offset: i64) -> Offset {
    Offset::Int(IntOffset::new(offset, 0))
}

fn offsets(n: i64) -> Vec<Offset> {
    (0..n).map(at).collect()
}

fn permit() -> (ReadAheadGate, Permit) {
    let mut gate = ReadAheadGate::with_capacity(1);
    let permit = gate.try_acquire().unwrap();
    (gate, permit)
}

#[test]
fn retry_goes_on_until_success_or_cancellation() {
    assert_eq!(ACK_RETRY_INTERVAL, 100);
    assert_eq!(ACK_RETRY_ATTEMPTS, usize::MAX);
    assert_eq!(next_ack_step(false, false, 1), AckStep::Stop);
    assert_eq!(next_ack_step(false, true, 1), AckStep::Stop);
    assert_eq!(next_ack_step(true, true, 1), AckStep::Stop);
    assert_eq!(next_ack_step(true, false, 1), AckStep::RetryAfter(100));
    assert_eq!(next_ack_step(true, false, 1_000_000), AckStep::RetryAfter(100));
    assert_eq!(next_ack_step(true, false, usize::MAX), AckStep::Stop);
}

#[test]
fn a_ticket_gathers_acks_in_the_order_of_resolution() {
    let mut ticket = BatchTicket::new(offsets(4));
    assert_eq!(ticket.len(), 4);
    assert!(!ticket.is_complete());
    assert!(ticket.resolve(2, Some(ReadAck::Ack)));
    assert!(ticket.resolve(0, Some(ReadAck::Nak)));
    assert!(ticket.resolve(3, None));
    assert!(!ticket.is_complete());
    // a place resolves once, and only places of the batch resolve
    assert!(!ticket.resolve(2, Some(ReadAck::Ack)));
    assert!(!ticket.resolve(4, Some(ReadAck::Ack)));
    assert!(ticket.resolve(1, Some(ReadAck::Ack)));
    assert!(ticket.is_complete());
    assert_eq!(ticket.into_acks(), vec![at(2), at(1)]);
}

#[test]
fn an_empty_ticket_is_complete() {
    let ticket = BatchTicket::new(vec![]);
    assert!(ticket.is_complete());
    assert!(ticket.into_acks().is_empty());
}

#[test]
fn the_ack_waits_for_every_promise() {
    let (mut gate, permit) = permit();
    let (mut task, first) = AckTask::start(BatchTicket::new(offsets(3)), permit);
    assert!(matches!(first, AckAction::Await));
    assert_eq!(task.batch_len(), 3);
    assert!(matches!(
        task.step(AckEvent::Resolved { index: 1, outcome: Some(ReadAck::Ack) }),
        AckAction::Await
    ));
    assert!(matches!(
        task.step(AckEvent::Resolved { index: 1, outcome: Some(ReadAck::Ack) }),
        AckAction::Await
    ));
    assert!(matches!(
        task.step(AckEvent::Resolved { index: 2, outcome: Some(ReadAck::Nak) }),
        AckAction::Await
    ));
    let action = task.step(AckEvent::Resolved { index: 0, outcome: Some(ReadAck::Ack) });
    match action {
        AckAction::Ack(acked) => assert_eq!(acked, vec![at(1), at(0)]),
        other => panic!("expected an ack, got {:?}", other),
    }
    assert!(!task.is_finished());
    match task.step(AckEvent::Attempted { failed: false, cancelled: false }) {
        AckAction::Release(permit) => gate.release(permit),
        other => panic!("expected the release, got {:?}", other),
    }
    assert!(task.is_finished());
    assert!(gate.drained());
    assert!(matches!(task.step(AckEvent::Waited), AckAction::Ignore));
}

#[test]
fn a_failed_ack_is_tried_again_after_the_interval() {
    let (_gate, permit) = permit();
    let (mut task, _) = AckTask::start(BatchTicket::new(offsets(1)), permit);
    assert!(matches!(
        task.step(AckEvent::Resolved { index: 0, outcome: Some(ReadAck::Ack) }),
        AckAction::Ack(_)
    ));
    for _ in 0..3 {
        assert!(matches!(
            task.step(AckEvent::Attempted { failed: true, cancelled: false }),
            AckAction::Sleep(100)
        ));
        // an attempt is not made again before its time
        assert!(matches!(
            task.step(AckEvent::Attempted { failed: true, cancelled: false }),
            AckAction::Ignore
        ));
        match task.step(AckEvent::Waited) {
            AckAction::Ack(acked) => assert_eq!(acked, vec![at(0)]),
            other => panic!("expected an ack, got {:?}", other),
        }
    }
    assert!(matches!(
        task.step(AckEvent::Attempted { failed: true, cancelled: true }),
        AckAction::Release(_)
    ));
    assert!(task.is_finished());
}

#[test]
fn a_batch_without_acks_ends_without_an_attempt() {
    let (_gate, permit) = permit();
    let (mut task, _) = AckTask::start(BatchTicket::new(offsets(2)), permit);
    assert!(matches!(
        task.step(AckEvent::Resolved { index: 0, outcome: Some(ReadAck::Nak) }),
        AckAction::Await
    ));
    assert!(matches!(
        task.step(AckEvent::Resolved { index: 1, outcome: None }),
        AckAction::Release(_)
    ));
    assert!(task.is_finished());
}

#[test]
fn a_batch_without_messages_ends_at_once() {
    let (_gate, permit) = permit();
    let (task, first) = AckTask::start(BatchTicket::new(vec![]), permit);
    assert!(matches!(first, AckAction::Release(_)));
    assert!(task.is_finished());
}

#[test]
fn offsets_are_copied() {
    let all = vec![at(1), Offset::String(numaflow_core::message::StringOffset::new("x".to_string(), 2))];
    assert_eq!(clone_offsets(&all), all);
}
