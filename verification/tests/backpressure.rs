use numaflow_core::backpressure::{max_ack_tasks, ReadAheadGate, MAX_ACK_PENDING};

#[test]
fn batches_in_flight_with_and_without_read_ahead() {
    assert_eq!(MAX_ACK_PENDING, 10000);
    assert_eq!(max_ack_tasks(false, 5), 1);
    assert_eq!(max_ack_tasks(false, 0), 1);
    assert_eq!(max_ack_tasks(true, 5), 2000);
    assert_eq!(max_ack_tasks(true, 3), 3333);
    assert_eq!(max_ack_tasks(true, 10000), 1);
    assert_eq!(max_ack_tasks(true, 10001), 0);
    assert_eq!(max_ack_tasks(true, 1), 10000);
}

#[test]
fn without_read_ahead_one_batch_is_in_flight_at_most() {
    let mut gate = ReadAheadGate::new(false, 5);
    assert_eq!(gate.permits(), 1);
    assert!(gate.drained());
    let permit = gate.try_acquire().expect("a permit is free");
    assert_eq!(gate.permits_taken(), 1);
    assert_eq!(gate.available(), 0);
    assert!(!gate.drained());
    assert!(gate.try_acquire().is_none());
    gate.load(&permit, 5);
    assert_eq!(gate.count_messages(), 5);
    assert_eq!(gate.load_of(&permit), Some(5));
    gate.release(permit);
    assert!(gate.drained());
    assert_eq!(gate.count_messages(), 0);
    assert!(gate.try_acquire().is_some());
}

#[test]
fn with_read_ahead_permits_come_and_go_in_any_order() {
    let mut gate = ReadAheadGate::with_capacity(3);
    let a = gate.try_acquire().unwrap();
    let b = gate.try_acquire().unwrap();
    let c = gate.try_acquire().unwrap();
    assert!(gate.try_acquire().is_none());
    gate.load(&a, 2);
    gate.load(&b, 3);
    gate.load(&c, 4);
    assert_eq!(gate.count_messages(), 9);
    gate.release(b);
    assert_eq!(gate.permits_taken(), 2);
    assert_eq!(gate.count_messages(), 6);
    let d = gate.try_acquire().unwrap();
    assert_eq!(gate.load_of(&d), Some(0));
    assert_eq!(gate.count_messages(), 6);
    gate.release(a);
    gate.release(c);
    gate.release(d);
    assert!(gate.drained());
    assert_eq!(gate.available(), 3);
}

#[test]
fn a_gate_without_permits_lets_nothing_through() {
    let mut gate = ReadAheadGate::new(true, 10001);
    assert_eq!(gate.permits(), 0);
    assert!(gate.try_acquire().is_none());
    assert!(gate.drained());
}
