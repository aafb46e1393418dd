use client_sync::PredictionQueue;

fn in_flight(q: &PredictionQueue<u16>) -> Vec<u16> {
    q.iter().copied().collect::<Vec<_>>()
}

fn recorded_from(start: u16, n: u16) -> PredictionQueue<u16> {
    let mut q = PredictionQueue::<u16>::new(start);
    for i in 0..n {
        q.record(start.wrapping_add(i));
    }
    q
}

#[test]
fn prediction_smoke() {
    let mut q = PredictionQueue::<u16>::new(0);
    for i in 0..5 {
        q.record(i);
    }
    q.reconcile(0);
    assert_eq!(q.iter().copied().collect::<Vec<_>>(), &[1, 2, 3, 4]);
    q.reconcile(0);
    assert_eq!(q.iter().copied().collect::<Vec<_>>(), &[1, 2, 3, 4]);
    q.reconcile(2);
    assert_eq!(q.iter().copied().collect::<Vec<_>>(), &[3, 4]);
    q.reconcile(3);
    assert_eq!(q.iter().copied().collect::<Vec<_>>(), &[4]);
    q.reconcile(4);
    assert_eq!(q.iter().copied().collect::<Vec<_>>(), &[]);
    q.reconcile(4);
    assert_eq!(q.iter().copied().collect::<Vec<_>>(), &[]);
    q.record(5);
    assert_eq!(q.iter().copied().collect::<Vec<_>>(), &[5]);
}

#[test]
fn wrap() {
    const START: u16 = u16::MAX - 1;
    let mut q = PredictionQueue::<u16>::new(START);
    for i in 0..5 {
        q.record(START.wrapping_add(i));
    }
    q.reconcile(START);
    assert_eq!(q.iter().copied().collect::<Vec<_>>(), &[u16::MAX, 0, 1, 2]);
    q.reconcile(START.wrapping_add(2));
    assert_eq!(q.iter().copied().collect::<Vec<_>>(), &[1, 2]);
}

#[test]
fn reordered() {
    let mut q = PredictionQueue::<u16>::new(0);
    for i in 0..5 {
        q.record(i);
    }
    q.reconcile(2);
    assert_eq!(q.iter().copied().collect::<Vec<_>>(), &[3, 4]);
    q.reconcile(0);
    assert_eq!(q.iter().copied().collect::<Vec<_>>(), &[3, 4]);
}

#[test]
fn skipped() {
    let mut q = PredictionQueue::<u16>::new(0);
    for i in 0..5 {
        q.record(i);
    }
    q.reconcile(10);
    assert_eq!(
        q.iter().copied().collect::<Vec<_>>(),
        &[],
        "sequence numbers we haven't reached yet obsolete all inputs"
    );
    q.record(11);
    q.record(12);
    q.reconcile(11);
    assert_eq!(
        q.iter().copied().collect::<Vec<_>>(),
        &[12],
        "inputs are queued with future sequence numbers"
    );
}

#[test]
fn next_sequence_number_advances_and_wraps() {
    let mut q = PredictionQueue::<u16>::new(u16::MAX);
    assert_eq!(q.next_sequence_number(), u16::MAX);
    q.record(7);
    assert_eq!(q.next_sequence_number(), 0);
    q.record(8);
    assert_eq!(q.next_sequence_number(), 1);
}

#[test]
fn reconcile_twice_is_idempotent() {
    let mut q = recorded_from(100, 6);
    q.reconcile(102);
    let once = in_flight(&q);
    let next = q.next_sequence_number();
    q.reconcile(102);
    assert_eq!(in_flight(&q), once);
    assert_eq!(q.next_sequence_number(), next);
    assert_eq!(once, vec![103, 104, 105]);
}

#[test]
fn future_reconcile_twice_is_idempotent() {
    let mut q = recorded_from(100, 3);
    q.reconcile(500);
    assert_eq!(q.next_sequence_number(), 501);
    q.reconcile(500);
    assert_eq!(in_flight(&q), Vec::<u16>::new());
    assert_eq!(q.next_sequence_number(), 501);
}

#[test]
fn older_acknowledgement_restores_nothing() {
    let mut q = recorded_from(65530, 10);
    q.reconcile(2);
    assert_eq!(in_flight(&q), vec![3]);
    q.reconcile(65532);
    assert_eq!(in_flight(&q), vec![3]);
    assert_eq!(q.next_sequence_number(), 4);
}

#[test]
fn wrapping_matches_plain_case() {
    let mut plain = recorded_from(10, 8);
    let mut shifted = recorded_from(65533, 8);
    plain.reconcile(13);
    shifted.reconcile(0);
    let shifted_back: Vec<u16> = in_flight(&shifted)
        .iter()
        .map(|s| s.wrapping_add(13))
        .collect();
    assert_eq!(in_flight(&plain), vec![14, 15, 16, 17]);
    assert_eq!(shifted_back, in_flight(&plain));
    assert_eq!(shifted.next_sequence_number(), 5);
}

#[test]
fn future_reconcile_resynchronizes() {
    let mut q = recorded_from(0, 4);
    q.reconcile(9000);
    assert_eq!(in_flight(&q), Vec::<u16>::new());
    assert_eq!(q.next_sequence_number(), 9001);
    q.record(42);
    assert_eq!(in_flight(&q), vec![42]);
    assert_eq!(q.next_sequence_number(), 9002);
}

#[test]
fn half_ring_distance_counts_as_ahead() {
    let mut q = recorded_from(0x8000, 3);
    // next is 0x8003; an acknowledgement of 3 lies exactly half the ring before it
    q.reconcile(3);
    assert_eq!(in_flight(&q), Vec::<u16>::new());
    assert_eq!(q.next_sequence_number(), 4);
}

#[test]
fn just_under_half_ring_is_past() {
    let mut q = recorded_from(0x8000, 3);
    q.reconcile(4);
    assert_eq!(in_flight(&q), vec![0x8000, 0x8001, 0x8002]);
    assert_eq!(q.next_sequence_number(), 0x8003);
}

#[test]
fn acknowledging_next_number_clears_everything() {
    let mut q = recorded_from(20, 3);
    q.reconcile(23);
    assert_eq!(in_flight(&q), Vec::<u16>::new());
    assert_eq!(q.next_sequence_number(), 24);
    q.record(99);
    assert_eq!(in_flight(&q), vec![99]);
    assert_eq!(q.next_sequence_number(), 25);
}

#[test]
fn acknowledging_next_number_after_one_record() {
    let mut q = recorded_from(0, 1);
    q.reconcile(1);
    assert_eq!(in_flight(&q), Vec::<u16>::new());
    assert_eq!(q.next_sequence_number(), 2);
}

#[test]
fn older_acknowledgement_after_next_number_changes_nothing() {
    let mut q = recorded_from(0, 5);
    q.reconcile(5);
    assert_eq!(in_flight(&q), Vec::<u16>::new());
    q.reconcile(3);
    assert_eq!(in_flight(&q), Vec::<u16>::new());
    assert_eq!(q.next_sequence_number(), 6);
}

#[test]
fn empty_ledger_iterates_nothing() {
    let q = PredictionQueue::<u16>::new(3);
    assert_eq!(q.iter().count(), 0);
    let mut again = q.clone();
    again.reconcile(2);
    assert_eq!(again.next_sequence_number(), 3);
}

#[test]
fn borrowed_ledger_iterates_oldest_first_and_restarts() {
    let q = recorded_from(40, 3);
    let mut seen = Vec::new();
    for x in &q {
        seen.push(*x);
    }
    assert_eq!(seen, vec![40, 41, 42]);
    assert_eq!(in_flight(&q), vec![40, 41, 42]);
}
