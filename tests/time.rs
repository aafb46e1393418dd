use client_sync::{Duration, Instant};

#[test]
fn duration_conversions() {
    assert_eq!(Duration::from_millis(3).as_nanos(), 3_000_000);
    assert_eq!(Duration::from_nanos(17).as_nanos(), 17);
    assert_eq!(Instant::from_nanos(9).as_nanos(), 9);
}

#[test]
fn duration_arithmetic() {
    let a = Duration::from_nanos(10);
    let b = Duration::from_nanos(4);
    assert_eq!(a.checked_add(b), Some(Duration::from_nanos(14)));
    assert_eq!(a.checked_sub(b), Some(Duration::from_nanos(6)));
    assert_eq!(b.checked_sub(a), None);
    assert_eq!(Duration::from_nanos(u64::MAX).checked_add(b), None);
}

#[test]
fn instant_arithmetic() {
    let t = Instant::from_nanos(100);
    assert_eq!(Instant::from_nanos(130).saturating_duration_since(t), Duration::from_nanos(30));
    assert_eq!(t.saturating_duration_since(Instant::from_nanos(130)), Duration::from_nanos(0));
}
