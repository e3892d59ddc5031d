use articlebot::delivery::DeliveryBuffer;
use articlebot::models::Notification;
use articlebot::text::decimal;

fn note(c: &str, t: &str) -> Notification {
    Notification { channel_id: c.to_string(), text: t.to_string() }
}

#[test]
fn flush_of_three_pending() {
    let mut b = DeliveryBuffer::new();
    b.push(note("C1", "a"));
    b.push(note("C1", "b"));
    b.push(note("C2", "c"));
    assert_eq!(b.pending(), 3);
    let summary = b.flush_announcement();
    assert_eq!(summary, Some("Flushing 3 pending message(s).".to_string()));
    assert_eq!(b.pending(), 0);
}

#[test]
fn flush_with_nothing_pending_says_nothing() {
    let mut b = DeliveryBuffer::new();
    assert_eq!(b.flush_announcement(), None);
    assert_eq!(b.pending(), 0);
}

#[test]
fn pending_counts_pushes_since_last_flush() {
    let mut b = DeliveryBuffer::new();
    b.push(note("C1", "a"));
    b.push(note("C1", "b"));
    assert_eq!(b.flush(), 2);
    b.push(note("C1", "c"));
    let drained = b.drain();
    assert_eq!(drained.len(), 3);
    b.push(note("C1", "d"));
    assert_eq!(b.pending(), 2);
    assert_eq!(b.flush(), 2);
    assert_eq!(b.pending(), 0);
}

#[test]
fn drain_is_first_in_first_out() {
    let mut b = DeliveryBuffer::new();
    b.push_all(vec![note("C1", "one"), note("C2", "two")]);
    b.push(note("C3", "three"));
    let out = b.drain();
    let texts: Vec<&str> = out.iter().map(|n| n.text.as_str()).collect();
    assert_eq!(texts, vec!["one", "two", "three"]);
    assert_eq!(out[1].channel_id, "C2");
    assert!(b.drain().is_empty());
    assert_eq!(b.pending(), 3);
}

#[test]
fn decimal_writes_numbers() {
    assert_eq!(decimal(0), "0");
    assert_eq!(decimal(7), "7");
    assert_eq!(decimal(10), "10");
    assert_eq!(decimal(305), "305");
    assert_eq!(decimal(u64::MAX), "18446744073709551615");
}
