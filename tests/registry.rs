use articlebot::registry::TrackerRegistry;

fn s(x: &str) -> String {
    x.to_string()
}

fn subscribers(r: &TrackerRegistry, name: &str) -> Vec<String> {
    r.get_subscribers(&s(name))
}

#[test]
fn first_track_creates_records() {
    let mut r = TrackerRegistry::new();
    r.retarget(&s("U1"), &s("C1"), &s("Alice Smith"));
    assert_eq!(r.get_target(&s("U1")), Some(s("Alice Smith")));
    assert_eq!(r.resolve_channel(&s("U1")), Some(s("C1")));
    assert_eq!(subscribers(&r, "Alice Smith"), vec![s("U1")]);
}

#[test]
fn retrack_moves_tracker() {
    let mut r = TrackerRegistry::new();
    r.retarget(&s("U1"), &s("C1"), &s("Alice Smith"));
    r.retarget(&s("U1"), &s("C1"), &s("Bob Jones"));
    assert!(subscribers(&r, "Alice Smith").is_empty());
    assert_eq!(subscribers(&r, "Bob Jones"), vec![s("U1")]);
    assert_eq!(r.get_target(&s("U1")), Some(s("Bob Jones")));
}

#[test]
fn retrack_keeps_other_trackers_of_old_target() {
    let mut r = TrackerRegistry::new();
    r.retarget(&s("U1"), &s("C1"), &s("X"));
    r.retarget(&s("U2"), &s("C2"), &s("X"));
    r.retarget(&s("U1"), &s("C1"), &s("Y"));
    assert_eq!(subscribers(&r, "X"), vec![s("U2")]);
    assert_eq!(subscribers(&r, "Y"), vec![s("U1")]);
}

#[test]
fn retarget_twice_is_idempotent() {
    let mut r = TrackerRegistry::new();
    r.retarget(&s("U2"), &s("C2"), &s("X"));
    r.retarget(&s("U1"), &s("C1"), &s("X"));
    r.retarget(&s("U1"), &s("C1"), &s("X"));
    let subs = subscribers(&r, "X");
    assert_eq!(subs.iter().filter(|u| u.as_str() == "U1").count(), 1);
    assert_eq!(subs.len(), 2);
    assert_eq!(r.get_target(&s("U1")), Some(s("X")));
    assert_eq!(r.resolve_channel(&s("U1")), Some(s("C1")));
}

#[test]
fn retarget_updates_channel() {
    let mut r = TrackerRegistry::new();
    r.retarget(&s("U1"), &s("C1"), &s("X"));
    r.retarget(&s("U1"), &s("C9"), &s("X"));
    assert_eq!(r.resolve_channel(&s("U1")), Some(s("C9")));
    assert_eq!(subscribers(&r, "X"), vec![s("U1")]);
}

#[test]
fn lookups_on_empty_registry() {
    let r = TrackerRegistry::new();
    assert_eq!(r.get_target(&s("U1")), None);
    assert_eq!(r.resolve_channel(&s("U1")), None);
    assert!(subscribers(&r, "Nobody").is_empty());
}

#[test]
fn empty_target_name_is_a_name() {
    let mut r = TrackerRegistry::new();
    r.retarget(&s("U1"), &s("C1"), &s(""));
    assert_eq!(r.get_target(&s("U1")), Some(s("")));
    assert_eq!(subscribers(&r, ""), vec![s("U1")]);
}
