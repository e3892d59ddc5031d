use articlebot::commands::CommandHandler;
use articlebot::registry::TrackerRegistry;

fn s(x: &str) -> String {
    x.to_string()
}

#[test]
fn hello_in_any_case() {
    let h = CommandHandler::new("1.2.3");
    let mut reg = TrackerRegistry::new();
    assert_eq!(h.handle_message(&mut reg, "HeLLo", &s("U1"), &s("C1")), vec![s("Hello there.")]);
    assert_eq!(h.handle_message(&mut reg, "hi there", &s("U1"), &s("C1")), vec![s("Hello there.")]);
}

#[test]
fn version_is_reported() {
    let h = CommandHandler::new("1.2.3");
    let mut reg = TrackerRegistry::new();
    assert_eq!(h.handle_message(&mut reg, "version", &s("U1"), &s("C1")), vec![s("Running v1.2.3.")]);
}

#[test]
fn track_registers_and_confirms() {
    let h = CommandHandler::new("1.2.3");
    let mut reg = TrackerRegistry::new();
    let r = h.handle_message(&mut reg, "Track Alice Smith", &s("U1"), &s("C1"));
    assert_eq!(r, vec![s("You will now be notified when *Alice Smith*'s articles are moved in Trello.")]);
    assert_eq!(reg.get_target(&s("U1")), Some(s("Alice Smith")));
    assert_eq!(reg.get_subscribers(&s("Alice Smith")), vec![s("U1")]);
    let r = h.handle_message(&mut reg, "tracking", &s("U1"), &s("C1"));
    assert_eq!(r, vec![s("You are currently tracking *Alice Smith* on Trello.")]);
}

#[test]
fn tracking_without_record() {
    let h = CommandHandler::new("1.2.3");
    let mut reg = TrackerRegistry::new();
    let r = h.handle_message(&mut reg, "tracking", &s("U1"), &s("C1"));
    assert_eq!(r, vec![s("You are currently not tracking a Trello user.")]);
}

#[test]
fn unknown_command_is_explained() {
    let h = CommandHandler::new("1.2.3");
    let mut reg = TrackerRegistry::new();
    let r = h.handle_message(&mut reg, "Dance now", &s("U1"), &s("C1"));
    assert_eq!(
        r,
        vec![s("I did not understand your command `dance`."), s("Try typing in `help` to see a list of available commands.")]
    );
    assert_eq!(reg.get_target(&s("U1")), None);
}

#[test]
fn help_and_tutorial_lengths() {
    let h = CommandHandler::new("1.2.3");
    let mut reg = TrackerRegistry::new();
    assert_eq!(h.handle_message(&mut reg, "help", &s("U1"), &s("C1")).len(), 8);
    let t = h.handle_message(&mut reg, "tutorial", &s("U1"), &s("C1"));
    assert_eq!(t.len(), 6);
    assert_eq!(t[5], "Please type in `help` for a list of commands.");
}

#[test]
fn on_command_takes_lowered_command() {
    let h = CommandHandler::new("1.2.3");
    let mut reg = TrackerRegistry::new();
    let r = h.on_command(&mut reg, "track", "Bob Jones", &s("U2"), &s("C2"));
    assert_eq!(r, vec![s("You will now be notified when *Bob Jones*'s articles are moved in Trello.")]);
    assert_eq!(reg.resolve_channel(&s("U2")), Some(s("C2")));
}

#[test]
fn empty_message_is_not_understood() {
    let h = CommandHandler::new("1.2.3");
    let mut reg = TrackerRegistry::new();
    let r = h.handle_message(&mut reg, "", &s("U1"), &s("C1"));
    assert_eq!(r[0], "I did not understand your command ``.");
}
