use articlebot::cards::CardHandler;
use articlebot::delivery::DeliveryBuffer;
use articlebot::models::Member;
use articlebot::registry::TrackerRegistry;
use articlebot::relay::{notification_text_for, relay_batch, relay_move, EnrichedMove};

fn s(x: &str) -> String {
    x.to_string()
}

fn member(id: &str, name: &str) -> Member {
    Member { id: s(id), full_name: s(name), initials: s(""), username: s(id) }
}

fn moved(title: &str, before: &str, after: &str, members: Vec<Member>) -> EnrichedMove {
    EnrichedMove { card_title: s(title), list_before: s(before), list_after: s(after), members }
}

#[test]
fn card_move_reaches_tracker() {
    let mut reg = TrackerRegistry::new();
    reg.retarget(&s("U1"), &s("C1"), &s("Alice Smith"));
    let members = CardHandler::merge_card_members(vec![], Some(member("m1", "Alice Smith")));
    let notes = relay_move(&reg, &moved("Card1", "Todo", "Doing", members));
    let mut buffer = DeliveryBuffer::new();
    buffer.push_all(notes);
    assert_eq!(buffer.pending(), 1);
    let out = buffer.drain();
    assert_eq!(out.len(), 1);
    assert_eq!(out[0].channel_id, "C1");
    assert_eq!(out[0].text, "Your card \"Card1\" has been moved from \"Todo\" to \"Doing\".");
}

#[test]
fn notification_text_is_exact() {
    assert_eq!(
        notification_text_for("A", "B", "C"),
        "Your card \"A\" has been moved from \"B\" to \"C\"."
    );
}

#[test]
fn untracked_member_gives_nothing() {
    let mut reg = TrackerRegistry::new();
    reg.retarget(&s("U1"), &s("C1"), &s("Alice Smith"));
    let notes = relay_move(&reg, &moved("Card1", "Todo", "Doing", vec![member("m2", "Bob Jones")]));
    assert!(notes.is_empty());
}

#[test]
fn every_tracker_of_every_member_is_told() {
    let mut reg = TrackerRegistry::new();
    reg.retarget(&s("U1"), &s("C1"), &s("Alice Smith"));
    reg.retarget(&s("U2"), &s("C2"), &s("Alice Smith"));
    reg.retarget(&s("U3"), &s("C3"), &s("Bob Jones"));
    let members = vec![member("m2", "Bob Jones"), member("m1", "Alice Smith")];
    let notes = relay_move(&reg, &moved("K", "A", "B", members));
    let channels: Vec<&str> = notes.iter().map(|n| n.channel_id.as_str()).collect();
    assert_eq!(channels, vec!["C3", "C1", "C2"]);
}

#[test]
fn batch_keeps_move_order() {
    let mut reg = TrackerRegistry::new();
    reg.retarget(&s("U1"), &s("C1"), &s("Alice Smith"));
    let batch = vec![
        moved("First", "Todo", "Doing", vec![member("m1", "Alice Smith")]),
        moved("Second", "Doing", "Done", vec![member("m1", "Alice Smith")]),
    ];
    let notes = relay_batch(&reg, &batch);
    assert_eq!(notes.len(), 2);
    assert!(notes[0].text.contains("\"First\""));
    assert!(notes[1].text.contains("\"Second\""));
}

#[test]
fn creator_already_assigned_is_not_repeated() {
    let assigned = vec![member("m1", "Alice Smith"), member("m2", "Bob Jones")];
    let merged = CardHandler::merge_card_members(assigned, Some(member("m1", "Alice S.")));
    let ids: Vec<&str> = merged.iter().map(|m| m.id.as_str()).collect();
    assert_eq!(ids, vec!["m1", "m2"]);
    assert_eq!(merged[0].full_name, "Alice Smith");
}

#[test]
fn creator_with_shared_name_is_kept() {
    let assigned = vec![member("m1", "Alice Smith")];
    let merged = CardHandler::merge_card_members(assigned, Some(member("m9", "Alice Smith")));
    let ids: Vec<&str> = merged.iter().map(|m| m.id.as_str()).collect();
    assert_eq!(ids, vec!["m1", "m9"]);
}

#[test]
fn repeated_assigned_member_is_kept_once() {
    let assigned = vec![member("m1", "A"), member("m2", "B"), member("m1", "A")];
    let merged = CardHandler::merge_card_members(assigned, None);
    let ids: Vec<&str> = merged.iter().map(|m| m.id.as_str()).collect();
    assert_eq!(ids, vec!["m1", "m2"]);
}

#[test]
fn member_equality_goes_by_id() {
    assert!(member("m1", "A") == member("m1", "B"));
    assert!(member("m1", "A") != member("m2", "A"));
}

#[test]
fn card_urls_are_exact() {
    let h = CardHandler::new("KEY", "TOK");
    assert_eq!(h.card_url("c1"), "https://api.trello.com/1/cards/c1?fields=all&key=KEY&token=TOK");
    assert_eq!(h.member_url("m1"), "https://api.trello.com/1/members/m1?fields=all&key=KEY&token=TOK");
    assert_eq!(
        h.creator_url("c1"),
        "https://api.trello.com/1/cards/c1?fields=id&actions=createCard,copyCard&action_fields=idMemberCreator,memberCreator&action_memberCreator_fields=all&key=KEY&token=TOK"
    );
}

#[test]
fn relay_into_buffer_appends_in_order_and_counts() {
    let mut reg = TrackerRegistry::new();
    reg.retarget(&s("U1"), &s("C1"), &s("Alice Smith"));
    reg.retarget(&s("U2"), &s("C2"), &s("Alice Smith"));
    let mut buffer = DeliveryBuffer::new();
    buffer.push(articlebot::models::Notification { channel_id: s("C0"), text: s("earlier") });
    let batch = vec![
        moved("First", "Todo", "Doing", vec![member("m1", "Alice Smith")]),
        moved("Second", "Doing", "Done", vec![member("m1", "Alice Smith")]),
    ];
    assert!(articlebot::relay::relay_batch_into(&reg, &batch, &mut buffer));
    assert_eq!(buffer.pending(), 5);
    let out = buffer.drain();
    let texts: Vec<&str> = out.iter().map(|n| n.text.as_str()).collect();
    assert_eq!(texts[0], "earlier");
    assert!(texts[1].contains("\"First\"") && texts[2].contains("\"First\""));
    assert!(texts[3].contains("\"Second\"") && texts[4].contains("\"Second\""));
    assert_eq!(out[1].channel_id, "C1");
    assert_eq!(out[2].channel_id, "C2");
}

#[test]
fn every_subscriber_has_a_record() {
    let mut reg = TrackerRegistry::new();
    reg.retarget(&s("U1"), &s("C1"), &s("Alice Smith"));
    reg.retarget(&s("U1"), &s("C1"), &s("Bob Jones"));
    assert!(articlebot::relay::unresolved_subscribers(&reg, &s("Bob Jones")).is_empty());
    assert!(articlebot::relay::unresolved_subscribers(&reg, &s("Alice Smith")).is_empty());
}
