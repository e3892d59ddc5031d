use articlebot::models::{Action, ActionData, Member};
use articlebot::poller::{select_moves, BoardHandler, PollPhase, MAX_RETRY_DELAY, UPDATE_INTERVAL};

fn s(x: &str) -> String {
    x.to_string()
}

fn action(id: &str, card: Option<&str>, before: Option<&str>, after: Option<&str>) -> Action {
    Action {
        id: s(id),
        data: ActionData {
            card_id: card.map(s),
            list_before: before.map(s),
            list_after: after.map(s),
        },
        date: s(""),
        action_type: s("updateCard"),
        creator_id: s("m1"),
        creator: Member { id: s("m1"), full_name: s("Alice Smith"), initials: s("AS"), username: s("alice") },
    }
}

#[test]
fn moves_come_oldest_first_and_others_are_dropped() {
    let actions = vec![
        action("newest", Some("c3"), Some("Doing"), Some("Done")),
        action("rename", Some("c2"), None, None),
        action("oldest", Some("c1"), Some("Todo"), Some("Doing")),
        action("half", Some("c4"), Some("Todo"), None),
    ];
    let moves = select_moves(&actions);
    let cards: Vec<&str> = moves.iter().map(|m| m.card_id.as_str()).collect();
    assert_eq!(cards, vec!["c1", "c3"]);
    assert_eq!(moves[0].list_before, "Todo");
    assert_eq!(moves[0].list_after, "Doing");
}

#[test]
fn move_without_card_is_skipped() {
    let actions = vec![action("a", None, Some("Todo"), Some("Doing"))];
    assert!(select_moves(&actions).is_empty());
}

#[test]
fn actions_url_carries_watermark() {
    let mut h = BoardHandler::with_watermark("B1", "KEY", "TOK", 947638923004);
    assert_eq!(h.id(), "B1");
    let url = h.issue_fetch_at(947638999000);
    assert_eq!(
        url,
        "https://api.trello.com/1/boards/B1/actions?filter=updateCard&since=2000-01-12T01:02:03.004Z&key=KEY&token=TOK"
    );
}

#[test]
fn watermark_advances_to_fetch_time_and_never_back() {
    let mut h = BoardHandler::with_watermark("B1", "KEY", "TOK", 1000);
    h.issue_fetch_at(5000);
    assert!(h.fetch_succeeded(&vec![]).is_empty());
    assert_eq!(h.phase(), PollPhase::Processing);
    assert_eq!(h.batch_processed(), UPDATE_INTERVAL);
    assert_eq!(h.watermark(), 5000);
    assert_eq!(h.phase(), PollPhase::Sleeping);
    h.wake();
    h.issue_fetch_at(3000);
    h.fetch_succeeded(&vec![]);
    h.batch_processed();
    assert_eq!(h.watermark(), 5000);
}

#[test]
fn failed_fetch_backs_off_up_to_a_bound() {
    let mut h = BoardHandler::with_watermark("B1", "KEY", "TOK", 0);
    h.issue_fetch_at(10);
    let delays: Vec<u64> = (0..9).map(|_| h.fetch_failed()).collect();
    assert_eq!(delays, vec![5, 10, 20, 40, 80, 160, 300, 300, 300]);
    assert_eq!(h.phase(), PollPhase::Fetching);
    assert_eq!(h.watermark(), 0);
    h.fetch_succeeded(&vec![]);
    h.batch_processed();
    h.wake();
    h.issue_fetch_at(20);
    assert_eq!(h.fetch_failed(), 5);
    assert!(MAX_RETRY_DELAY == 300);
}

#[test]
fn new_poller_starts_from_the_clock() {
    let h = BoardHandler::new("B1", "KEY", "TOK");
    assert!(h.watermark() > 1_500_000_000_000);
    assert_eq!(h.phase(), PollPhase::Fetching);
}

#[test]
fn negative_start_is_clamped() {
    let h = BoardHandler::with_watermark("B1", "KEY", "TOK", -5);
    assert_eq!(h.watermark(), 0);
}

#[test]
fn actions_url_since_is_exact() {
    let h = BoardHandler::with_watermark("B1", "KEY", "TOK", 0);
    assert_eq!(
        h.actions_url_since("S"),
        "https://api.trello.com/1/boards/B1/actions?filter=updateCard&since=S&key=KEY&token=TOK"
    );
    assert_eq!(
        h.actions_url(),
        "https://api.trello.com/1/boards/B1/actions?filter=updateCard&since=1970-01-01T00:00:00.000Z&key=KEY&token=TOK"
    );
}
