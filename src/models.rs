//! The board's records, reduced to the values that the relay reads.

use vstd::prelude::*;

verus! {

/// A card on the board.
pub struct Card {
    pub id: String,
    pub name: String,
    pub id_board: String,
    pub id_list: String,
    pub id_members: Vec<String>,
}

/// A board member. Two members are the same member when their ids agree,
/// whatever their names say.
pub struct Member {
    pub id: String,
    pub full_name: String,
    pub initials: String,
    pub username: String,
}

impl PartialEq for Member {
    fn eq(&self, other: &Member) -> (r: bool)
        ensures
            r == (self.id@ == other.id@),
    {
        self.id == other.id
    }
}

impl vstd::std_specs::cmp::PartialEqSpecImpl for Member {
    open spec fn obeys_eq_spec() -> bool {
        true
    }

    open spec fn eq_spec(&self, other: &Member) -> bool {
        self.id@ == other.id@
    }
}

/// What an action's payload says about a card: the card it names and, for a
/// move between lists, the names of the two lists.
pub struct ActionData {
    pub card_id: Option<String>,
    pub list_before: Option<String>,
    pub list_after: Option<String>,
}

/// One record of the board's action feed.
pub struct Action {
    pub id: String,
    pub data: ActionData,
    pub date: String,
    pub action_type: String,
    pub creator_id: String,
    pub creator: Member,
}

/// A card that went from one list to another.
pub struct MoveEvent {
    pub card_id: String,
    pub list_before: String,
    pub list_after: String,
}

/// A message for one chat channel.
pub struct Notification {
    pub channel_id: String,
    pub text: String,
}

} // verus!
