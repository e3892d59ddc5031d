//! Card lookups on the board: where to ask for a card, its members and its
//! creator, and how the members found are put together.

use vstd::prelude::*;
use crate::models::Member;

verus! {

/// The root of the board's web API.
pub const API_URL: &'static str = "https://api.trello.com/1";

/// The credentials as query parameters.
pub open spec fn token_parameters(api_key: Seq<char>, oauth_token: Seq<char>) -> Seq<char> {
    "key="@ + api_key + "&token="@ + oauth_token
}

/// Some member of `s` has id `id`.
pub open spec fn has_member_id(s: Seq<Member>, id: Seq<char>) -> bool {
    exists|i: int| 0 <= i < s.len() && (#[trigger] s[i]).id@ == id
}

/// `s` with each member kept at its first appearance only, members being the
/// same when their ids are.
pub open spec fn distinct_members(s: Seq<Member>) -> Seq<Member>
    decreases s.len(),
{
    if s.len() == 0 {
        s
    } else {
        let kept = distinct_members(s.drop_last());
        if has_member_id(kept, s.last().id@) {
            kept
        } else {
            kept.push(s.last())
        }
    }
}

/// The members of a card: those assigned to it, then its creator unless an
/// assigned member has the creator's id.
pub open spec fn card_members_of(assigned: Seq<Member>, creator: Option<Member>) -> Seq<Member> {
    match creator {
        Some(c) => distinct_members(assigned.push(c)),
        None => distinct_members(assigned),
    }
}

/// No two members of `distinct_members(s)` share an id; each id in `s` is
/// there, and each member there comes from `s`.
pub proof fn lemma_distinct_members(s: Seq<Member>)
    ensures
        forall|i: int, j: int|
            0 <= i < distinct_members(s).len() && 0 <= j < distinct_members(s).len() && i != j
                ==> (#[trigger] distinct_members(s)[i]).id@ != (#[trigger] distinct_members(s)[j]).id@,
        forall|i: int| 0 <= i < s.len() ==> has_member_id(distinct_members(s), (#[trigger] s[i]).id@),
        forall|i: int| 0 <= i < distinct_members(s).len() ==> s.contains(#[trigger] distinct_members(s)[i]),
    decreases s.len(),
{
    if s.len() > 0 {
        let init = s.drop_last();
        lemma_distinct_members(init);
        let kept = distinct_members(init);
        let d = distinct_members(s);
        assert forall|i: int| 0 <= i < s.len() implies has_member_id(d, (#[trigger] s[i]).id@) by {
            if i < s.len() - 1 {
                assert(init[i] == s[i]);
                let k = choose|k: int| 0 <= k < kept.len() && (#[trigger] kept[k]).id@ == s[i].id@;
                assert(d[k] == kept[k]);
            } else if !has_member_id(kept, s.last().id@) {
                assert(d[kept.len() as int] == s.last());
            }
        }
        assert forall|i: int| 0 <= i < d.len() implies s.contains(#[trigger] d[i]) by {
            if i < kept.len() {
                assert(d[i] == kept[i]);
                let k = choose|k: int| 0 <= k < init.len() && init[k] == kept[i];
                assert(s[k] == init[k]);
            } else {
                assert(s[s.len() - 1] == d[i]);
            }
        }
        if !has_member_id(kept, s.last().id@) {
            assert forall|i: int, j: int| 0 <= i < d.len() && 0 <= j < d.len() && i != j
                implies (#[trigger] d[i]).id@ != (#[trigger] d[j]).id@ by {
                if i < kept.len() && j < kept.len() {
                    assert(d[i] == kept[i] && d[j] == kept[j]);
                } else if i < kept.len() {
                    assert(d[i] == kept[i]);
                } else {
                    assert(d[j] == kept[j]);
                }
            }
        }
    }
}

/// The members of a card never hold two entries with one id.
pub proof fn lemma_card_members_distinct(assigned: Seq<Member>, creator: Option<Member>)
    ensures
        forall|i: int, j: int|
            0 <= i < card_members_of(assigned, creator).len() && 0 <= j < card_members_of(assigned, creator).len() && i != j
                ==> (#[trigger] card_members_of(assigned, creator)[i]).id@ != (#[trigger] card_members_of(assigned, creator)[j]).id@,
{
    match creator {
        Some(c) => lemma_distinct_members(assigned.push(c)),
        None => lemma_distinct_members(assigned),
    }
}

/// Whether some member of `v` has the id of `m`.
fn contains_member(v: &Vec<Member>, m: &Member) -> (r: bool)
    ensures
        r == has_member_id(v@, m.id@),
{
    let mut i: usize = 0;
    while i < v.len()
        invariant
            i <= v@.len(),
            forall|j: int| 0 <= j < i ==> (#[trigger] v@[j]).id@ != m.id@,
        decreases v@.len() - i,
    {
        if v[i].id == m.id {
            return true;
        }
        i += 1;
    }
    false
}

/// Adds `m` to `kept` unless a member with its id is there.
fn keep_distinct(kept: &mut Vec<Member>, m: Member, Ghost(seen): Ghost<Seq<Member>>)
    requires
        old(kept)@ == distinct_members(seen),
    ensures
        final(kept)@ == distinct_members(seen.push(m)),
{
    assert(seen.push(m).drop_last() =~= seen);
    if !contains_member(kept, &m) {
        kept.push(m);
    }
}

/// Builds the query parameters that carry the credentials.
pub fn token_parameters_for(api_key: &str, oauth_token: &str) -> (r: String)
    ensures
        r@ == token_parameters(api_key@, oauth_token@),
{
    let mut r = String::from_str("key=");
    r.append(api_key);
    r.append("&token=");
    r.append(oauth_token);
    r
}

/// Looks up cards and their members on the board.
pub struct CardHandler {
    http_token_parameters: String,
}

impl CardHandler {
    /// The credentials' query parameters that each request carries.
    pub closed spec fn token(&self) -> Seq<char> {
        self.http_token_parameters@
    }

    pub fn new(api_key: &str, oauth_token: &str) -> (r: CardHandler)
        ensures
            r.token() == token_parameters(api_key@, oauth_token@),
    {
        CardHandler { http_token_parameters: token_parameters_for(api_key, oauth_token) }
    }

    /// Where to ask for all fields of card `card_id`.
    pub fn card_url(&self, card_id: &str) -> (r: String)
        ensures
            r@ == API_URL@ + "/cards/"@ + card_id@ + "?fields=all&"@ + self.token(),
    {
        let mut r = String::from_str(API_URL);
        r.append("/cards/");
        r.append(card_id);
        r.append("?fields=all&");
        r.append(self.http_token_parameters.as_str());
        r
    }

    /// Where to ask for all fields of member `member_id`.
    pub fn member_url(&self, member_id: &str) -> (r: String)
        ensures
            r@ == API_URL@ + "/members/"@ + member_id@ + "?fields=all&"@ + self.token(),
    {
        let mut r = String::from_str(API_URL);
        r.append("/members/");
        r.append(member_id);
        r.append("?fields=all&");
        r.append(self.http_token_parameters.as_str());
        r
    }

    /// Where to ask for the action that made card `card_id`, with the member
    /// who made it.
    pub fn creator_url(&self, card_id: &str) -> (r: String)
        ensures
            r@ == API_URL@ + "/cards/"@ + card_id@
                + "?fields=id&actions=createCard,copyCard&action_fields=idMemberCreator,memberCreator&action_memberCreator_fields=all&"@
                + self.token(),
    {
        let mut r = String::from_str(API_URL);
        r.append("/cards/");
        r.append(card_id);
        r.append(
            "?fields=id&actions=createCard,copyCard&action_fields=idMemberCreator,memberCreator&action_memberCreator_fields=all&",
        );
        r.append(self.http_token_parameters.as_str());
        r
    }

    /// The members of a card from the members assigned to it, in order, and
    /// the member who made it: each member once, at its first appearance,
    /// the creator last unless an assigned member has its id.
    pub fn merge_card_members(assigned: Vec<Member>, creator: Option<Member>) -> (r: Vec<Member>)
        ensures
            r@ == card_members_of(assigned@, creator),
    {
        let ghost all = assigned@;
        let mut rest = assigned;
        let mut kept: Vec<Member> = Vec::new();
        let mut i: usize = 0;
        let total = rest.len();
        while rest.len() > 0
            invariant
                i <= all.len(),
                all.len() == total,
                rest@ == all.subrange(i as int, all.len() as int),
                kept@ == distinct_members(all.take(i as int)),
            decreases rest@.len(),
        {
            let m = rest.remove(0);
            assert(m == all[i as int]);
            assert(all.take(i + 1) =~= all.take(i as int).push(m));
            keep_distinct(&mut kept, m, Ghost(all.take(i as int)));
            assert(rest@ =~= all.subrange(i + 1, all.len() as int));
            i += 1;
        }
        assert(all.take(all.len() as int) =~= all);
        match creator {
            Some(c) => {
                keep_distinct(&mut kept, c, Ghost(all));
            },
            None => {},
        }
        kept
    }
}

} // verus!
