//! Turning card moves into notifications for the users who track the
//! members of the moved cards.

use vstd::prelude::*;
use crate::models::{Member, Notification};
use crate::registry::{TrackerRegistry, RegistryView, subscribers_of, names};
use crate::delivery::{notes_view, note_view, DeliveryBuffer};

verus! {

/// A card move with what the board says about the card: its title and its
/// members.
pub struct EnrichedMove {
    pub card_title: String,
    pub list_before: String,
    pub list_after: String,
    pub members: Vec<Member>,
}

/// The text that tells a tracker of a move.
pub open spec fn notification_text(title: Seq<char>, before: Seq<char>, after: Seq<char>) -> Seq<char> {
    "Your card \""@ + title + "\" has been moved from \""@ + before + "\" to \""@ + after + "\"."@
}

/// `text` for each of `ids` that has a tracker record, on its channel, in
/// the order of `ids`; an id without a record is passed over.
pub open spec fn tracker_notes(reg: RegistryView, ids: Seq<Seq<char>>, text: Seq<char>) -> Seq<(Seq<char>, Seq<char>)>
    decreases ids.len(),
{
    if ids.len() == 0 {
        Seq::empty()
    } else {
        let earlier = tracker_notes(reg, ids.drop_last(), text);
        if reg.trackers.contains_key(ids.last()) {
            earlier.push((reg.trackers[ids.last()].channel_id, text))
        } else {
            earlier
        }
    }
}

/// The ids among `ids` that have no tracker record, in order: a
/// subscription that names them points at trackers that are gone.
pub open spec fn unresolved(reg: RegistryView, ids: Seq<Seq<char>>) -> Seq<Seq<char>>
    decreases ids.len(),
{
    if ids.len() == 0 {
        Seq::empty()
    } else {
        let earlier = unresolved(reg, ids.drop_last());
        if reg.trackers.contains_key(ids.last()) {
            earlier
        } else {
            earlier.push(ids.last())
        }
    }
}

/// `text` for the trackers of each member's full name, member by member.
pub open spec fn member_notes(reg: RegistryView, members: Seq<Member>, text: Seq<char>) -> Seq<(Seq<char>, Seq<char>)>
    decreases members.len(),
{
    if members.len() == 0 {
        Seq::empty()
    } else {
        member_notes(reg, members.drop_last(), text) + tracker_notes(
            reg,
            subscribers_of(reg, members.last().full_name@),
            text,
        )
    }
}

/// The notifications of one move.
pub open spec fn move_notes(reg: RegistryView, m: EnrichedMove) -> Seq<(Seq<char>, Seq<char>)> {
    member_notes(reg, m.members@, notification_text(m.card_title@, m.list_before@, m.list_after@))
}

/// The notifications of a batch of moves, move by move.
pub open spec fn batch_notes(reg: RegistryView, batch: Seq<EnrichedMove>) -> Seq<(Seq<char>, Seq<char>)>
    decreases batch.len(),
{
    if batch.len() == 0 {
        Seq::empty()
    } else {
        batch_notes(reg, batch.drop_last()) + move_notes(reg, batch.last())
    }
}

proof fn lemma_batch_notes_append(reg: RegistryView, a: Seq<EnrichedMove>, b: Seq<EnrichedMove>)
    ensures
        batch_notes(reg, a + b) == batch_notes(reg, a) + batch_notes(reg, b),
    decreases b.len(),
{
    if b.len() == 0 {
        assert(a + b =~= a);
        assert(batch_notes(reg, a) + batch_notes(reg, b) =~= batch_notes(reg, a));
    } else {
        assert((a + b).drop_last() =~= a + b.drop_last());
        lemma_batch_notes_append(reg, a, b.drop_last());
        assert(batch_notes(reg, a + b) =~= batch_notes(reg, a) + batch_notes(reg, b));
    }
}

/// Within a batch, every notification of an earlier move comes before every
/// notification of a later one.
pub proof fn lemma_batch_notes_in_order(reg: RegistryView, batch: Seq<EnrichedMove>, p: int, q: int)
    requires
        0 <= p < q < batch.len(),
    ensures
        batch_notes(reg, batch) == batch_notes(reg, batch.take(p)) + move_notes(reg, batch[p])
            + batch_notes(reg, batch.subrange(p + 1, q)) + move_notes(reg, batch[q])
            + batch_notes(reg, batch.subrange(q + 1, batch.len() as int)),
{
    let n = batch.len() as int;
    let one_p = seq![batch[p]];
    let one_q = seq![batch[q]];
    assert(batch =~= batch.take(p) + one_p + batch.subrange(p + 1, q) + one_q + batch.subrange(q + 1, n));
    assert(batch_notes(reg, one_p) =~= move_notes(reg, batch[p])) by {
        assert(one_p.drop_last() =~= Seq::<EnrichedMove>::empty());
        assert(one_p.last() == batch[p]);
        assert(batch_notes(reg, one_p.drop_last()) =~= Seq::<(Seq<char>, Seq<char>)>::empty());
    }
    assert(batch_notes(reg, one_q) =~= move_notes(reg, batch[q])) by {
        assert(one_q.drop_last() =~= Seq::<EnrichedMove>::empty());
        assert(one_q.last() == batch[q]);
        assert(batch_notes(reg, one_q.drop_last()) =~= Seq::<(Seq<char>, Seq<char>)>::empty());
    }
    lemma_batch_notes_append(reg, batch.take(p) + one_p + batch.subrange(p + 1, q) + one_q, batch.subrange(q + 1, n));
    lemma_batch_notes_append(reg, batch.take(p) + one_p + batch.subrange(p + 1, q), one_q);
    lemma_batch_notes_append(reg, batch.take(p) + one_p, batch.subrange(p + 1, q));
    lemma_batch_notes_append(reg, batch.take(p), one_p);
}

/// The text that tells a tracker that card `title` went from list `before`
/// to list `after`.
pub fn notification_text_for(title: &str, before: &str, after: &str) -> (r: String)
    ensures
        r@ == notification_text(title@, before@, after@),
{
    let mut r = String::from_str("Your card \"");
    r.append(title);
    r.append("\" has been moved from \"");
    r.append(before);
    r.append("\" to \"");
    r.append(after);
    r.append("\".");
    r
}

/// Adds `text` for each of `ids` that has a tracker record, on its channel.
fn notify_trackers(registry: &TrackerRegistry, ids: &Vec<String>, text: &String, out: &mut Vec<Notification>)
    requires
        registry.wf(),
    ensures
        notes_view(final(out)@) == notes_view(old(out)@) + tracker_notes(registry@, names(ids@), text@),
{
    let ghost start = notes_view(out@);
    let mut i: usize = 0;
    while i < ids.len()
        invariant
            registry.wf(),
            i <= ids@.len(),
            notes_view(out@) == start + tracker_notes(registry@, names(ids@).take(i as int), text@),
        decreases ids@.len() - i,
    {
        let ghost before = out@;
        assert(names(ids@).take(i + 1).drop_last() =~= names(ids@).take(i as int));
        assert(names(ids@).take(i + 1).last() == ids@[i as int]@);
        match registry.resolve_channel(&ids[i]) {
            Some(channel) => {
                let n = Notification { channel_id: channel, text: text.clone() };
                out.push(n);
                assert(notes_view(out@) =~= notes_view(before).push(note_view(n)));
            },
            None => {},
        }
        i += 1;
    }
    assert(names(ids@).take(ids@.len() as int) =~= names(ids@));
}

/// The trackers of `target_name` that have no record, which the relay
/// passes over.
pub fn unresolved_subscribers(registry: &TrackerRegistry, target_name: &String) -> (r: Vec<String>)
    requires
        registry.wf(),
    ensures
        names(r@) == unresolved(registry@, subscribers_of(registry@, target_name@)),
{
    let ids = registry.get_subscribers(target_name);
    let mut r: Vec<String> = Vec::new();
    let mut i: usize = 0;
    assert(names(r@) =~= Seq::<Seq<char>>::empty());
    while i < ids.len()
        invariant
            registry.wf(),
            i <= ids@.len(),
            names(r@) == unresolved(registry@, names(ids@).take(i as int)),
        decreases ids@.len() - i,
    {
        let ghost before = r@;
        assert(names(ids@).take(i + 1).drop_last() =~= names(ids@).take(i as int));
        assert(names(ids@).take(i + 1).last() == ids@[i as int]@);
        if registry.resolve_channel(&ids[i]).is_none() {
            let x = ids[i].clone();
            r.push(x);
            assert(names(r@) =~= names(before).push(x@));
        }
        i += 1;
    }
    assert(names(ids@).take(ids@.len() as int) =~= names(ids@));
    r
}

/// The notifications of one move: for each member of the card, in order,
/// the trackers of the member's full name, each on its own channel.
pub fn relay_move(registry: &TrackerRegistry, m: &EnrichedMove) -> (r: Vec<Notification>)
    requires
        registry.wf(),
    ensures
        notes_view(r@) == move_notes(registry@, *m),
{
    let mut out: Vec<Notification> = Vec::new();
    relay_move_into(registry, m, &mut out);
    assert(notes_view(out@) =~= move_notes(registry@, *m));
    out
}

fn relay_move_into(registry: &TrackerRegistry, m: &EnrichedMove, out: &mut Vec<Notification>)
    requires
        registry.wf(),
    ensures
        notes_view(final(out)@) == notes_view(old(out)@) + move_notes(registry@, *m),
{
    let text = notification_text_for(m.card_title.as_str(), m.list_before.as_str(), m.list_after.as_str());
    let ghost start = notes_view(out@);
    let ghost t = text@;
    let mut i: usize = 0;
    while i < m.members.len()
        invariant
            registry.wf(),
            i <= m.members@.len(),
            t == notification_text(m.card_title@, m.list_before@, m.list_after@),
            text@ == t,
            notes_view(out@) == start + member_notes(registry@, m.members@.take(i as int), t),
        decreases m.members@.len() - i,
    {
        assert(m.members@.take(i + 1).drop_last() =~= m.members@.take(i as int));
        assert(m.members@.take(i + 1).last() == m.members@[i as int]);
        let ids = registry.get_subscribers(&m.members[i].full_name);
        notify_trackers(registry, &ids, &text, out);
        assert(notes_view(out@) =~= start + member_notes(registry@, m.members@.take(i + 1), t));
        i += 1;
    }
    assert(m.members@.take(m.members@.len() as int) =~= m.members@);
}

/// The notifications of a batch of moves, the moves taken in order.
pub fn relay_batch(registry: &TrackerRegistry, batch: &Vec<EnrichedMove>) -> (r: Vec<Notification>)
    requires
        registry.wf(),
    ensures
        notes_view(r@) == batch_notes(registry@, batch@),
{
    let mut out: Vec<Notification> = Vec::new();
    let mut i: usize = 0;
    assert(notes_view(out@) =~= Seq::<(Seq<char>, Seq<char>)>::empty());
    while i < batch.len()
        invariant
            registry.wf(),
            i <= batch@.len(),
            notes_view(out@) == batch_notes(registry@, batch@.take(i as int)),
        decreases batch@.len() - i,
    {
        assert(batch@.take(i + 1).drop_last() =~= batch@.take(i as int));
        assert(batch@.take(i + 1).last() == batch@[i as int]);
        relay_move_into(registry, &batch[i], &mut out);
        i += 1;
    }
    assert(batch@.take(batch@.len() as int) =~= batch@);
    out
}

/// Relays a batch of moves into `buffer`: the batch's notifications join the
/// end of the queue, move by move, and the count grows by their number. Where
/// the count could not hold them, nothing is queued and `false` comes back.
pub fn relay_batch_into(registry: &TrackerRegistry, batch: &Vec<EnrichedMove>, buffer: &mut DeliveryBuffer) -> (r: bool)
    requires
        registry.wf(),
    ensures
        r == (old(buffer)@.pending + batch_notes(registry@, batch@).len() <= u64::MAX),
        r ==> final(buffer)@.queue == old(buffer)@.queue + batch_notes(registry@, batch@),
        r ==> final(buffer)@.pending == old(buffer)@.pending + batch_notes(registry@, batch@).len(),
        !r ==> final(buffer)@ == old(buffer)@,
{
    let notes = relay_batch(registry, batch);
    assert(notes_view(notes@).len() == notes@.len());
    if notes.len() as u64 <= u64::MAX - buffer.pending() {
        buffer.push_all(notes);
        true
    } else {
        false
    }
}

} // verus!
