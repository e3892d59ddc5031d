//! The hand-off of notifications from the relay to the chat sender, with a
//! count of what was handed over since the last flush.

use vstd::prelude::*;
use crate::models::Notification;
use crate::text::{decimal, decimal_text};

verus! {

/// A notification as a (channel, text) pair.
pub open spec fn note_view(n: Notification) -> (Seq<char>, Seq<char>) {
    (n.channel_id@, n.text@)
}

pub open spec fn notes_view(s: Seq<Notification>) -> Seq<(Seq<char>, Seq<char>)> {
    s.map_values(|n: Notification| note_view(n))
}

/// The queue in the order of arrival, and the pending count.
pub struct BufferView {
    pub queue: Seq<(Seq<char>, Seq<char>)>,
    pub pending: nat,
}

/// What may happen to the buffer.
pub enum BufferEvent {
    Push((Seq<char>, Seq<char>)),
    Drain,
    Flush,
}

/// The buffer after one event.
pub open spec fn buffer_step(v: BufferView, e: BufferEvent) -> BufferView {
    match e {
        BufferEvent::Push(n) => BufferView { queue: v.queue.push(n), pending: v.pending + 1 },
        BufferEvent::Drain => BufferView { queue: Seq::empty(), pending: v.pending },
        BufferEvent::Flush => BufferView { queue: v.queue, pending: 0 },
    }
}

/// The buffer after a run of events, in order.
pub open spec fn buffer_run(v: BufferView, es: Seq<BufferEvent>) -> BufferView
    decreases es.len(),
{
    if es.len() == 0 {
        v
    } else {
        buffer_step(buffer_run(v, es.drop_last()), es.last())
    }
}

/// How many of `es` are pushes.
pub open spec fn push_count(es: Seq<BufferEvent>) -> nat
    decreases es.len(),
{
    if es.len() == 0 {
        0
    } else {
        push_count(es.drop_last()) + if es.last() is Push {
            1nat
        } else {
            0nat
        }
    }
}

proof fn lemma_run_without_flush(v: BufferView, es: Seq<BufferEvent>)
    requires
        forall|i: int| 0 <= i < es.len() ==> !(#[trigger] es[i] is Flush),
    ensures
        buffer_run(v, es).pending == v.pending + push_count(es),
    decreases es.len(),
{
    if es.len() > 0 {
        let init = es.drop_last();
        assert forall|i: int| 0 <= i < init.len() implies !(#[trigger] init[i] is Flush) by {
            assert(init[i] == es[i]);
        }
        lemma_run_without_flush(v, init);
        assert(!(es[es.len() - 1] is Flush));
    }
}

proof fn lemma_run_append(v: BufferView, a: Seq<BufferEvent>, b: Seq<BufferEvent>)
    ensures
        buffer_run(v, a + b) == buffer_run(buffer_run(v, a), b),
    decreases b.len(),
{
    if b.len() == 0 {
        assert(a + b =~= a);
    } else {
        assert((a + b).drop_last() =~= a + b.drop_last());
        assert((a + b).last() == b.last());
        lemma_run_append(v, a, b.drop_last());
    }
}

/// Whatever happened before it, a flush leaves the count at zero, and from
/// then on the count is the number of pushes since that flush.
pub proof fn lemma_pending_counts_pushes(v: BufferView, before: Seq<BufferEvent>, after: Seq<BufferEvent>)
    requires
        forall|i: int| 0 <= i < after.len() ==> !(#[trigger] after[i] is Flush),
    ensures
        buffer_run(v, before.push(BufferEvent::Flush)).pending == 0,
        buffer_run(v, before.push(BufferEvent::Flush) + after).pending == push_count(after),
{
    let flushed = before.push(BufferEvent::Flush);
    assert(flushed.drop_last() =~= before);
    lemma_run_append(v, flushed, after);
    lemma_run_without_flush(buffer_run(v, flushed), after);
}

/// The one-line summary announced when `n` notifications were pending.
pub open spec fn summary_text(n: nat) -> Seq<char> {
    "Flushing "@ + decimal_text(n) + " pending message(s)."@
}

/// Notifications waiting for the chat sender, and how many were pushed
/// since the last flush.
pub struct DeliveryBuffer {
    queue: Vec<Notification>,
    pending: u64,
}

impl View for DeliveryBuffer {
    type V = BufferView;

    closed spec fn view(&self) -> BufferView {
        BufferView { queue: notes_view(self.queue@), pending: self.pending as nat }
    }
}

impl DeliveryBuffer {
    /// An empty buffer with nothing pending.
    pub fn new() -> (r: DeliveryBuffer)
        ensures
            r@.queue == Seq::<(Seq<char>, Seq<char>)>::empty(),
            r@.pending == 0,
    {
        let r = DeliveryBuffer { queue: Vec::new(), pending: 0 };
        assert(r@.queue =~= Seq::<(Seq<char>, Seq<char>)>::empty());
        r
    }

    /// The number pushed since the last flush.
    pub fn pending(&self) -> (r: u64)
        ensures
            r == self@.pending,
    {
        self.pending
    }

    /// Queues `n` and counts it.
    pub fn push(&mut self, n: Notification)
        requires
            old(self)@.pending < u64::MAX,
        ensures
            final(self)@ == buffer_step(old(self)@, BufferEvent::Push(note_view(n))),
    {
        let ghost q = self.queue@;
        self.queue.push(n);
        self.pending = self.pending + 1;
        assert(notes_view(self.queue@) =~= notes_view(q).push(note_view(n)));
    }

    /// Queues each of `notes` in order, counting each.
    pub fn push_all(&mut self, notes: Vec<Notification>)
        requires
            old(self)@.pending + notes@.len() <= u64::MAX,
        ensures
            final(self)@.queue == old(self)@.queue + notes_view(notes@),
            final(self)@.pending == old(self)@.pending + notes@.len(),
    {
        let ghost v0 = self@;
        let ghost all = notes@;
        let total = notes.len();
        let mut rest = notes;
        let mut i: usize = 0;
        while rest.len() > 0
            invariant
                i <= all.len(),
                all.len() == total,
                rest@ == all.subrange(i as int, all.len() as int),
                self@.queue == v0.queue + notes_view(all.take(i as int)),
                self@.pending == v0.pending + i,
                v0.pending + all.len() <= u64::MAX,
            decreases rest@.len(),
        {
            let n = rest.remove(0);
            assert(n == all[i as int]);
            self.push(n);
            assert(notes_view(all.take(i + 1)) =~= notes_view(all.take(i as int)).push(note_view(n)));
            assert(rest@ =~= all.subrange(i + 1, all.len() as int));
            i += 1;
        }
        assert(all.take(all.len() as int) =~= all);
    }

    /// Hands over every queued notification, oldest first; the count stays.
    pub fn drain(&mut self) -> (r: Vec<Notification>)
        ensures
            notes_view(r@) == old(self)@.queue,
            final(self)@ == buffer_step(old(self)@, BufferEvent::Drain),
    {
        let r = self.queue.split_off(0);
        assert(r@ =~= old(self).queue@);
        assert(self@.queue =~= Seq::<(Seq<char>, Seq<char>)>::empty());
        r
    }

    /// Reads the count and sets it to zero in one step.
    pub fn flush(&mut self) -> (r: u64)
        ensures
            r == old(self)@.pending,
            final(self)@ == buffer_step(old(self)@, BufferEvent::Flush),
    {
        let r = self.pending;
        self.pending = 0;
        r
    }

    /// Flushes the count and, where it was not zero, gives the summary to
    /// announce.
    pub fn flush_announcement(&mut self) -> (r: Option<String>)
        ensures
            final(self)@ == buffer_step(old(self)@, BufferEvent::Flush),
            match r {
                Some(t) => old(self)@.pending > 0 && t@ == summary_text(old(self)@.pending),
                None => old(self)@.pending == 0,
            },
    {
        let n = self.flush();
        if n == 0 {
            None
        } else {
            let mut t = String::from_str("Flushing ");
            let digits = decimal(n);
            t.append(digits.as_str());
            t.append(" pending message(s).");
            Some(t)
        }
    }
}

} // verus!
