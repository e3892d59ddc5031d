//! Which chat users track which board members.
//!
//! Two collections are kept: one tracker record per chat user (its delivery
//! channel and the member it tracks), and one subscription per tracked
//! member name (the chat users that track it). Re-targeting a tracker moves it
//! from its old subscription to its new one.

use vstd::prelude::*;
use crate::table::{KeyedRow, unique_keys, has_key, table_map, lemma_table_index, lemma_table_push, lemma_table_remove, lemma_table_update};

verus! {

/// A chat user who tracks a board member, and where to tell them.
pub struct Tracker {
    pub tracker_id: String,
    pub channel_id: String,
    pub target_name: String,
}

/// A tracked board member name and the chat users that track it.
pub struct Subscription {
    pub target_name: String,
    pub trackers: Vec<String>,
}

/// What the registry knows of one tracker.
pub struct TrackerView {
    pub channel_id: Seq<char>,
    pub target_name: Seq<char>,
}

/// The registry as two maps: tracker id to its record, target name to the
/// ids that track it, in the order they joined.
pub struct RegistryView {
    pub trackers: Map<Seq<char>, TrackerView>,
    pub subscriptions: Map<Seq<char>, Seq<Seq<char>>>,
}

impl KeyedRow for Tracker {
    type V = TrackerView;

    open spec fn row_key(&self) -> Seq<char> {
        self.tracker_id@
    }

    open spec fn row_value(&self) -> TrackerView {
        TrackerView { channel_id: self.channel_id@, target_name: self.target_name@ }
    }
}

impl KeyedRow for Subscription {
    type V = Seq<Seq<char>>;

    open spec fn row_key(&self) -> Seq<char> {
        self.target_name@
    }

    open spec fn row_value(&self) -> Seq<Seq<char>> {
        names(self.trackers@)
    }
}

/// The text of each string.
pub open spec fn names(v: Seq<String>) -> Seq<Seq<char>> {
    v.map_values(|s: String| s@)
}

/// `ids` with every occurrence of `id` taken out, the rest in order.
pub open spec fn without(ids: Seq<Seq<char>>, id: Seq<char>) -> Seq<Seq<char>>
    decreases ids.len(),
{
    if ids.len() == 0 {
        ids
    } else if ids.last() == id {
        without(ids.drop_last(), id)
    } else {
        without(ids.drop_last(), id).push(ids.last())
    }
}

/// `subs` once `id` has left the subscription of `name`; a subscription left
/// with nobody is gone.
pub open spec fn leave(subs: Map<Seq<char>, Seq<Seq<char>>>, name: Seq<char>, id: Seq<char>) -> Map<
    Seq<char>,
    Seq<Seq<char>>,
> {
    if subs.contains_key(name) {
        let rest = without(subs[name], id);
        if rest.len() == 0 {
            subs.remove(name)
        } else {
            subs.insert(name, rest)
        }
    } else {
        subs
    }
}

/// `subs` once `id` has joined the subscription of `name`, which is made if
/// it is not there; an id already present is not added again.
pub open spec fn join(subs: Map<Seq<char>, Seq<Seq<char>>>, name: Seq<char>, id: Seq<char>) -> Map<
    Seq<char>,
    Seq<Seq<char>>,
> {
    if subs.contains_key(name) {
        if subs[name].contains(id) {
            subs
        } else {
            subs.insert(name, subs[name].push(id))
        }
    } else {
        subs.insert(name, seq![id])
    }
}

/// The registry after tracker `id`, delivered on `channel`, has turned to
/// track `target`.
pub open spec fn retarget_view(v: RegistryView, id: Seq<char>, channel: Seq<char>, target: Seq<char>) -> RegistryView {
    let subs = if v.trackers.contains_key(id) {
        leave(v.subscriptions, v.trackers[id].target_name, id)
    } else {
        v.subscriptions
    };
    RegistryView {
        trackers: v.trackers.insert(id, TrackerView { channel_id: channel, target_name: target }),
        subscriptions: join(subs, target, id),
    }
}

/// The ids that track `name`; none where no subscription exists.
pub open spec fn subscribers_of(v: RegistryView, name: Seq<char>) -> Seq<Seq<char>> {
    if v.subscriptions.contains_key(name) {
        v.subscriptions[name]
    } else {
        Seq::empty()
    }
}

impl RegistryView {
    /// Every subscription has someone in it, and nobody twice.
    pub open spec fn wf(self) -> bool {
        forall|name: Seq<char>| #[trigger]
            self.subscriptions.contains_key(name) ==> self.subscriptions[name].len() > 0
                && self.subscriptions[name].no_duplicates()
    }
}

pub proof fn lemma_without(ids: Seq<Seq<char>>, id: Seq<char>)
    ensures
        forall|x: Seq<char>| #[trigger]
            without(ids, id).contains(x) <==> (ids.contains(x) && x != id),
        ids.no_duplicates() ==> without(ids, id).no_duplicates(),
        without(ids, id).len() <= ids.len(),
    decreases ids.len(),
{
    if ids.len() > 0 {
        let init = ids.drop_last();
        lemma_without(init, id);
        assert forall|x: Seq<char>| #[trigger] ids.contains(x) <==> (init.contains(x) || x == ids.last()) by {
            if ids.contains(x) {
                let i = choose|i: int| 0 <= i < ids.len() && ids[i] == x;
                if i < ids.len() - 1 {
                    assert(init[i] == x);
                }
            }
            if init.contains(x) {
                let i = choose|i: int| 0 <= i < init.len() && init[i] == x;
                assert(ids[i] == x);
            }
            if x == ids.last() {
                assert(ids[ids.len() - 1] == x);
            }
        }
        if ids.last() != id {
            let w = without(init, id);
            assert forall|x: Seq<char>| #[trigger] w.push(ids.last()).contains(x) <==> (w.contains(x) || x == ids.last()) by {
                if w.push(ids.last()).contains(x) {
                    let i = choose|i: int| 0 <= i < w.len() + 1 && w.push(ids.last())[i] == x;
                    if i < w.len() {
                        assert(w[i] == x);
                    }
                }
                if w.contains(x) {
                    let i = choose|i: int| 0 <= i < w.len() && w[i] == x;
                    assert(w.push(ids.last())[i] == x);
                }
                if x == ids.last() {
                    assert(w.push(ids.last())[w.len() as int] == x);
                }
            }
            if ids.no_duplicates() {
                assert(init.no_duplicates()) by {
                    assert forall|i: int, j: int| 0 <= i < init.len() && 0 <= j < init.len() && i != j implies init[i] != init[j] by {
                        assert(init[i] == ids[i] && init[j] == ids[j]);
                    }
                }
                assert(!init.contains(ids.last())) by {
                    if init.contains(ids.last()) {
                        let i = choose|i: int| 0 <= i < init.len() && init[i] == ids.last();
                        assert(ids[i] == ids[ids.len() - 1]);
                    }
                }
                assert(!w.contains(ids.last()));
                assert forall|i: int, j: int| 0 <= i < w.len() + 1 && 0 <= j < w.len() + 1 && i != j implies w.push(ids.last())[i] != w.push(ids.last())[j] by {
                    if i < w.len() && j == w.len() {
                        assert(w.contains(w[i]));
                    }
                    if j < w.len() && i == w.len() {
                        assert(w.contains(w[j]));
                    }
                }
            }
        } else {
            if ids.no_duplicates() {
                assert forall|i: int, j: int| 0 <= i < init.len() && 0 <= j < init.len() && i != j implies init[i] != init[j] by {
                    assert(init[i] == ids[i] && init[j] == ids[j]);
                }
            }
        }
    }
}

proof fn lemma_names_push(v: Seq<String>, x: String)
    ensures
        names(v.push(x)) == names(v).push(x@),
{
    assert(names(v.push(x)) =~= names(v).push(x@));
}

/// `ids` without `id`.
fn without_id(ids: &Vec<String>, id: &String) -> (r: Vec<String>)
    ensures
        names(r@) == without(names(ids@), id@),
{
    let mut r: Vec<String> = Vec::new();
    let mut i: usize = 0;
    while i < ids.len()
        invariant
            i <= ids@.len(),
            names(r@) == without(names(ids@).take(i as int), id@),
        decreases ids@.len() - i,
    {
        let ghost before = r@;
        assert(names(ids@).take(i + 1).drop_last() =~= names(ids@).take(i as int));
        assert(names(ids@).take(i + 1).last() == ids@[i as int]@);
        if ids[i] != *id {
            let x = ids[i].clone();
            r.push(x);
            proof {
                lemma_names_push(before, x);
            }
        }
        i += 1;
    }
    assert(names(ids@).take(ids@.len() as int) =~= names(ids@));
    r
}

/// Whether `id` is among `ids`.
fn contains_id(ids: &Vec<String>, id: &String) -> (r: bool)
    ensures
        r == names(ids@).contains(id@),
{
    let mut i: usize = 0;
    while i < ids.len()
        invariant
            i <= ids@.len(),
            forall|j: int| 0 <= j < i ==> (#[trigger] ids@[j])@ != id@,
        decreases ids@.len() - i,
    {
        if ids[i] == *id {
            assert(names(ids@)[i as int] == id@);
            return true;
        }
        i += 1;
    }
    assert forall|j: int| 0 <= j < ids@.len() implies names(ids@)[j] != id@ by {
        assert(names(ids@)[j] == ids@[j]@);
    }
    false
}

/// A copy of `ids`.
fn copy_ids(ids: &Vec<String>) -> (r: Vec<String>)
    ensures
        names(r@) == names(ids@),
{
    let mut r: Vec<String> = Vec::new();
    let mut i: usize = 0;
    while i < ids.len()
        invariant
            i <= ids@.len(),
            names(r@) == names(ids@).take(i as int),
        decreases ids@.len() - i,
    {
        let ghost before = r@;
        let x = ids[i].clone();
        r.push(x);
        proof {
            lemma_names_push(before, x);
            assert(names(ids@).take(i + 1) =~= names(ids@).take(i as int).push(x@));
        }
        i += 1;
    }
    assert(names(ids@).take(ids@.len() as int) =~= names(ids@));
    r
}

proof fn lemma_push_no_duplicates(s: Seq<Seq<char>>, x: Seq<char>)
    requires
        s.no_duplicates(),
        !s.contains(x),
    ensures
        s.push(x).no_duplicates(),
        forall|y: Seq<char>| #[trigger] s.push(x).contains(y) <==> (s.contains(y) || y == x),
{
    assert forall|a: int, b: int| 0 <= a < s.len() + 1 && 0 <= b < s.len() + 1 && a != b
        implies s.push(x)[a] != s.push(x)[b] by {
        if a < s.len() && b == s.len() {
            assert(s.contains(s[a]));
        }
        if b < s.len() && a == s.len() {
            assert(s.contains(s[b]));
        }
    }
    assert forall|y: Seq<char>| #[trigger] s.push(x).contains(y) <==> (s.contains(y) || y == x) by {
        if s.push(x).contains(y) {
            let i = choose|i: int| 0 <= i < s.len() + 1 && s.push(x)[i] == y;
            if i < s.len() {
                assert(s[i] == y);
            }
        }
        if s.contains(y) {
            let i = choose|i: int| 0 <= i < s.len() && s[i] == y;
            assert(s.push(x)[i] == y);
        }
        if y == x {
            assert(s.push(x)[s.len() as int] == y);
        }
    }
}

/// Re-targeting keeps every subscription non-empty and free of repeats.
pub proof fn lemma_retarget_wf(v: RegistryView, id: Seq<char>, channel: Seq<char>, target: Seq<char>)
    requires
        v.wf(),
    ensures
        retarget_view(v, id, channel, target).wf(),
{
    let subs = if v.trackers.contains_key(id) {
        leave(v.subscriptions, v.trackers[id].target_name, id)
    } else {
        v.subscriptions
    };
    assert forall|n: Seq<char>| #[trigger] subs.contains_key(n) implies subs[n].len() > 0 && subs[n].no_duplicates() by {
        if v.trackers.contains_key(id) && n == v.trackers[id].target_name {
            lemma_without(v.subscriptions[n], id);
        }
    }
    let r = retarget_view(v, id, channel, target);
    assert forall|n: Seq<char>| #[trigger] r.subscriptions.contains_key(n) implies r.subscriptions[n].len() > 0
        && r.subscriptions[n].no_duplicates() by {
        if n == target && subs.contains_key(n) && !subs[n].contains(id) {
            lemma_push_no_duplicates(subs[n], id);
        }
    }
}

/// Once tracker `id` has tracked `x` and then `y`, with `x` and `y` distinct,
/// the trackers of `x` no longer hold `id`, and `x` keeps no subscription
/// if nobody but `id` tracked it; the trackers of `y` hold `id`.
pub proof fn lemma_retarget_moves(v: RegistryView, id: Seq<char>, channel: Seq<char>, x: Seq<char>, y: Seq<char>)
    requires
        v.wf(),
        x != y,
    ensures
        ({
            let v2 = retarget_view(retarget_view(v, id, channel, x), id, channel, y);
            &&& !subscribers_of(v2, x).contains(id)
            &&& (forall|u: Seq<char>| #[trigger] subscribers_of(v, x).contains(u) ==> u == id)
                ==> !v2.subscriptions.contains_key(x) && subscribers_of(v2, x) == Seq::<Seq<char>>::empty()
            &&& subscribers_of(v2, y).contains(id)
        }),
{
    lemma_retarget_wf(v, id, channel, x);
    let v1 = retarget_view(v, id, channel, x);
    let v2 = retarget_view(v1, id, channel, y);
    assert(v1.trackers[id].target_name == x);
    assert(v1.subscriptions.contains_key(x));
    lemma_without(v1.subscriptions[x], id);
    let subs = leave(v1.subscriptions, x, id);
    assert(!subs.contains_key(x) || !subs[x].contains(id));
    assert(v2.subscriptions.contains_key(x) == subs.contains_key(x));
    if subs.contains_key(x) {
        assert(v2.subscriptions[x] == subs[x]);
    }
    if forall|u: Seq<char>| #[trigger] subscribers_of(v, x).contains(u) ==> u == id {
        let subs0 = if v.trackers.contains_key(id) {
            leave(v.subscriptions, v.trackers[id].target_name, id)
        } else {
            v.subscriptions
        };
        assert forall|u: Seq<char>| #[trigger] v1.subscriptions[x].contains(u) implies u == id by {
            if subs0.contains_key(x) && u != id {
                if v.trackers.contains_key(id) && v.trackers[id].target_name == x {
                    lemma_without(v.subscriptions[x], id);
                }
                if subs0[x].contains(u) {
                    assert(subscribers_of(v, x).contains(u));
                }
                if !subs0[x].contains(id) {
                    lemma_push_no_duplicates(subs0[x], id);
                }
            }
        }
        assert(without(v1.subscriptions[x], id).len() == 0) by {
            if without(v1.subscriptions[x], id).len() > 0 {
                let w = without(v1.subscriptions[x], id);
                assert(w.contains(w[0]));
            }
        }
        assert(subscribers_of(v2, x) =~= Seq::<Seq<char>>::empty());
    }
    lemma_retarget_wf(v1, id, channel, y);
    if subs.contains_key(y) && !subs[y].contains(id) {
        assert(subs[y].push(id)[subs[y].len() as int] == id);
    }
    assert(v2.subscriptions.contains_key(y));
    if !subs.contains_key(y) {
        assert(seq![id][0] == id);
    }
}

/// Re-targeting twice to the same target with the same channel leaves one
/// record for the tracker, as the first call left it, and the tracker
/// exactly once among the target's trackers.
pub proof fn lemma_retarget_idempotent(v: RegistryView, id: Seq<char>, channel: Seq<char>, x: Seq<char>)
    requires
        v.wf(),
    ensures
        ({
            let v1 = retarget_view(v, id, channel, x);
            let v2 = retarget_view(v1, id, channel, x);
            &&& v2.trackers == v1.trackers
            &&& v2.trackers[id] == (TrackerView { channel_id: channel, target_name: x })
            &&& subscribers_of(v2, x).to_multiset().count(id) == 1
            &&& subscribers_of(v2, x).to_set() == subscribers_of(v1, x).to_set()
            &&& v2.subscriptions.remove(x) == v1.subscriptions.remove(x)
        }),
{
    lemma_retarget_wf(v, id, channel, x);
    let v1 = retarget_view(v, id, channel, x);
    let v2 = retarget_view(v1, id, channel, x);
    lemma_retarget_wf(v1, id, channel, x);
    assert(v2.trackers =~= v1.trackers);
    assert(v1.subscriptions.contains_key(x));
    let s1 = v1.subscriptions[x];
    assert(s1.contains(id)) by {
        let subs0 = if v.trackers.contains_key(id) {
            leave(v.subscriptions, v.trackers[id].target_name, id)
        } else {
            v.subscriptions
        };
        if subs0.contains_key(x) && !subs0[x].contains(id) {
            assert(subs0[x].push(id)[subs0[x].len() as int] == id);
        }
        if !subs0.contains_key(x) {
            assert(seq![id][0] == id);
        }
    }
    lemma_without(s1, id);
    let w = without(s1, id);
    let s2 = subscribers_of(v2, x);
    assert(v2.subscriptions.contains_key(x));
    if w.len() > 0 {
        lemma_push_no_duplicates(w, id);
        assert(s2 == w.push(id));
    } else {
        assert(s2 == seq![id]);
        assert(seq![id][0] == id);
        assert forall|u: Seq<char>| #[trigger] seq![id].contains(u) <==> u == id by {
            if seq![id].contains(u) {
                let i = choose|i: int| 0 <= i < 1 && seq![id][i] == u;
            }
        }
        assert forall|u: Seq<char>| s1.contains(u) implies u == id by {
            if u != id {
                assert(w.contains(u));
                assert(w.contains(w[0]));
            }
        }
    }
    assert(s2.contains(id));
    assert(s2.no_duplicates());
    s2.lemma_multiset_has_no_duplicates();
    s2.to_multiset_ensures();
    assert(s2.to_set() =~= s1.to_set());
    assert(v2.subscriptions.remove(x) =~= v1.subscriptions.remove(x));
}

/// The two collections agree: each tracker is among the trackers of its
/// target, and each id among the trackers of a name has a record that
/// targets that name.
pub open spec fn consistent(v: RegistryView) -> bool {
    &&& forall|t: Seq<char>| #[trigger]
        v.trackers.contains_key(t) ==> subscribers_of(v, v.trackers[t].target_name).contains(t)
    &&& forall|n: Seq<char>, t: Seq<char>|
        v.subscriptions.contains_key(n) && #[trigger] v.subscriptions[n].contains(t) ==> v.trackers.contains_key(t)
            && v.trackers[t].target_name == n
}

/// Re-targeting keeps the two collections in agreement.
pub proof fn lemma_retarget_consistent(v: RegistryView, id: Seq<char>, channel: Seq<char>, target: Seq<char>)
    requires
        v.wf(),
        consistent(v),
    ensures
        consistent(retarget_view(v, id, channel, target)),
{
    let r = retarget_view(v, id, channel, target);
    let subs1 = if v.trackers.contains_key(id) {
        leave(v.subscriptions, v.trackers[id].target_name, id)
    } else {
        v.subscriptions
    };
    assert forall|n: Seq<char>| #[trigger] subs1.contains_key(n) implies subs1[n].no_duplicates() by {
        if v.trackers.contains_key(id) && n == v.trackers[id].target_name {
            lemma_without(v.subscriptions[n], id);
        }
    }
    assert forall|n: Seq<char>, t: Seq<char>| subs1.contains_key(n) && subs1[n].contains(t) implies t != id
        && v.subscriptions.contains_key(n) && v.subscriptions[n].contains(t) by {
        if v.trackers.contains_key(id) && n == v.trackers[id].target_name {
            lemma_without(v.subscriptions[n], id);
        } else if t == id {
            assert(v.subscriptions[n].contains(id));
        }
    }
    assert forall|n: Seq<char>, t: Seq<char>| v.subscriptions.contains_key(n) && #[trigger] v.subscriptions[n].contains(t)
        && t != id implies subs1.contains_key(n) && subs1[n].contains(t) by {
        if v.trackers.contains_key(id) && n == v.trackers[id].target_name {
            lemma_without(v.subscriptions[n], id);
            let w = without(v.subscriptions[n], id);
            assert(w.contains(t));
            assert(w.len() > 0);
        }
    }
    assert forall|n: Seq<char>, t: Seq<char>| r.subscriptions.contains_key(n) && #[trigger] r.subscriptions[n].contains(t)
        implies (subs1.contains_key(n) && subs1[n].contains(t)) || (n == target && t == id) by {
        if n == target && subs1.contains_key(n) && !subs1[n].contains(id) {
            lemma_push_no_duplicates(subs1[n], id);
        }
        if n == target && !subs1.contains_key(n) {
            assert(seq![id].contains(t));
            let i = choose|i: int| 0 <= i < 1 && seq![id][i] == t;
        }
    }
    assert forall|n: Seq<char>, t: Seq<char>| subs1.contains_key(n) && subs1[n].contains(t)
        implies r.subscriptions.contains_key(n) && r.subscriptions[n].contains(t) by {
        if n == target && !subs1[n].contains(id) {
            lemma_push_no_duplicates(subs1[n], id);
        }
    }
    assert(r.subscriptions.contains_key(target) && r.subscriptions[target].contains(id)) by {
        if subs1.contains_key(target) && !subs1[target].contains(id) {
            lemma_push_no_duplicates(subs1[target], id);
        }
        if !subs1.contains_key(target) {
            assert(seq![id][0] == id);
        }
    }
    assert forall|t: Seq<char>| #[trigger] r.trackers.contains_key(t) implies subscribers_of(r, r.trackers[t].target_name).contains(t) by {
        if t != id {
            let n = v.trackers[t].target_name;
            assert(subscribers_of(v, n).contains(t));
            assert(v.subscriptions.contains_key(n) && v.subscriptions[n].contains(t));
        }
    }
}

/// The trackers and their subscriptions.
pub struct TrackerRegistry {
    trackers: Vec<Tracker>,
    subscriptions: Vec<Subscription>,
}

impl View for TrackerRegistry {
    type V = RegistryView;

    closed spec fn view(&self) -> RegistryView {
        RegistryView {
            trackers: table_map(self.trackers@),
            subscriptions: table_map(self.subscriptions@),
        }
    }
}

impl TrackerRegistry {
    pub closed spec fn wf_subscriptions(&self) -> bool {
        &&& unique_keys(self.subscriptions@)
        &&& forall|i: int| 0 <= i < self.subscriptions@.len() ==> {
            &&& (#[trigger] self.subscriptions@[i]).trackers@.len() > 0
            &&& names(self.subscriptions@[i].trackers@).no_duplicates()
        }
    }

    /// One record per tracker id, one subscription per name, and no
    /// subscription empty or holding an id twice.
    pub closed spec fn wf(&self) -> bool {
        &&& unique_keys(self.trackers@)
        &&& self.wf_subscriptions()
    }

    pub proof fn lemma_wf_view(&self)
        requires
            self.wf(),
        ensures
            self@.wf(),
    {
        assert forall|name: Seq<char>| #[trigger] self@.subscriptions.contains_key(name) implies self@.subscriptions[name].len() > 0
            && self@.subscriptions[name].no_duplicates() by {
            let i = choose|i: int| 0 <= i < self.subscriptions@.len() && #[trigger] self.subscriptions@[i].row_key() == name;
            lemma_table_index(self.subscriptions@, i);
        }
    }

    /// An empty registry.
    pub fn new() -> (r: TrackerRegistry)
        ensures
            r.wf(),
            consistent(r@),
            r@.trackers == Map::<Seq<char>, TrackerView>::empty(),
            r@.subscriptions == Map::<Seq<char>, Seq<Seq<char>>>::empty(),
    {
        let r = TrackerRegistry { trackers: Vec::new(), subscriptions: Vec::new() };
        assert(r@.trackers =~= Map::<Seq<char>, TrackerView>::empty());
        assert(r@.subscriptions =~= Map::<Seq<char>, Seq<Seq<char>>>::empty());
        r
    }

    fn find_tracker(&self, tracker_id: &String) -> (r: Option<usize>)
        ensures
            match r {
                Some(i) => i < self.trackers@.len() && self.trackers@[i as int].tracker_id@ == tracker_id@,
                None => !has_key(self.trackers@, tracker_id@),
            },
    {
        let mut i: usize = 0;
        while i < self.trackers.len()
            invariant
                i <= self.trackers@.len(),
                forall|j: int| 0 <= j < i ==> (#[trigger] self.trackers@[j]).tracker_id@ != tracker_id@,
            decreases self.trackers@.len() - i,
        {
            if self.trackers[i].tracker_id == *tracker_id {
                return Some(i);
            }
            i += 1;
        }
        None
    }

    fn find_subscription(&self, target_name: &String) -> (r: Option<usize>)
        ensures
            match r {
                Some(i) => i < self.subscriptions@.len() && self.subscriptions@[i as int].target_name@ == target_name@,
                None => !has_key(self.subscriptions@, target_name@),
            },
    {
        let mut i: usize = 0;
        while i < self.subscriptions.len()
            invariant
                i <= self.subscriptions@.len(),
                forall|j: int| 0 <= j < i ==> (#[trigger] self.subscriptions@[j]).target_name@ != target_name@,
            decreases self.subscriptions@.len() - i,
        {
            if self.subscriptions[i].target_name == *target_name {
                return Some(i);
            }
            i += 1;
        }
        None
    }
    /// `tracker_id` leaves the subscription of `target_name`.
    fn leave_subscription(&mut self, target_name: &String, tracker_id: &String)
        requires
            old(self).wf_subscriptions(),
        ensures
            final(self).wf_subscriptions(),
            final(self).trackers == old(self).trackers,
            table_map(final(self).subscriptions@) == leave(table_map(old(self).subscriptions@), target_name@, tracker_id@),
    {
        match self.find_subscription(target_name) {
            None => {},
            Some(i) => {
                let rest = without_id(&self.subscriptions[i].trackers, tracker_id);
                proof {
                    lemma_table_index(self.subscriptions@, i as int);
                    lemma_without(names(self.subscriptions@[i as int].trackers@), tracker_id@);
                }
                if rest.len() == 0 {
                    proof {
                        lemma_table_remove(self.subscriptions@, i as int);
                    }
                    let ghost before = self.subscriptions@;
                    self.subscriptions.remove(i);
                    assert forall|j: int| 0 <= j < self.subscriptions@.len() implies (#[trigger] self.subscriptions@[j]).trackers@.len() > 0
                        && names(self.subscriptions@[j].trackers@).no_duplicates() by {
                        if j < i {
                            assert(self.subscriptions@[j] == before[j]);
                        } else {
                            assert(self.subscriptions@[j] == before[j + 1]);
                        }
                    }
                } else {
                    let sub = Subscription { target_name: target_name.clone(), trackers: rest };
                    proof {
                        lemma_table_update(self.subscriptions@, i as int, sub);
                    }
                    let ghost before = self.subscriptions@;
                    self.subscriptions.set(i, sub);
                    assert forall|j: int| 0 <= j < self.subscriptions@.len() implies (#[trigger] self.subscriptions@[j]).trackers@.len() > 0
                        && names(self.subscriptions@[j].trackers@).no_duplicates() by {
                        if j != i {
                            assert(self.subscriptions@[j] == before[j]);
                        }
                    }
                }
            },
        }
    }

    /// `tracker_id` joins the subscription of `target_name`.
    fn join_subscription(&mut self, target_name: &String, tracker_id: &String)
        requires
            old(self).wf_subscriptions(),
        ensures
            final(self).wf_subscriptions(),
            final(self).trackers == old(self).trackers,
            table_map(final(self).subscriptions@) == join(table_map(old(self).subscriptions@), target_name@, tracker_id@),
    {
        match self.find_subscription(target_name) {
            None => {
                let sub = Subscription { target_name: target_name.clone(), trackers: vec![tracker_id.clone()] };
                assert(names(sub.trackers@) =~= seq![tracker_id@]);
                proof {
                    lemma_table_push(self.subscriptions@, sub);
                }
                let ghost before = self.subscriptions@;
                self.subscriptions.push(sub);
                assert forall|j: int| 0 <= j < self.subscriptions@.len() implies (#[trigger] self.subscriptions@[j]).trackers@.len() > 0
                    && names(self.subscriptions@[j].trackers@).no_duplicates() by {
                    if j < before.len() {
                        assert(self.subscriptions@[j] == before[j]);
                    }
                }
            },
            Some(i) => {
                proof {
                    lemma_table_index(self.subscriptions@, i as int);
                }
                if !contains_id(&self.subscriptions[i].trackers, tracker_id) {
                    let mut ids = copy_ids(&self.subscriptions[i].trackers);
                    let ghost old_ids = ids@;
                    let x = tracker_id.clone();
                    ids.push(x);
                    proof {
                        lemma_names_push(old_ids, x);
                    }
                    let sub = Subscription { target_name: target_name.clone(), trackers: ids };
                    proof {
                        lemma_table_update(self.subscriptions@, i as int, sub);
                    }
                    let ghost before = self.subscriptions@;
                    let ghost olds = names(old_ids);
                    assert(names(sub.trackers@).no_duplicates()) by {
                        assert forall|a: int, b: int| 0 <= a < olds.len() + 1 && 0 <= b < olds.len() + 1 && a != b
                            implies olds.push(tracker_id@)[a] != olds.push(tracker_id@)[b] by {
                            if a < olds.len() && b == olds.len() {
                                assert(olds.contains(olds[a]));
                            }
                            if b < olds.len() && a == olds.len() {
                                assert(olds.contains(olds[b]));
                            }
                        }
                    }
                    self.subscriptions.set(i, sub);
                    assert forall|j: int| 0 <= j < self.subscriptions@.len() implies (#[trigger] self.subscriptions@[j]).trackers@.len() > 0
                        && names(self.subscriptions@[j].trackers@).no_duplicates() by {
                        if j != i {
                            assert(self.subscriptions@[j] == before[j]);
                        }
                    }
                }
            },
        }
    }

    /// Tracker `tracker_id`, delivered on `channel_id`, now tracks
    /// `target_name`: its previous record goes, it leaves the subscription of
    /// its previous target (which goes if nobody is left), its new record is
    /// stored, and it joins the subscription of `target_name`.
    pub fn retarget(&mut self, tracker_id: &String, channel_id: &String, target_name: &String)
        requires
            old(self).wf(),
        ensures
            final(self).wf(),
            final(self)@.wf(),
            final(self)@ == retarget_view(old(self)@, tracker_id@, channel_id@, target_name@),
            consistent(old(self)@) ==> consistent(final(self)@),
    {
        let ghost v0 = self@;
        proof {
            self.lemma_wf_view();
            if consistent(v0) {
                lemma_retarget_consistent(v0, tracker_id@, channel_id@, target_name@);
            }
        }
        match self.find_tracker(tracker_id) {
            Some(i) => {
                proof {
                    lemma_table_index(self.trackers@, i as int);
                    lemma_table_remove(self.trackers@, i as int);
                }
                let previous = self.trackers.remove(i);
                self.leave_subscription(&previous.target_name, tracker_id);
            },
            None => {},
        }
        assert(table_map(self.trackers@) == v0.trackers.remove(tracker_id@));
        let record = Tracker {
            tracker_id: tracker_id.clone(),
            channel_id: channel_id.clone(),
            target_name: target_name.clone(),
        };
        proof {
            lemma_table_push(self.trackers@, record);
        }
        self.trackers.push(record);
        self.join_subscription(target_name, tracker_id);
        assert(self@.trackers =~= v0.trackers.insert(
            tracker_id@,
            TrackerView { channel_id: channel_id@, target_name: target_name@ },
        ));
        proof {
            self.lemma_wf_view();
        }
    }

    /// The name that `tracker_id` tracks, if it tracks one.
    pub fn get_target(&self, tracker_id: &String) -> (r: Option<String>)
        requires
            self.wf(),
        ensures
            match r {
                Some(t) => self@.trackers.contains_key(tracker_id@) && t@ == self@.trackers[tracker_id@].target_name,
                None => !self@.trackers.contains_key(tracker_id@),
            },
    {
        match self.find_tracker(tracker_id) {
            Some(i) => {
                proof {
                    lemma_table_index(self.trackers@, i as int);
                }
                Some(self.trackers[i].target_name.clone())
            },
            None => None,
        }
    }

    /// The channel on which `tracker_id` is told, if it has a record.
    pub fn resolve_channel(&self, tracker_id: &String) -> (r: Option<String>)
        requires
            self.wf(),
        ensures
            match r {
                Some(c) => self@.trackers.contains_key(tracker_id@) && c@ == self@.trackers[tracker_id@].channel_id,
                None => !self@.trackers.contains_key(tracker_id@),
            },
    {
        match self.find_tracker(tracker_id) {
            Some(i) => {
                proof {
                    lemma_table_index(self.trackers@, i as int);
                }
                Some(self.trackers[i].channel_id.clone())
            },
            None => None,
        }
    }

    /// The ids that track `target_name`, in the order they joined; none
    /// where nobody does.
    pub fn get_subscribers(&self, target_name: &String) -> (r: Vec<String>)
        requires
            self.wf(),
        ensures
            names(r@) == subscribers_of(self@, target_name@),
    {
        match self.find_subscription(target_name) {
            Some(i) => {
                proof {
                    lemma_table_index(self.subscriptions@, i as int);
                }
                copy_ids(&self.subscriptions[i].trackers)
            },
            None => {
                let r: Vec<String> = Vec::new();
                assert(names(r@) =~= Seq::<Seq<char>>::empty());
                r
            },
        }
    }
}

} // verus!
