//! Polling the board's action feed: when to fetch, from which point in time,
//! how long to wait after a failure, and which actions are card moves.

use vstd::prelude::*;
use crate::models::{Action, MoveEvent};
use crate::cards::{API_URL, token_parameters, token_parameters_for};

verus! {

/// Seconds to sleep between two polls.
pub const UPDATE_INTERVAL: u64 = 30;

/// Seconds to wait after a first failed fetch.
pub const INITIAL_RETRY_DELAY: u64 = 5;

/// The longest wait after failed fetches, in seconds.
pub const MAX_RETRY_DELAY: u64 = 300;

/// The last millisecond of the year 9999, the latest watermark kept.
pub const MAX_WATERMARK: i64 = 253402300799999;

/// The type of action asked for.
pub const FILTERED_ACTIONS: &'static str = "updateCard";

/// The RFC 3339 text, to the millisecond and in UTC, of the instant `ms`
/// milliseconds after the Unix epoch.
pub uninterp spec fn rfc3339_millis(ms: int) -> Seq<char>;

/// Relies on `chrono`'s `From<SystemTime> for DateTime<Utc>` and
/// `chrono::DateTime::timestamp_millis`: the clock in milliseconds since the
/// Unix epoch, negative for a clock set before it. Nothing is promised of the
/// reading.
#[verifier::external_body]
fn clock_millis() -> (r: i64) {
    chrono::DateTime::<chrono::Utc>::from(std::time::SystemTime::now()).timestamp_millis()
}

/// Relies on `chrono::DateTime::from_timestamp_millis`, which gives an
/// instant for every value inside chrono's range of years (-262143 to
/// 262142, so every value up to the end of year 9999), and on
/// `chrono::DateTime::to_rfc3339_opts` with millisecond precision and `Z`.
#[verifier::external_body]
fn rfc3339_text(ms: i64) -> (r: String)
    requires
        0 <= ms <= MAX_WATERMARK,
    ensures
        r@ == rfc3339_millis(ms as int),
{
    chrono::DateTime::from_timestamp_millis(ms).unwrap().to_rfc3339_opts(chrono::SecondsFormat::Millis, true)
}

/// A clock reading as a watermark: never past the latest one kept.
pub open spec fn clamp_time(t: int) -> int {
    if t < 0 {
        0
    } else if t > MAX_WATERMARK {
        MAX_WATERMARK as int
    } else {
        t
    }
}

/// Where the poller stands in its cycle.
#[derive(PartialEq, Eq, Structural, Clone, Copy, Debug)]
pub enum PollPhase {
    Fetching,
    Processing,
    Sleeping,
}

/// The poller's state: its phase, the watermark, the time of the fetch in
/// progress, and the wait before the next retry.
pub struct PollView {
    pub phase: PollPhase,
    pub watermark: int,
    pub issued_at: int,
    pub retry_delay: nat,
}

/// What happens to the poller.
pub enum PollEvent {
    /// A fetch is issued with the clock at the given time.
    Issue(int),
    /// The fetch failed.
    Fail,
    /// The fetch brought a batch.
    Fetched,
    /// The batch has been processed.
    Processed,
    /// The sleep is over.
    Wake,
}

impl PollView {
    pub open spec fn wf(self) -> bool {
        &&& 0 <= self.watermark <= MAX_WATERMARK
        &&& 0 <= self.issued_at <= MAX_WATERMARK
        &&& INITIAL_RETRY_DELAY <= self.retry_delay <= MAX_RETRY_DELAY
    }
}

/// The wait after the one of `d` seconds: twice as long, up to the longest.
pub open spec fn next_delay(d: nat) -> nat {
    if 2 * d > MAX_RETRY_DELAY {
        MAX_RETRY_DELAY as nat
    } else {
        2 * d
    }
}

/// The poller after one event.
pub open spec fn poll_step(v: PollView, e: PollEvent) -> PollView {
    match e {
        PollEvent::Issue(t) => PollView { phase: PollPhase::Fetching, issued_at: clamp_time(t), ..v },
        PollEvent::Fail => PollView { phase: PollPhase::Fetching, retry_delay: next_delay(v.retry_delay), ..v },
        PollEvent::Fetched => PollView {
            phase: PollPhase::Processing,
            retry_delay: INITIAL_RETRY_DELAY as nat,
            ..v
        },
        PollEvent::Processed => PollView {
            phase: PollPhase::Sleeping,
            watermark: if v.issued_at > v.watermark {
                v.issued_at
            } else {
                v.watermark
            },
            ..v
        },
        PollEvent::Wake => PollView { phase: PollPhase::Fetching, ..v },
    }
}

/// The poller after a run of events, in order.
pub open spec fn poll_run(v: PollView, es: Seq<PollEvent>) -> PollView
    decreases es.len(),
{
    if es.len() == 0 {
        v
    } else {
        poll_step(poll_run(v, es.drop_last()), es.last())
    }
}

/// The watermark never moves back, whatever happens, and the poller's state
/// stays within its bounds.
pub proof fn lemma_watermark_monotone(v: PollView, es: Seq<PollEvent>)
    requires
        v.wf(),
    ensures
        poll_run(v, es).wf(),
        poll_run(v, es).watermark >= v.watermark,
        forall|k: int| 0 <= k <= es.len() ==> #[trigger] poll_run(v, es.take(k)).watermark <= poll_run(v, es).watermark,
    decreases es.len(),
{
    if es.len() > 0 {
        let init = es.drop_last();
        lemma_watermark_monotone(v, init);
        assert forall|k: int| 0 <= k <= es.len() implies #[trigger] poll_run(v, es.take(k)).watermark <= poll_run(v, es).watermark by {
            if k < es.len() {
                assert(es.take(k) =~= init.take(k));
            } else {
                assert(es.take(k) =~= es);
            }
        }
    }
}

/// The move that action `a` records, if it records one: it names a card and
/// the lists before and after.
pub open spec fn move_of(a: Action) -> Option<MoveEvent> {
    if a.data.card_id is Some && a.data.list_before is Some && a.data.list_after is Some {
        Some(
            MoveEvent {
                card_id: a.data.card_id->0,
                list_before: a.data.list_before->0,
                list_after: a.data.list_after->0,
            },
        )
    } else {
        None
    }
}

/// The moves among `s`, a batch as the feed gives it (most recent first),
/// oldest first.
pub open spec fn oldest_first_moves(s: Seq<Action>) -> Seq<MoveEvent>
    decreases s.len(),
{
    if s.len() == 0 {
        Seq::empty()
    } else {
        let later = oldest_first_moves(s.drop_first());
        match move_of(s[0]) {
            Some(m) => later.push(m),
            None => later,
        }
    }
}

proof fn lemma_moves_suffix_prefix(s: Seq<Action>, j: int, k: int)
    requires
        0 <= j <= k <= s.len(),
    ensures
        oldest_first_moves(s.subrange(k, s.len() as int)).is_prefix_of(oldest_first_moves(s.subrange(j, s.len() as int))),
    decreases k - j,
{
    let n = s.len() as int;
    if j < k {
        lemma_moves_suffix_prefix(s, j + 1, k);
        assert(s.subrange(j, n).drop_first() =~= s.subrange(j + 1, n));
        assert(s.subrange(j, n)[0] == s[j]);
    }
}

/// Where the move of the action at `a` stands among the batch's moves.
pub open spec fn move_position(s: Seq<Action>, a: int) -> int {
    oldest_first_moves(s.subrange(a + 1, s.len() as int)).len() as int
}

/// The feed gives the most recent action first: of two actions that are
/// moves, the one with the earlier time stands earlier among the moves.
pub proof fn lemma_moves_oldest_first(s: Seq<Action>, time: spec_fn(Action) -> int, a: int, b: int)
    requires
        forall|i: int, j: int| 0 <= i < j < s.len() ==> time(#[trigger] s[i]) >= time(#[trigger] s[j]),
        0 <= a < s.len(),
        0 <= b < s.len(),
        move_of(s[a]) is Some,
        move_of(s[b]) is Some,
        time(s[a]) < time(s[b]),
    ensures
        0 <= move_position(s, a) < move_position(s, b) < oldest_first_moves(s).len(),
        oldest_first_moves(s)[move_position(s, a)] == move_of(s[a])->0,
        oldest_first_moves(s)[move_position(s, b)] == move_of(s[b])->0,
{
    let n = s.len() as int;
    assert(b < a);
    assert forall|x: int| 0 <= x < n && move_of(s[x]) is Some implies {
        &&& move_position(s, x) < oldest_first_moves(s).len()
        &&& oldest_first_moves(s)[move_position(s, x)] == move_of(s[x])->0
        &&& oldest_first_moves(s.subrange(x, n)).len() == move_position(s, x) + 1
    } by {
        assert(s.subrange(x, n).drop_first() =~= s.subrange(x + 1, n));
        assert(s.subrange(x, n)[0] == s[x]);
        lemma_moves_suffix_prefix(s, 0, x);
        assert(s.subrange(0, n) =~= s);
        let p = oldest_first_moves(s.subrange(x, n));
        assert(p[move_position(s, x)] == move_of(s[x])->0);
    }
    lemma_moves_suffix_prefix(s, b + 1, a);
}

/// Follows the board's action feed.
pub struct BoardHandler {
    id: String,
    http_url: String,
    http_token_parameters: String,
    watermark: i64,
    issued_at: i64,
    retry_delay: u64,
    phase: PollPhase,
}

impl View for BoardHandler {
    type V = PollView;

    closed spec fn view(&self) -> PollView {
        PollView {
            phase: self.phase,
            watermark: self.watermark as int,
            issued_at: self.issued_at as int,
            retry_delay: self.retry_delay as nat,
        }
    }
}

impl BoardHandler {
    /// The board's id.
    pub closed spec fn board_id(&self) -> Seq<char> {
        self.id@
    }

    /// The board's address.
    pub closed spec fn board_url(&self) -> Seq<char> {
        self.http_url@
    }

    /// The credentials' query parameters.
    pub closed spec fn token(&self) -> Seq<char> {
        self.http_token_parameters@
    }

    /// A poller of board `board_id` whose first fetch asks for what happened
    /// since `since` (a time in milliseconds, kept within the range of
    /// watermarks).
    pub fn with_watermark(board_id: &str, api_key: &str, oauth_token: &str, since: i64) -> (r: BoardHandler)
        ensures
            r@ == (PollView {
                phase: PollPhase::Fetching,
                watermark: clamp_time(since as int),
                issued_at: clamp_time(since as int),
                retry_delay: INITIAL_RETRY_DELAY as nat,
            }),
            r.board_id() == board_id@,
            r.board_url() == API_URL@ + "/boards/"@ + board_id@,
            r.token() == token_parameters(api_key@, oauth_token@),
    {
        let start = if since < 0 {
            0
        } else if since > MAX_WATERMARK {
            MAX_WATERMARK
        } else {
            since
        };
        let mut url = String::from_str(API_URL);
        url.append("/boards/");
        url.append(board_id);
        BoardHandler {
            id: String::from_str(board_id),
            http_url: url,
            http_token_parameters: token_parameters_for(api_key, oauth_token),
            watermark: start,
            issued_at: start,
            retry_delay: INITIAL_RETRY_DELAY,
            phase: PollPhase::Fetching,
        }
    }

    /// A poller of board `board_id` that starts from now.
    pub fn new(board_id: &str, api_key: &str, oauth_token: &str) -> (r: BoardHandler)
        ensures
            r@.wf(),
            r@.phase == PollPhase::Fetching,
            r@.watermark == r@.issued_at,
            r@.retry_delay == INITIAL_RETRY_DELAY,
            r.board_id() == board_id@,
            r.board_url() == API_URL@ + "/boards/"@ + board_id@,
            r.token() == token_parameters(api_key@, oauth_token@),
    {
        let now = clock_millis();
        BoardHandler::with_watermark(board_id, api_key, oauth_token, now)
    }

    /// Where to fetch the actions since the instant written `since`.
    pub fn actions_url_since(&self, since: &str) -> (r: String)
        ensures
            r@ == self.board_url() + "/actions?filter="@ + FILTERED_ACTIONS@ + "&since="@ + since@ + "&"@
                + self.token(),
    {
        let mut r = self.http_url.clone();
        r.append("/actions?filter=");
        r.append(FILTERED_ACTIONS);
        r.append("&since=");
        r.append(since);
        r.append("&");
        r.append(self.http_token_parameters.as_str());
        r
    }

    /// Where to fetch the actions since the watermark.
    pub fn actions_url(&self) -> (r: String)
        requires
            self@.wf(),
        ensures
            r@ == self.board_url() + "/actions?filter="@ + FILTERED_ACTIONS@ + "&since="@ + rfc3339_millis(
                self@.watermark,
            ) + "&"@ + self.token(),
    {
        let since = rfc3339_text(self.watermark);
        self.actions_url_since(since.as_str())
    }

    /// Issues a fetch with the clock at `now`: the fetch's time is recorded
    /// and its address given.
    pub fn issue_fetch_at(&mut self, now: i64) -> (r: String)
        requires
            old(self)@.wf(),
        ensures
            final(self)@ == poll_step(old(self)@, PollEvent::Issue(now as int)),
            final(self)@.wf(),
            final(self).board_url() == old(self).board_url(),
            final(self).token() == old(self).token(),
            r@ == old(self).board_url() + "/actions?filter="@ + FILTERED_ACTIONS@ + "&since="@ + rfc3339_millis(
                old(self)@.watermark,
            ) + "&"@ + old(self).token(),
    {
        self.issued_at = if now < 0 {
            0
        } else if now > MAX_WATERMARK {
            MAX_WATERMARK
        } else {
            now
        };
        self.phase = PollPhase::Fetching;
        self.actions_url()
    }

    /// Issues a fetch now.
    pub fn issue_fetch(&mut self) -> (r: String)
        requires
            old(self)@.wf(),
        ensures
            exists|now: int| final(self)@ == poll_step(old(self)@, PollEvent::Issue(now)),
            final(self)@.wf(),
            final(self).board_url() == old(self).board_url(),
            final(self).token() == old(self).token(),
            r@ == old(self).board_url() + "/actions?filter="@ + FILTERED_ACTIONS@ + "&since="@ + rfc3339_millis(
                old(self)@.watermark,
            ) + "&"@ + old(self).token(),
    {
        let now = clock_millis();
        self.issue_fetch_at(now)
    }

    /// The fetch failed: the poller stays ready to fetch and gives the
    /// seconds to wait first, which double from one failure to the next up
    /// to a bound.
    pub fn fetch_failed(&mut self) -> (r: u64)
        requires
            old(self)@.wf(),
        ensures
            r == old(self)@.retry_delay,
            final(self)@ == poll_step(old(self)@, PollEvent::Fail),
            final(self)@.wf(),
            final(self).board_url() == old(self).board_url(),
            final(self).token() == old(self).token(),
    {
        let r = self.retry_delay;
        self.retry_delay = if r > MAX_RETRY_DELAY / 2 {
            MAX_RETRY_DELAY
        } else {
            2 * r
        };
        self.phase = PollPhase::Fetching;
        r
    }

    /// The fetch brought `actions`, most recent first: gives the card moves
    /// among them, oldest first.
    pub fn fetch_succeeded(&mut self, actions: &Vec<Action>) -> (r: Vec<MoveEvent>)
        requires
            old(self)@.wf(),
        ensures
            r@ == oldest_first_moves(actions@),
            final(self)@ == poll_step(old(self)@, PollEvent::Fetched),
            final(self)@.wf(),
            final(self).board_url() == old(self).board_url(),
            final(self).token() == old(self).token(),
    {
        self.retry_delay = INITIAL_RETRY_DELAY;
        self.phase = PollPhase::Processing;
        select_moves(actions)
    }

    /// The batch has been processed: the watermark moves up to the time the
    /// fetch was issued (never back), and the poller sleeps for the seconds
    /// given.
    pub fn batch_processed(&mut self) -> (r: u64)
        requires
            old(self)@.wf(),
        ensures
            r == UPDATE_INTERVAL,
            final(self)@ == poll_step(old(self)@, PollEvent::Processed),
            final(self)@.wf(),
            final(self)@.watermark >= old(self)@.watermark,
            final(self).board_url() == old(self).board_url(),
            final(self).token() == old(self).token(),
    {
        if self.issued_at > self.watermark {
            self.watermark = self.issued_at;
        }
        self.phase = PollPhase::Sleeping;
        UPDATE_INTERVAL
    }

    /// The sleep is over: the poller is ready to fetch.
    pub fn wake(&mut self)
        requires
            old(self)@.wf(),
        ensures
            final(self)@ == poll_step(old(self)@, PollEvent::Wake),
            final(self)@.wf(),
            final(self).board_url() == old(self).board_url(),
            final(self).token() == old(self).token(),
    {
        self.phase = PollPhase::Fetching;
    }

    /// The board's id.
    pub fn id(&self) -> (r: &String)
        ensures
            r@ == self.board_id(),
    {
        &self.id
    }

    /// Where the poller stands.
    pub fn phase(&self) -> (r: PollPhase)
        ensures
            r == self@.phase,
    {
        self.phase
    }

    /// The watermark, in milliseconds since the Unix epoch.
    pub fn watermark(&self) -> (r: i64)
        ensures
            r == self@.watermark,
    {
        self.watermark
    }
}

/// The move that `a` records, if any.
fn move_from(a: &Action) -> (r: Option<MoveEvent>)
    ensures
        r == move_of(*a),
{
    match (&a.data.card_id, &a.data.list_before, &a.data.list_after) {
        (Some(card_id), Some(before), Some(after)) => Some(
            MoveEvent { card_id: card_id.clone(), list_before: before.clone(), list_after: after.clone() },
        ),
        _ => None,
    }
}

/// The card moves among `actions`, a batch given most recent first, in the
/// order in which they happened.
pub fn select_moves(actions: &Vec<Action>) -> (r: Vec<MoveEvent>)
    ensures
        r@ == oldest_first_moves(actions@),
{
    let mut r: Vec<MoveEvent> = Vec::new();
    let mut i: usize = actions.len();
    let ghost s = actions@;
    assert(s.subrange(s.len() as int, s.len() as int) =~= Seq::<Action>::empty());
    while i > 0
        invariant
            i <= s.len(),
            s == actions@,
            r@ == oldest_first_moves(s.subrange(i as int, s.len() as int)),
        decreases i,
    {
        i -= 1;
        assert(s.subrange(i as int, s.len() as int).drop_first() =~= s.subrange(i + 1, s.len() as int));
        assert(s.subrange(i as int, s.len() as int)[0] == s[i as int]);
        match move_from(&actions[i]) {
            Some(m) => r.push(m),
            None => {},
        }
    }
    assert(s.subrange(0, s.len() as int) =~= s);
    r
}

} // verus!
