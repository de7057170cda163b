use vstd::prelude::*;
use crate::gate::{classify, classify_spec, continues_spec, Classification, MatchRule};
use crate::levels::all_positive;
use crate::store::{
    after_event, copy_of, loaded, replaced, BinanceSnapshot, BinanceSpotOrderBookSnapshot,
    BookView, Event, LevelEvent, Shared,
};

verus! {

/// Where one reconciliation attempt stands.
#[derive(Clone, Copy, Debug, PartialEq, Eq, Structural)]
pub enum SessionState {
    /// Collecting the first events of the stream.
    Buffering,
    /// The buffer is full: a snapshot is fetched and matched against events.
    AwaitingMatch,
    /// The book follows the stream and is served.
    Synced,
    /// The attempt failed; the book cannot be trusted until a restart.
    Faulted,
}

/// What the session asks of the code that drives it.
pub enum Action {
    /// Hand over the next event.
    Continue,
    /// Fetch one snapshot and hand it to `on_snapshot`.
    FetchSnapshot,
    /// One event was applied: push this copy of the book to subscribers, then
    /// call `step_buffered` until it returns `None`.
    Publish(BinanceSpotOrderBookSnapshot),
    /// The attempt is over: reconnect and call `restart`.
    Restart,
}

/// `r` asks to publish a copy of the book `b`.
pub open spec fn publishes(r: Action, b: BookView) -> bool {
    r matches Action::Publish(s) && copy_of(s, b)
}

/// The book after `event` is offered to a synced book `b`: the event applied
/// if it follows on `b`, `None` where it leaves a gap.
pub open spec fn synced_step(b: BookView, event: Event, rule: MatchRule) -> Option<BookView> {
    if continues_spec(event.first_update_id as int, event.prev_last_update_id, b.seq, rule) {
        Some(after_event(b, event))
    } else {
        None
    }
}

/// The book after the events `events` are offered in order to a synced book
/// `b`; `None` as soon as one of them leaves a gap.
pub open spec fn apply_chain(b: BookView, events: Seq<Event>, rule: MatchRule) -> Option<BookView>
    decreases events.len(),
{
    if events.len() == 0 {
        Some(b)
    } else {
        match synced_step(b, events[0], rule) {
            Some(b1) => apply_chain(b1, events.drop_first(), rule),
            None => None,
        }
    }
}

/// The classification of `event` against the snapshot id `reference`.
pub open spec fn class_of(event: Event, reference: i64, rule: MatchRule) -> Classification {
    classify_spec(event.first_update_id as int, event.last_update_id as int, reference as int, rule)
}

/// `k` is the position of the first event of `buffer` that is not stale
/// against `reference`.
pub open spec fn first_live(buffer: Seq<Event>, reference: i64, rule: MatchRule, k: int) -> bool {
    &&& 0 <= k < buffer.len()
    &&& class_of(buffer[k], reference, rule) != Classification::Stale
    &&& forall|i: int| 0 <= i < k ==> class_of(#[trigger] buffer[i], reference, rule)
        == Classification::Stale
}

/// There is at most one first event that is not stale.
proof fn lemma_first_live_unique(buffer: Seq<Event>, reference: i64, rule: MatchRule, j: int, k: int)
    requires
        first_live(buffer, reference, rule, j),
        first_live(buffer, reference, rule, k),
    ensures
        j == k,
{
    if j < k {
        assert(class_of(buffer[j], reference, rule) == Classification::Stale);
    }
    if j > k {
        assert(class_of(buffer[k], reference, rule) == Classification::Stale);
    }
}

/// What a session holds.
pub struct SessionView {
    pub rule: MatchRule,
    pub capacity: int,
    pub state: SessionState,
    /// Events collected before the snapshot is matched, oldest first.
    pub buffer: Seq<Event>,
    /// The fetched snapshot, kept while live events are scanned for a match.
    pub pending: Option<BinanceSnapshot>,
    pub book: BookView,
}

/// One reconciliation attempt after another: buffer events, match them against
/// a snapshot, then follow the stream until a gap.
pub struct ReconciliationSession {
    rule: MatchRule,
    capacity: usize,
    state: SessionState,
    buffer: Vec<Event>,
    pending: Option<BinanceSnapshot>,
    store: Shared,
}

impl View for ReconciliationSession {
    type V = SessionView;

    closed spec fn view(&self) -> SessionView {
        SessionView {
            rule: self.rule,
            capacity: self.capacity as int,
            state: self.state,
            buffer: self.buffer@,
            pending: self.pending,
            book: self.store@,
        }
    }
}

impl ReconciliationSession {
    /// The book holds no level with a zero quantity.
    pub open spec fn wf(&self) -> bool {
        &&& all_positive(self@.book.asks)
        &&& all_positive(self@.book.bids)
    }

    /// A session that starts buffering, with an empty book; `capacity` events
    /// are buffered before the snapshot is fetched.
    pub fn new(rule: MatchRule, capacity: usize) -> (r: ReconciliationSession)
        ensures
            r.wf(),
            r@.rule == rule,
            r@.capacity == capacity,
            r@.state == SessionState::Buffering,
            r@.buffer.len() == 0,
            r@.pending is None,
            r@.book == (BookView {
                seq: 0,
                time_stamp: 0,
                create_time: 0,
                asks: Map::empty(),
                bids: Map::empty(),
            }),
    {
        ReconciliationSession {
            rule,
            capacity,
            state: SessionState::Buffering,
            buffer: Vec::new(),
            pending: None,
            store: Shared::new(),
        }
    }

    /// The state of the current attempt.
    pub fn state(&self) -> (r: SessionState)
        ensures
            r == self@.state,
    {
        self.state
    }

    /// The id of the book.
    pub fn current_seq(&self) -> (r: i64)
        ensures
            r == self@.book.seq,
    {
        self.store.id()
    }

    /// Whether the book is synchronised and may be served.
    pub fn is_ready(&self) -> (r: bool)
        ensures
            r == (self@.state == SessionState::Synced),
    {
        self.state == SessionState::Synced
    }

    /// A copy of the book while it is synchronised; `None` otherwise.
    pub fn current_if_ready(&self) -> (r: Option<BinanceSpotOrderBookSnapshot>)
        ensures
            r is Some <==> self@.state == SessionState::Synced,
            r matches Some(s) ==> copy_of(s, self@.book),
    {
        if self.state == SessionState::Synced {
            Some(self.store.get_snapshot())
        } else {
            None
        }
    }

    /// Starts a new attempt: buffering again, with an empty buffer and no
    /// snapshot. The book is kept but not served until it is synchronised.
    pub fn restart(&mut self)
        requires
            old(self).wf(),
        ensures
            final(self).wf(),
            final(self)@ == (SessionView {
                state: SessionState::Buffering,
                buffer: Seq::empty(),
                pending: None,
                ..old(self)@
            }),
    {
        self.state = SessionState::Buffering;
        self.buffer = Vec::new();
        self.pending = None;
    }

    /// Offers `event` to a synced book: applies it and publishes the result,
    /// or faults where it leaves a gap.
    fn follow(&mut self, event: Event) -> (r: Action)
        requires
            old(self).wf(),
            old(self)@.state == SessionState::Synced,
        ensures
            final(self).wf(),
            final(self)@.rule == old(self)@.rule,
            final(self)@.capacity == old(self)@.capacity,
            final(self)@.buffer == old(self)@.buffer,
            final(self)@.pending == old(self)@.pending,
            match synced_step(old(self)@.book, event, old(self)@.rule) {
                Some(b) => final(self)@.state == SessionState::Synced && final(self)@.book == b
                    && publishes(r, b),
                None => final(self)@.state == SessionState::Faulted && final(self)@.book
                    == old(self)@.book && r is Restart,
            },
    {
        if event.follows(self.store.id(), self.rule) {
            self.store.add_event(event);
            Action::Publish(self.store.get_snapshot())
        } else {
            self.state = SessionState::Faulted;
            Action::Restart
        }
    }

    /// Hands the session the next event of the stream.
    ///
    /// While buffering, the event is kept; once `capacity` events are kept the
    /// session asks for a snapshot. While a snapshot is awaited, events are kept
    /// too. Once the buffer is used up without a match, each event is matched
    /// against the snapshot: a stale one is dropped, a matching one seeds the
    /// book, one that is ahead fails the attempt. Once synced, each event must
    /// follow on the book, or the attempt fails; while buffered events still
    /// wait for `step_buffered`, a new event joins them.
    pub fn on_event(&mut self, event: Event) -> (r: Action)
        requires
            old(self).wf(),
        ensures
            final(self).wf(),
            final(self)@.rule == old(self)@.rule,
            final(self)@.capacity == old(self)@.capacity,
            ({
                let o = old(self)@;
                let n = final(self)@;
                match o.state {
                    SessionState::Buffering => {
                        &&& n.buffer == o.buffer.push(event)
                        &&& n.pending == o.pending
                        &&& n.book == o.book
                        &&& if n.buffer.len() >= o.capacity {
                            n.state == SessionState::AwaitingMatch && r is FetchSnapshot
                        } else {
                            n.state == SessionState::Buffering && r is Continue
                        }
                    },
                    SessionState::AwaitingMatch => match o.pending {
                        None => {
                            &&& n.buffer == o.buffer.push(event)
                            &&& n.pending is None
                            &&& n.book == o.book
                            &&& n.state == SessionState::AwaitingMatch
                            &&& r is Continue
                        },
                        Some(snap) => match class_of(event, snap.last_update_id, o.rule) {
                            Classification::Stale => n == o && r is Continue,
                            Classification::Match => {
                                let b = after_event(loaded(o.book, snap), event);
                                &&& n.state == SessionState::Synced
                                &&& n.pending is None
                                &&& n.buffer == o.buffer
                                &&& n.book == b
                                &&& publishes(r, b)
                            },
                            Classification::Ahead => {
                                &&& n == SessionView { state: SessionState::Faulted, ..o }
                                &&& r is Restart
                            },
                        },
                    },
                    SessionState::Synced => {
                        &&& n.pending == o.pending
                        &&& if o.buffer.len() > 0 {
                            &&& n.buffer == o.buffer.push(event)
                            &&& n.state == SessionState::Synced
                            &&& n.book == o.book
                            &&& r is Continue
                        } else {
                            &&& n.buffer == o.buffer
                            &&& match synced_step(o.book, event, o.rule) {
                                Some(b) => n.state == SessionState::Synced && n.book == b
                                    && publishes(r, b),
                                None => n.state == SessionState::Faulted && n.book == o.book
                                    && r is Restart,
                            }
                        }
                    },
                    SessionState::Faulted => n == o && r is Restart,
                }
            }),
    {
        match self.state {
            SessionState::Buffering => {
                self.buffer.push(event);
                if self.buffer.len() >= self.capacity {
                    self.state = SessionState::AwaitingMatch;
                    Action::FetchSnapshot
                } else {
                    Action::Continue
                }
            },
            SessionState::AwaitingMatch => {
                match &self.pending {
                    None => {
                        self.buffer.push(event);
                        Action::Continue
                    },
                    Some(snap) => {
                        match classify(
                            event.first_update_id,
                            event.last_update_id,
                            snap.last_update_id,
                            self.rule,
                        ) {
                            Classification::Stale => Action::Continue,
                            Classification::Match => {
                                self.store.load_snapshot(snap);
                                self.store.add_event(event);
                                self.pending = None;
                                self.state = SessionState::Synced;
                                Action::Publish(self.store.get_snapshot())
                            },
                            Classification::Ahead => {
                                self.state = SessionState::Faulted;
                                Action::Restart
                            },
                        }
                    },
                }
            },
            SessionState::Synced => {
                if self.buffer.len() > 0 {
                    self.buffer.push(event);
                    Action::Continue
                } else {
                    self.follow(event)
                }
            },
            SessionState::Faulted => Action::Restart,
        }
    }

    /// Hands the session the snapshot it asked for.
    ///
    /// The buffered events are matched against it, oldest first: stale ones
    /// are dropped; the first that is not stale either matches, and then the
    /// book is loaded from the snapshot, that event applied and published, and
    /// the rest of the buffer left for `step_buffered`; or it is ahead, and the
    /// attempt fails. Where every
    /// buffered event is stale the snapshot is kept and live events are matched
    /// against it. Outside `AwaitingMatch`, or with a snapshot already in hand,
    /// the snapshot is ignored.
    pub fn on_snapshot(&mut self, snapshot: BinanceSnapshot) -> (r: Action)
        requires
            old(self).wf(),
        ensures
            final(self).wf(),
            final(self)@.rule == old(self)@.rule,
            final(self)@.capacity == old(self)@.capacity,
            ({
                let o = old(self)@;
                let n = final(self)@;
                let reference = snapshot.last_update_id;
                if o.state == SessionState::AwaitingMatch && o.pending is None {
                    &&& (forall|i: int| 0 <= i < o.buffer.len() ==> class_of(
                        #[trigger] o.buffer[i],
                        reference,
                        o.rule,
                    ) == Classification::Stale) ==> {
                        &&& n.buffer.len() == 0
                        &&& n.state == SessionState::AwaitingMatch
                        &&& n.pending == Some(snapshot)
                        &&& n.book == o.book
                        &&& r is Continue
                    }
                    &&& forall|k: int| #[trigger] first_live(o.buffer, reference, o.rule, k) ==> {
                        &&& n.pending is None
                        &&& if class_of(o.buffer[k], reference, o.rule) == Classification::Ahead {
                            &&& n.state == SessionState::Faulted
                            &&& n.buffer.len() == 0
                            &&& n.book == o.book
                            &&& r is Restart
                        } else {
                            let b = after_event(loaded(o.book, snapshot), o.buffer[k]);
                            &&& n.state == SessionState::Synced
                            &&& n.buffer == o.buffer.subrange(k + 1, o.buffer.len() as int)
                            &&& n.book == b
                            &&& publishes(r, b)
                        }
                    }
                } else {
                    n == o && r is Continue
                }
            }),
    {
        if self.state != SessionState::AwaitingMatch || self.pending.is_some() {
            return Action::Continue;
        }
        let ghost start = self@;
        let mut rest: Vec<Event> = Vec::new();
        std::mem::swap(&mut rest, &mut self.buffer);
        let ghost all = rest@;
        while rest.len() > 0
            invariant
                self.wf(),
                self@ == (SessionView { buffer: Seq::empty(), ..start }),
                start == old(self)@,
                start.state == SessionState::AwaitingMatch,
                start.pending is None,
                start.buffer == all,
                rest.len() <= all.len(),
                rest@ == all.subrange(all.len() - rest.len(), all.len() as int),
                forall|i: int| 0 <= i < all.len() - rest.len() ==> class_of(
                    #[trigger] all[i],
                    snapshot.last_update_id,
                    start.rule,
                ) == Classification::Stale,
            decreases rest.len(),
        {
            let ghost k = all.len() - rest.len();
            let event = rest.remove(0);
            assert(rest@ =~= all.subrange(k + 1, all.len() as int));
            assert(event == all[k]);
            match classify(
                event.first_update_id,
                event.last_update_id,
                snapshot.last_update_id,
                self.rule,
            ) {
                Classification::Stale => {},
                Classification::Match => {
                    assert(first_live(all, snapshot.last_update_id, start.rule, k));
                    self.store.load_snapshot(&snapshot);
                    self.store.add_event(event);
                    self.state = SessionState::Synced;
                    self.buffer = rest;
                    let r = Action::Publish(self.store.get_snapshot());
                    proof {
                        assert forall|j: int| #[trigger]
                            first_live(all, snapshot.last_update_id, start.rule, j) implies j == k by {
                            lemma_first_live_unique(all, snapshot.last_update_id, start.rule, j, k);
                        }
                    }
                    return r;
                },
                Classification::Ahead => {
                    assert(first_live(all, snapshot.last_update_id, start.rule, k));
                    self.state = SessionState::Faulted;
                    proof {
                        assert forall|j: int| #[trigger]
                            first_live(all, snapshot.last_update_id, start.rule, j) implies j == k by {
                            lemma_first_live_unique(all, snapshot.last_update_id, start.rule, j, k);
                        }
                    }
                    return Action::Restart;
                },
            }
        }
        self.pending = Some(snapshot);
        Action::Continue
    }

    /// Offers the oldest event still buffered after a match to the synced book:
    /// `None` where there is none; otherwise the action for that one event,
    /// as `on_event` gives it on a synced book.
    pub fn step_buffered(&mut self) -> (r: Option<Action>)
        requires
            old(self).wf(),
        ensures
            final(self).wf(),
            final(self)@.rule == old(self)@.rule,
            final(self)@.capacity == old(self)@.capacity,
            final(self)@.pending == old(self)@.pending,
            ({
                let o = old(self)@;
                let n = final(self)@;
                if o.state == SessionState::Synced && o.buffer.len() > 0 {
                    &&& n.buffer == o.buffer.drop_first()
                    &&& r matches Some(a) && match synced_step(o.book, o.buffer[0], o.rule) {
                        Some(b) => n.state == SessionState::Synced && n.book == b
                            && publishes(a, b),
                        None => n.state == SessionState::Faulted && n.book == o.book
                            && a is Restart,
                    }
                } else {
                    n == o && r is None
                }
            }),
    {
        if self.state != SessionState::Synced || self.buffer.len() == 0 {
            return None;
        }
        let ghost before = self.buffer@;
        let event = self.buffer.remove(0);
        assert(self.buffer@ =~= before.drop_first());
        Some(self.follow(event))
    }
}

/// An event whose ids run forward: its range is not empty and, where it names
/// the previous event's last id, that id comes before its first.
pub open spec fn well_formed(event: Event) -> bool {
    &&& event.first_update_id <= event.last_update_id
    &&& event.prev_last_update_id matches Some(p) ==> p < event.first_update_id
}

/// Along any chain of events applied to a synced book, the book's id is the
/// last id of the most recently applied event; with well-formed events these
/// ids strictly increase, starting above the book's id.
pub proof fn lemma_chain_ids(b: BookView, events: Seq<Event>, rule: MatchRule)
    requires
        apply_chain(b, events, rule) is Some,
    ensures
        events.len() == 0 ==> apply_chain(b, events, rule) == Some(b),
        events.len() > 0 ==> apply_chain(b, events, rule)->0.seq == events.last().last_update_id,
        (forall|i: int| 0 <= i < events.len() ==> well_formed(#[trigger] events[i])) ==> {
            &&& events.len() > 0 ==> b.seq < events[0].last_update_id
            &&& forall|i: int, j: int| 0 <= i < j < events.len() ==> events[i].last_update_id
                < events[j].last_update_id
        },
    decreases events.len(),
{
    if events.len() > 0 {
        let b1 = synced_step(b, events[0], rule)->0;
        let tail = events.drop_first();
        lemma_chain_ids(b1, tail, rule);
        if tail.len() > 0 {
            assert(tail.last() == events.last());
        }
        if forall|i: int| 0 <= i < events.len() ==> well_formed(#[trigger] events[i]) {
            assert(well_formed(events[0]));
            assert forall|i: int| 0 <= i < tail.len() implies well_formed(#[trigger] tail[i]) by {
                assert(tail[i] == events[i + 1]);
            }
            assert forall|i: int, j: int| 0 <= i < j < events.len() implies events[i].last_update_id
                < events[j].last_update_id by {
                assert(events[j] == tail[j - 1]);
                if i > 0 {
                    assert(events[i] == tail[i - 1]);
                } else if j > 1 {
                    assert(tail[0].last_update_id < tail[j - 1].last_update_id);
                }
            }
        }
    }
}

/// A synced book never takes the same event twice, nor any well-formed event
/// whose range overlaps ids already applied: the continuity check refuses it.
pub proof fn lemma_no_reapply(b: BookView, event: Event, rule: MatchRule)
    requires
        well_formed(event),
    ensures
        event.first_update_id <= b.seq ==> synced_step(b, event, rule) is None,
        synced_step(b, event, rule) matches Some(b1) ==> synced_step(b1, event, rule) is None,
{
}

/// The fixed-depth feed: each message replaces the whole book.
pub struct PartialDepthSession {
    store: Shared,
    received: bool,
}

impl PartialDepthSession {
    /// Whether a message was received yet.
    pub closed spec fn has_book(&self) -> bool {
        self.received
    }

    /// The book this session keeps.
    pub closed spec fn book(&self) -> BookView {
        self.store@
    }

    /// The book holds no level with a zero quantity.
    pub closed spec fn wf(&self) -> bool {
        self.store.wf()
    }

    /// A session that has received nothing yet.
    pub fn new() -> (r: PartialDepthSession)
        ensures
            r.wf(),
            !r.has_book(),
    {
        PartialDepthSession { store: Shared::new(), received: false }
    }

    /// Replaces the book by the levels of `level_event`, received at
    /// `time_stamp` (the event time where the message has none), and returns
    /// the copy to publish.
    pub fn on_message(&mut self, level_event: LevelEvent, time_stamp: i64) -> (r:
        BinanceSpotOrderBookSnapshot)
        requires
            old(self).wf(),
        ensures
            final(self).wf(),
            final(self).has_book(),
            final(self).book() == replaced(old(self).book(), level_event, time_stamp),
            copy_of(r, final(self).book()),
    {
        self.store.set_level_event(level_event, time_stamp);
        self.received = true;
        self.store.get_snapshot()
    }

    /// A copy of the book once a message was received; `None` before.
    pub fn current_if_ready(&self) -> (r: Option<BinanceSpotOrderBookSnapshot>)
        ensures
            r is Some <==> self.has_book(),
            r matches Some(s) ==> copy_of(s, self.book()),
    {
        if self.received {
            Some(self.store.get_snapshot())
        } else {
            None
        }
    }
}

} // verus!
