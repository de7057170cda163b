use vstd::prelude::*;
use std::collections::BTreeMap;
use crate::gate::{continues, continues_spec, MatchRule};
use crate::levels::{
    all_positive, apply_rows, apply_to_side, ascending, descending, lemma_apply_rows_positive,
    lists_side, rows_ascending, rows_descending, side_of, DepthRow,
};

verus! {

/// An incremental depth update covering the ids `first_update_id ..= last_update_id`.
pub struct Event {
    /// Event time, in milliseconds.
    pub ts: i64,
    /// Transaction time, in milliseconds, where the protocol carries it.
    pub create_time: Option<i64>,
    pub first_update_id: i64,
    pub last_update_id: i64,
    /// The last id of the preceding event, where the protocol carries it.
    pub prev_last_update_id: Option<i64>,
    /// Changes to bid levels, in the order they apply.
    pub bids: Vec<DepthRow>,
    /// Changes to ask levels, in the order they apply.
    pub asks: Vec<DepthRow>,
}

impl Event {
    /// Whether this event starts at `expected_id`.
    pub fn match_seq_num(&self, expected_id: &i64) -> (r: bool)
        ensures
            r == (self.first_update_id == *expected_id),
    {
        self.first_update_id == *expected_id
    }

    /// Whether this event covers the id right after a snapshot at `updated_id`.
    pub fn match_snapshot(&self, updated_id: i64) -> (r: bool)
        ensures
            r == (self.first_update_id <= updated_id + 1 <= self.last_update_id),
    {
        let next = updated_id as i128 + 1;
        self.first_update_id as i128 <= next && next <= self.last_update_id as i128
    }

    /// Whether this event follows directly on a book at id `current`.
    pub fn follows(&self, current: i64, rule: MatchRule) -> (r: bool)
        ensures
            r == continues_spec(self.first_update_id as int, self.prev_last_update_id, current as int, rule),
    {
        continues(self.first_update_id, self.prev_last_update_id, current, rule)
    }
}

/// A futures-style depth update as the stream sends it; it names the last id
/// of the event before it.
pub struct EventPerpetualC {
    /// Event time, in milliseconds.
    pub event_time: i64,
    /// Transaction time, in milliseconds.
    pub create_time: i64,
    pub first_update_id: i64,
    pub last_update_id: i64,
    /// The last id of the preceding event.
    pub last_message_last_update_id: i64,
    pub bids: Vec<DepthRow>,
    pub asks: Vec<DepthRow>,
}

impl EventPerpetualC {
    /// Whether this event starts at `expected_id`.
    pub fn match_seq_num(&self, expected_id: &i64) -> (r: bool)
        ensures
            r == (self.first_update_id == *expected_id),
    {
        self.first_update_id == *expected_id
    }

    /// Whether this event covers the id of a snapshot at `snapshot_updated_id`.
    pub fn match_snapshot(&self, snapshot_updated_id: i64) -> (r: bool)
        ensures
            r == (self.first_update_id <= snapshot_updated_id <= self.last_update_id),
    {
        self.first_update_id <= snapshot_updated_id && snapshot_updated_id <= self.last_update_id
    }

    /// The update as a diff event, timed by its event time.
    pub fn into_event(self) -> (r: Event)
        ensures
            r.ts == self.event_time,
            r.create_time == Some(self.create_time),
            r.first_update_id == self.first_update_id,
            r.last_update_id == self.last_update_id,
            r.prev_last_update_id == Some(self.last_message_last_update_id),
            r.bids@ == self.bids@,
            r.asks@ == self.asks@,
    {
        Event {
            ts: self.event_time,
            create_time: Some(self.create_time),
            first_update_id: self.first_update_id,
            last_update_id: self.last_update_id,
            prev_last_update_id: Some(self.last_message_last_update_id),
            bids: self.bids,
            asks: self.asks,
        }
    }
}

/// A fixed-depth message: the top levels of both sides as of `last_update_id`.
pub struct LevelEvent {
    /// Event time, in milliseconds, where the protocol carries it.
    pub event_time: Option<i64>,
    /// Transaction time, in milliseconds, where the protocol carries it.
    pub create_time: Option<i64>,
    pub last_update_id: i64,
    pub bids: Vec<DepthRow>,
    pub asks: Vec<DepthRow>,
}

/// A full book as fetched on request, complete as of `last_update_id`.
pub struct BinanceSnapshot {
    /// Event time, in milliseconds, where the endpoint gives it.
    pub event_time: Option<i64>,
    /// Transaction time, in milliseconds, where the endpoint gives it.
    pub create_time: Option<i64>,
    pub last_update_id: i64,
    pub bids: Vec<DepthRow>,
    pub asks: Vec<DepthRow>,
}

impl BinanceSnapshot {
    /// Each side lists distinct prices, each with a positive quantity.
    pub open spec fn valid(&self) -> bool {
        &&& side_valid(self.bids@)
        &&& side_valid(self.asks@)
    }
}

/// Rows with distinct prices and positive quantities.
pub open spec fn side_valid(rows: Seq<DepthRow>) -> bool {
    &&& forall|i: int| 0 <= i < rows.len() ==> #[trigger] rows[i].amount > 0
    &&& forall|i: int, j: int| 0 <= i < j < rows.len() ==> rows[i].price != rows[j].price
}

/// A read-only copy of a book: asks lowest first, bids highest first.
pub struct BinanceSpotOrderBookSnapshot {
    pub last_update_id: i64,
    /// The event time of the last update, in milliseconds.
    pub time_stamp: i64,
    /// The transaction time of the last update that carried one; zero before.
    pub create_time: i64,
    pub bids: Vec<DepthRow>,
    pub asks: Vec<DepthRow>,
}

/// Every row of `part` is also a row of `whole`.
pub open spec fn contains_all(whole: Seq<DepthRow>, part: Seq<DepthRow>) -> bool {
    forall|i: int| 0 <= i < part.len() ==> whole.contains(#[trigger] part[i])
}

/// The rows of `part` that are not rows of `whole`, in their order in `part`.
pub open spec fn missing(whole: Seq<DepthRow>, part: Seq<DepthRow>) -> Seq<DepthRow> {
    part.filter(|r: DepthRow| !whole.contains(r))
}

/// Whether `row` is one of `rows`.
fn has_row(rows: &Vec<DepthRow>, row: DepthRow) -> (r: bool)
    ensures
        r == rows@.contains(row),
{
    let mut i: usize = 0;
    while i < rows.len()
        invariant
            i <= rows.len(),
            forall|j: int| 0 <= j < i ==> rows@[j] != row,
        decreases rows.len() - i,
    {
        if rows[i] == row {
            return true;
        }
        i = i + 1;
    }
    false
}

/// Whether every row of `part` is one of `whole`.
fn has_all(whole: &Vec<DepthRow>, part: &Vec<DepthRow>) -> (r: bool)
    ensures
        r == contains_all(whole@, part@),
{
    let mut i: usize = 0;
    while i < part.len()
        invariant
            i <= part.len(),
            forall|j: int| 0 <= j < i ==> whole@.contains(#[trigger] part@[j]),
        decreases part.len() - i,
    {
        if !has_row(whole, part[i]) {
            return false;
        }
        i = i + 1;
    }
    true
}

/// The rows of `part` that are not rows of `whole`.
fn rows_missing(whole: &Vec<DepthRow>, part: &Vec<DepthRow>) -> (r: Vec<DepthRow>)
    ensures
        r@ == missing(whole@, part@),
{
    let mut out: Vec<DepthRow> = Vec::new();
    let mut i: usize = 0;
    while i < part.len()
        invariant
            i <= part.len(),
            out@ == missing(whole@, part@.subrange(0, i as int)),
        decreases part.len() - i,
    {
        let row = part[i];
        proof {
            reveal(Seq::filter);
            assert(part@.subrange(0, i + 1).drop_last() =~= part@.subrange(0, i as int));
        }
        if !has_row(whole, row) {
            out.push(row);
        }
        i = i + 1;
    }
    assert(part@.subrange(0, part.len() as int) =~= part@);
    out
}

impl BinanceSpotOrderBookSnapshot {
    /// Whether every bid and every ask level of `other` is also a level of
    /// `self`, with the same quantity.
    pub fn if_contains(&self, other: &BinanceSpotOrderBookSnapshot) -> (r: bool)
        ensures
            r == (contains_all(self.bids@, other.bids@) && contains_all(self.asks@, other.asks@)),
    {
        let contains_bids = has_all(&self.bids, &other.bids);
        let contains_asks = has_all(&self.asks, &other.asks);
        contains_bids && contains_asks
    }

    /// The bid and the ask levels of `other` that are not levels of `self`,
    /// as `(bids, asks)`.
    pub fn find_different(&self, other: &BinanceSpotOrderBookSnapshot) -> (r: (
        Vec<DepthRow>,
        Vec<DepthRow>,
    ))
        ensures
            r.0@ == missing(self.bids@, other.bids@),
            r.1@ == missing(self.asks@, other.asks@),
    {
        (rows_missing(&self.bids, &other.bids), rows_missing(&self.asks, &other.asks))
    }
}

/// What a book holds: its id, its time, and each side as price to quantity.
pub struct BookView {
    pub seq: int,
    pub time_stamp: int,
    pub create_time: int,
    pub asks: Map<u64, u64>,
    pub bids: Map<u64, u64>,
}

/// The book after the changes of `event` are applied to `b`.
pub open spec fn after_event(b: BookView, event: Event) -> BookView {
    BookView {
        seq: event.last_update_id as int,
        time_stamp: event.ts as int,
        create_time: time_or(event.create_time, b.create_time),
        asks: apply_rows(b.asks, event.asks@),
        bids: apply_rows(b.bids, event.bids@),
    }
}

/// A time carried by a record, or `otherwise` where it carries none.
pub open spec fn time_or(t: Option<i64>, otherwise: int) -> int {
    match t {
        Some(v) => v as int,
        None => otherwise,
    }
}

/// The book after `snapshot` is loaded into `b`: both sides replaced, the id
/// and the times taken from the snapshot; a time it does not give is kept.
pub open spec fn loaded(b: BookView, snapshot: BinanceSnapshot) -> BookView {
    BookView {
        seq: snapshot.last_update_id as int,
        time_stamp: time_or(snapshot.event_time, b.time_stamp),
        create_time: time_or(snapshot.create_time, b.create_time),
        asks: side_of(snapshot.asks@),
        bids: side_of(snapshot.bids@),
    }
}

/// The book after the fixed-depth message `level_event`, received at
/// `time_stamp`, replaces `b`: both sides and the id taken from the message,
/// its own event time where it has one and else the receive time, its
/// transaction time where it has one and else the one `b` had.
pub open spec fn replaced(b: BookView, level_event: LevelEvent, time_stamp: i64) -> BookView {
    BookView {
        seq: level_event.last_update_id as int,
        time_stamp: time_or(level_event.event_time, time_stamp as int),
        create_time: time_or(level_event.create_time, b.create_time),
        asks: side_of(level_event.asks@),
        bids: side_of(level_event.bids@),
    }
}

/// `s` is a read-out of the book `b`: same id and times, every level once,
/// asks lowest price first and bids highest price first.
pub open spec fn copy_of(s: BinanceSpotOrderBookSnapshot, b: BookView) -> bool {
    &&& s.last_update_id == b.seq
    &&& s.time_stamp == b.time_stamp
    &&& s.create_time == b.create_time
    &&& lists_side(s.asks@, b.asks)
    &&& ascending(s.asks@)
    &&& lists_side(s.bids@, b.bids)
    &&& descending(s.bids@)
}

/// The live order book: one side of price levels each for bids and asks.
pub struct Shared {
    last_update_id: i64,
    time_stamp: i64,
    create_time: i64,
    asks: BTreeMap<u64, u64>,
    bids: BTreeMap<u64, u64>,
}

impl View for Shared {
    type V = BookView;

    closed spec fn view(&self) -> BookView {
        BookView {
            seq: self.last_update_id as int,
            time_stamp: self.time_stamp as int,
            create_time: self.create_time as int,
            asks: self.asks@,
            bids: self.bids@,
        }
    }
}

impl Shared {
    /// No level of the book has a zero quantity.
    pub open spec fn wf(&self) -> bool {
        &&& all_positive(self@.asks)
        &&& all_positive(self@.bids)
    }

    /// An empty book at id zero.
    pub fn new() -> (r: Shared)
        ensures
            r.wf(),
            r@ == (BookView {
                seq: 0,
                time_stamp: 0,
                create_time: 0,
                asks: Map::empty(),
                bids: Map::empty(),
            }),
    {
        Shared {
            last_update_id: 0,
            time_stamp: 0,
            create_time: 0,
            asks: BTreeMap::new(),
            bids: BTreeMap::new(),
        }
    }

    /// The id of the last snapshot loaded or event applied.
    pub fn id(&self) -> (r: i64)
        ensures
            r == self@.seq,
    {
        self.last_update_id
    }

    /// Replaces both sides by the levels of `snapshot` and takes its id.
    pub fn load_snapshot(&mut self, snapshot: &BinanceSnapshot)
        requires
            old(self).wf(),
        ensures
            final(self).wf(),
            final(self)@ == loaded(old(self)@, *snapshot),
    {
        self.asks.clear();
        apply_to_side(&mut self.asks, &snapshot.asks);
        self.bids.clear();
        apply_to_side(&mut self.bids, &snapshot.bids);
        self.last_update_id = snapshot.last_update_id;
        if let Some(t) = snapshot.event_time {
            self.time_stamp = t;
        }
        if let Some(t) = snapshot.create_time {
            self.create_time = t;
        }
        proof {
            lemma_apply_rows_positive(Map::empty(), snapshot.asks@);
            lemma_apply_rows_positive(Map::empty(), snapshot.bids@);
        }
    }

    /// Applies the level changes of `event` and takes its last id and event
    /// time, and its transaction time where it has one.
    ///
    /// Continuity is not checked here; see `update_snapshot`.
    pub fn add_event(&mut self, event: Event)
        requires
            old(self).wf(),
        ensures
            final(self).wf(),
            final(self)@ == after_event(old(self)@, event),
    {
        proof {
            lemma_apply_rows_positive(self@.asks, event.asks@);
            lemma_apply_rows_positive(self@.bids, event.bids@);
        }
        apply_to_side(&mut self.asks, &event.asks);
        apply_to_side(&mut self.bids, &event.bids);
        self.last_update_id = event.last_update_id;
        self.time_stamp = event.ts;
        if let Some(t) = event.create_time {
            self.create_time = t;
        }
    }

    /// Replaces both sides by the levels of a fixed-depth message and takes its
    /// id. The message's own times are taken where it has them; otherwise the
    /// event time is the receive time `time_stamp` and the transaction time is
    /// kept.
    pub fn set_level_event(&mut self, level_event: LevelEvent, time_stamp: i64)
        requires
            old(self).wf(),
        ensures
            final(self).wf(),
            final(self)@ == replaced(old(self)@, level_event, time_stamp),
    {
        self.asks.clear();
        apply_to_side(&mut self.asks, &level_event.asks);
        self.bids.clear();
        apply_to_side(&mut self.bids, &level_event.bids);
        self.last_update_id = level_event.last_update_id;
        self.time_stamp = match level_event.event_time {
            Some(t) => t,
            None => time_stamp,
        };
        if let Some(t) = level_event.create_time {
            self.create_time = t;
        }
        proof {
            lemma_apply_rows_positive(Map::empty(), level_event.asks@);
            lemma_apply_rows_positive(Map::empty(), level_event.bids@);
        }
    }

    /// A copy of the book: asks lowest price first, bids highest price first.
    pub fn get_snapshot(&self) -> (r: BinanceSpotOrderBookSnapshot)
        ensures
            copy_of(r, self@),
            self.wf() ==> forall|i: int| 0 <= i < r.asks@.len() ==> #[trigger] r.asks@[i].amount > 0,
            self.wf() ==> forall|i: int| 0 <= i < r.bids@.len() ==> #[trigger] r.bids@[i].amount > 0,
    {
        let bids = rows_descending(&self.bids);
        let asks = rows_ascending(&self.asks);
        assert forall|i: int| 0 <= i < asks@.len() implies self.wf() ==> #[trigger] asks@[i].amount
            > 0 by {
            assert(self.asks@.contains_key(asks@[i].price));
        }
        assert forall|i: int| 0 <= i < bids@.len() implies self.wf() ==> #[trigger] bids@[i].amount
            > 0 by {
            assert(self.bids@.contains_key(bids@[i].price));
        }
        BinanceSpotOrderBookSnapshot {
            last_update_id: self.last_update_id,
            time_stamp: self.time_stamp,
            create_time: self.create_time,
            bids,
            asks,
        }
    }

    /// Applies `event` if it follows directly on the book under `rule`: by the
    /// previous event's last id for the futures-style protocol, by the next id
    /// for the spot-style one. Otherwise leaves the book as it is and reports
    /// the gap.
    pub fn update_snapshot(&mut self, event: Event, rule: MatchRule) -> (r: Result<(), GapDetected>)
        requires
            old(self).wf(),
        ensures
            final(self).wf(),
            r is Ok <==> continues_spec(
                event.first_update_id as int,
                event.prev_last_update_id,
                old(self)@.seq,
                rule,
            ),
            r is Ok ==> final(self)@ == after_event(old(self)@, event),
            r is Err ==> final(self)@ == old(self)@,
            r matches Err(g) ==> g.current_id == old(self)@.seq && g.first_update_id
                == event.first_update_id,
    {
        if event.follows(self.last_update_id, rule) {
            self.add_event(event);
            Ok(())
        } else {
            Err(GapDetected { current_id: self.last_update_id, first_update_id: event.first_update_id })
        }
    }
}

/// An event that does not follow directly on the book it was offered to.
#[derive(Clone, Copy, Debug, PartialEq, Eq, Structural)]
pub struct GapDetected {
    /// The book's id when the event came.
    pub current_id: i64,
    /// The event's first id.
    pub first_update_id: i64,
}

/// The side built from rows with distinct prices holds exactly those rows.
proof fn lemma_side_of_valid(rows: Seq<DepthRow>)
    requires
        side_valid(rows),
    ensures
        forall|p: u64| #[trigger] side_of(rows).contains_key(p) <==> exists|i: int|
            0 <= i < rows.len() && #[trigger] rows[i].price == p,
        forall|i: int| 0 <= i < rows.len() ==> side_of(rows)[#[trigger] rows[i].price]
            == rows[i].amount,
    decreases rows.len(),
{
    if rows.len() > 0 {
        let init = rows.drop_last();
        assert(side_valid(init));
        lemma_side_of_valid(init);
        let last = rows.last();
        assert(rows[rows.len() - 1].amount > 0);
        assert(side_of(rows) == side_of(init).insert(last.price, last.amount));
        assert forall|p: u64| #[trigger] side_of(rows).contains_key(p) <==> exists|i: int|
            0 <= i < rows.len() && #[trigger] rows[i].price == p by {
            if side_of(rows).contains_key(p) && p != last.price {
                let i = choose|i: int| 0 <= i < init.len() && #[trigger] init[i].price == p;
                assert(rows[i].price == p);
            }
            if exists|i: int| 0 <= i < rows.len() && #[trigger] rows[i].price == p {
                let i = choose|i: int| 0 <= i < rows.len() && #[trigger] rows[i].price == p;
                if i < rows.len() - 1 {
                    assert(init[i].price == p);
                }
            }
        }
        assert forall|i: int| 0 <= i < rows.len() implies side_of(rows)[#[trigger] rows[i].price]
            == rows[i].amount by {
            if i < rows.len() - 1 {
                assert(init[i] == rows[i]);
                assert(rows[i].price != last.price);
            }
        }
    }
}

/// Reading back a loaded book never shows a level with a zero quantity,
/// whatever the snapshot held.
pub proof fn lemma_loaded_read_positive(
    b: BookView,
    snapshot: BinanceSnapshot,
    s: BinanceSpotOrderBookSnapshot,
)
    requires
        copy_of(s, loaded(b, snapshot)),
    ensures
        forall|i: int| 0 <= i < s.asks@.len() ==> #[trigger] s.asks@[i].amount > 0,
        forall|i: int| 0 <= i < s.bids@.len() ==> #[trigger] s.bids@[i].amount > 0,
{
    lemma_apply_rows_positive(Map::empty(), snapshot.asks@);
    lemma_apply_rows_positive(Map::empty(), snapshot.bids@);
    assert forall|i: int| 0 <= i < s.asks@.len() implies #[trigger] s.asks@[i].amount > 0 by {
        assert(side_of(snapshot.asks@).contains_key(s.asks@[i].price));
    }
    assert forall|i: int| 0 <= i < s.bids@.len() implies #[trigger] s.bids@[i].amount > 0 by {
        assert(side_of(snapshot.bids@).contains_key(s.bids@[i].price));
    }
}

/// A read-out of the side built from valid rows holds the same rows.
proof fn lemma_side_round_trip(rows: Seq<DepthRow>, out: Seq<DepthRow>)
    requires
        side_valid(rows),
        lists_side(out, side_of(rows)),
    ensures
        out.to_set() == rows.to_set(),
{
    lemma_side_of_valid(rows);
    assert forall|x: DepthRow| out.to_set().contains(x) <==> rows.to_set().contains(x) by {
        if out.to_set().contains(x) {
            let j = choose|j: int| 0 <= j < out.len() && out[j] == x;
            assert(side_of(rows).contains_key(out[j].price));
            let i = choose|i: int| 0 <= i < rows.len() && #[trigger] rows[i].price == x.price;
            assert(rows[i] == x);
            assert(rows.contains(x));
        }
        if rows.to_set().contains(x) {
            let i = choose|i: int| 0 <= i < rows.len() && rows[i] == x;
            assert(side_of(rows).contains_key(rows[i].price));
            let j = choose|j: int| 0 <= j < out.len() && #[trigger] out[j].price == x.price;
            assert(out[j] == x);
            assert(out.contains(x));
        }
    }
    assert(out.to_set() =~= rows.to_set());
}

/// Loading a valid snapshot and reading the book straight back gives the
/// snapshot again: its id, and on each side the same set of (price, quantity)
/// levels.
pub proof fn lemma_load_read_round_trip(
    b: BookView,
    snapshot: BinanceSnapshot,
    s: BinanceSpotOrderBookSnapshot,
)
    requires
        snapshot.valid(),
        copy_of(s, loaded(b, snapshot)),
    ensures
        s.last_update_id == snapshot.last_update_id,
        s.asks@.to_set() == snapshot.asks@.to_set(),
        s.bids@.to_set() == snapshot.bids@.to_set(),
{
    lemma_side_round_trip(snapshot.asks@, s.asks@);
    lemma_side_round_trip(snapshot.bids@, s.bids@);
}

/// The spot-style names of the book and its records.
pub type SharedSpot = Shared;

pub type EventSpot = Event;

pub type LevelEventSpot = LevelEvent;

pub type BinanceSnapshotSpot = BinanceSnapshot;

/// The futures-style names of the book and its records.
pub type SharedPerpetualC = Shared;

pub type LevelEventPerpetualC = LevelEvent;

pub type BinanceSnapshotPerpetualC = BinanceSnapshot;

} // verus!
