use orderbook_sync::gate::MatchRule;
use orderbook_sync::levels::DepthRow;
use orderbook_sync::store::{
    BinanceSnapshot, BinanceSpotOrderBookSnapshot, Event, EventPerpetualC, GapDetected, LevelEvent,
    Shared, SharedPerpetualC,
};

const UNIT: u64 = 100_000_000;

fn row(price: u64, amount: u64) -> DepthRow {
    DepthRow { price, amount }
}

fn event(first: i64, last: i64, bids: Vec<DepthRow>, asks: Vec<DepthRow>) -> Event {
    Event {
        create_time: None,
        ts: 7,
        first_update_id: first,
        last_update_id: last,
        prev_last_update_id: None,
        bids,
        asks,
    }
}

fn pairs(rows: &[DepthRow]) -> Vec<(u64, u64)> {
    rows.iter().map(|r| (r.price, r.amount)).collect()
}

#[test]
fn binance_perpetual_c_depth_row() {
    let a = DepthRow { amount: UNIT, price: 2 * UNIT };
    let b = DepthRow { amount: UNIT, price: 2 * UNIT };
    assert_eq!(a, b);
}

#[test]
fn binance_spot_depth_row() {
    let a = DepthRow { amount: UNIT, price: 2 * UNIT };
    let b = DepthRow { amount: UNIT, price: 2 * UNIT };
    assert_eq!(a, b);
}

#[test]
fn deep_depth_row() {
    let a = DepthRow { amount: UNIT, price: 2 * UNIT };
    let b = DepthRow { amount: UNIT, price: 2 * UNIT };
    assert_eq!(a, b);
}

fn book(bids: Vec<DepthRow>, asks: Vec<DepthRow>) -> BinanceSpotOrderBookSnapshot {
    BinanceSpotOrderBookSnapshot { last_update_id: 0, time_stamp: 0, create_time: 0, bids, asks }
}

#[test]
fn if_contains_test() {
    // 1.0 @ 2.0, 1.1 @ 2.2, 1.2 @ 2.4, 1.3 @ 2.6 in units of 10^-8.
    let a = DepthRow { amount: 100_000_000, price: 200_000_000 };
    let b = DepthRow { amount: 110_000_000, price: 220_000_000 };
    let c = DepthRow { amount: 120_000_000, price: 240_000_000 };
    let d = DepthRow { amount: 130_000_000, price: 260_000_000 };
    let order_a = book(vec![a, b, c], vec![a, b, c]);
    let order_b = book(vec![a, b], vec![a, b]);
    let order_c = book(vec![a, b, d], vec![a, b]);
    let order_d = book(vec![a, b], vec![a, b, d]);
    let order_e = book(vec![a, b, d], vec![a, b, d]);

    assert!(order_a.if_contains(&order_b));
    assert!(!order_a.if_contains(&order_c));
    assert!(!order_a.if_contains(&order_d));
    assert!(!order_a.if_contains(&order_e));
}

#[test]
fn find_different_lists_missing_levels_per_side() {
    let a = row(200, 1);
    let b = row(220, 2);
    let d = row(260, 3);
    let mine = book(vec![a, b], vec![a]);
    let other = book(vec![d, a, row(200, 9)], vec![a, b]);
    let (bids, asks) = mine.find_different(&other);
    assert_eq!(bids, vec![d, row(200, 9)]);
    assert_eq!(asks, vec![b]);
    let (bids, asks) = mine.find_different(&mine);
    assert!(bids.is_empty() && asks.is_empty());
}

#[test]
fn new_book_is_empty_at_zero() {
    let store = Shared::new();
    assert_eq!(store.id(), 0);
    let s = store.get_snapshot();
    assert_eq!(s.last_update_id, 0);
    assert!(s.bids.is_empty() && s.asks.is_empty());
}

#[test]
fn read_orders_asks_up_and_bids_down() {
    let mut store = Shared::new();
    let snap = BinanceSnapshot {
        event_time: None,
        create_time: None,
        last_update_id: 42,
        bids: vec![row(10, 1), row(30, 3), row(20, 2)],
        asks: vec![row(50, 5), row(40, 4), row(60, 6)],
    };
    store.load_snapshot(&snap);
    let s = store.get_snapshot();
    assert_eq!(s.last_update_id, 42);
    assert_eq!(pairs(&s.bids), vec![(30, 3), (20, 2), (10, 1)]);
    assert_eq!(pairs(&s.asks), vec![(40, 4), (50, 5), (60, 6)]);
}

#[test]
fn loaded_read_never_shows_zero_quantities() {
    let mut store = Shared::new();
    let snap = BinanceSnapshot {
        event_time: None,
        create_time: None,
        last_update_id: 5,
        bids: vec![row(10, 0), row(11, 4)],
        asks: vec![row(12, 0), row(13, 0)],
    };
    store.load_snapshot(&snap);
    let s = store.get_snapshot();
    assert!(s.bids.iter().chain(s.asks.iter()).all(|r| r.amount > 0));
    assert_eq!(pairs(&s.bids), vec![(11, 4)]);
    assert!(s.asks.is_empty());
}

#[test]
fn load_then_read_gives_the_same_levels() {
    let mut store = Shared::new();
    store.add_event(event(1, 3, vec![row(99, 9)], vec![row(101, 1)]));
    let snap = BinanceSnapshot {
        event_time: None,
        create_time: None,
        last_update_id: 77,
        bids: vec![row(20, 2), row(30, 3), row(10, 1)],
        asks: vec![row(60, 6), row(40, 4)],
    };
    store.load_snapshot(&snap);
    let s = store.get_snapshot();
    let mut got_bids = pairs(&s.bids);
    let mut want_bids = pairs(&snap.bids);
    got_bids.sort();
    want_bids.sort();
    assert_eq!(got_bids, want_bids);
    let mut got_asks = pairs(&s.asks);
    let mut want_asks = pairs(&snap.asks);
    got_asks.sort();
    want_asks.sort();
    assert_eq!(got_asks, want_asks);
    assert_eq!(s.last_update_id, 77);
}

#[test]
fn load_of_empty_snapshot_clears_the_book() {
    let mut store = Shared::new();
    store.add_event(event(1, 3, vec![row(99, 9)], vec![row(101, 1)]));
    store.load_snapshot(&BinanceSnapshot {
        event_time: None,
        create_time: None,
        last_update_id: 8,
        bids: vec![],
        asks: vec![],
    });
    let s = store.get_snapshot();
    assert!(s.bids.is_empty() && s.asks.is_empty());
    assert_eq!(store.id(), 8);
}

#[test]
fn diff_sets_updates_and_removes_levels() {
    let mut store = Shared::new();
    store.load_snapshot(&BinanceSnapshot {
        event_time: None,
        create_time: None,
        last_update_id: 10,
        bids: vec![row(10, 1), row(9, 1)],
        asks: vec![row(11, 1), row(12, 1)],
    });
    // The same price twice in one diff: the later change wins.
    store.add_event(event(
        11,
        14,
        vec![row(10, 0), row(8, 5), row(9, 3), row(9, 4)],
        vec![row(12, 0), row(13, 2), row(14, 0)],
    ));
    let s = store.get_snapshot();
    assert_eq!(store.id(), 14);
    assert_eq!(s.time_stamp, 7);
    assert_eq!(pairs(&s.bids), vec![(9, 4), (8, 5)]);
    assert_eq!(pairs(&s.asks), vec![(11, 1), (13, 2)]);
}

#[test]
fn update_snapshot_applies_only_the_next_event() {
    let spot = MatchRule::OffsetPlusOne;
    let mut store = Shared::new();
    store.load_snapshot(&BinanceSnapshot {
        event_time: None,
        create_time: None,
        last_update_id: 100,
        bids: vec![],
        asks: vec![],
    });
    assert_eq!(store.update_snapshot(event(101, 103, vec![row(5, 5)], vec![]), spot), Ok(()));
    assert_eq!(store.id(), 103);
    let gap = store.update_snapshot(event(105, 106, vec![row(6, 6)], vec![]), spot);
    assert_eq!(gap, Err(GapDetected { current_id: 103, first_update_id: 105 }));
    assert_eq!(store.id(), 103);
    assert_eq!(pairs(&store.get_snapshot().bids), vec![(5, 5)]);
    // An event already applied is refused.
    assert!(store.update_snapshot(event(101, 103, vec![], vec![]), spot).is_err());
}

#[test]
fn futures_update_snapshot_chains_by_previous_last_id() {
    let futures = MatchRule::OffsetZero;
    let mut store = SharedPerpetualC::new();
    store.load_snapshot(&BinanceSnapshot {
        event_time: None,
        create_time: None,
        last_update_id: 100,
        bids: vec![],
        asks: vec![],
    });
    let mut e = event(105, 108, vec![row(5, 5)], vec![]);
    e.prev_last_update_id = Some(100);
    assert_eq!(store.update_snapshot(e, futures), Ok(()));
    assert_eq!(store.id(), 108);
    let mut next = event(109, 110, vec![], vec![]);
    next.prev_last_update_id = Some(107);
    let gap = store.update_snapshot(next, futures);
    assert_eq!(gap, Err(GapDetected { current_id: 108, first_update_id: 109 }));
    assert_eq!(store.id(), 108);
    // Without a previous-last id the futures rule cannot chain the event.
    assert!(store.update_snapshot(event(109, 110, vec![], vec![]), futures).is_err());
}

#[test]
fn level_event_replaces_both_sides() {
    let mut store = Shared::new();
    store.load_snapshot(&BinanceSnapshot {
        event_time: None,
        create_time: None,
        last_update_id: 3,
        bids: vec![row(10, 1)],
        asks: vec![row(11, 1)],
    });
    store.set_level_event(
        LevelEvent {
            event_time: None,
            create_time: None,
            last_update_id: 9,
            bids: vec![row(8, 2), row(7, 0)],
            asks: vec![row(12, 3)],
        },
        1234,
    );
    let s = store.get_snapshot();
    assert_eq!(s.last_update_id, 9);
    assert_eq!(s.time_stamp, 1234);
    assert_eq!(pairs(&s.bids), vec![(8, 2)]);
    assert_eq!(pairs(&s.asks), vec![(12, 3)]);
}

#[test]
fn spot_event_matching_rules() {
    let e = event(199, 202, vec![], vec![]);
    assert!(e.match_snapshot(200));
    assert!(!e.match_snapshot(202));
    assert!(e.match_snapshot(198));
    assert!(!e.match_snapshot(197));
    assert!(e.match_seq_num(&199));
    assert!(!e.match_seq_num(&200));
}

#[test]
fn futures_event_matching_rules_and_conversion() {
    let e = EventPerpetualC {
        event_time: 11,
        create_time: 10,
        first_update_id: 96,
        last_update_id: 101,
        last_message_last_update_id: 95,
        bids: vec![row(1, 1)],
        asks: vec![],
    };
    assert!(e.match_snapshot(100));
    assert!(e.match_snapshot(96));
    assert!(!e.match_snapshot(95));
    assert!(!e.match_snapshot(102));
    assert!(e.match_seq_num(&96));
    let d = e.into_event();
    assert_eq!(d.prev_last_update_id, Some(95));
    assert_eq!((d.first_update_id, d.last_update_id, d.ts), (96, 101, 11));
    assert_eq!(d.bids, vec![row(1, 1)]);
}

#[test]
fn futures_book_keeps_event_and_transaction_times() {
    let mut store = SharedPerpetualC::new();
    store.load_snapshot(&BinanceSnapshot {
        event_time: Some(1_000),
        create_time: Some(990),
        last_update_id: 100,
        bids: vec![row(10, 1)],
        asks: vec![row(11, 1)],
    });
    let s = store.get_snapshot();
    assert_eq!((s.time_stamp, s.create_time), (1_000, 990));

    let e = EventPerpetualC {
        event_time: 1_100,
        create_time: 1_090,
        first_update_id: 101,
        last_update_id: 104,
        last_message_last_update_id: 100,
        bids: vec![row(9, 2)],
        asks: vec![],
    };
    let d = e.into_event();
    assert_eq!((d.ts, d.create_time), (1_100, Some(1_090)));
    assert_eq!(store.update_snapshot(d, MatchRule::OffsetZero), Ok(()));
    let s = store.get_snapshot();
    assert_eq!((s.last_update_id, s.time_stamp, s.create_time), (104, 1_100, 1_090));
}

#[test]
fn futures_level_message_brings_its_own_times() {
    let mut store = SharedPerpetualC::new();
    store.set_level_event(
        LevelEvent {
            event_time: Some(2_000),
            create_time: Some(1_995),
            last_update_id: 50,
            bids: vec![row(8, 1)],
            asks: vec![row(9, 1)],
        },
        7_777,
    );
    let s = store.get_snapshot();
    assert_eq!((s.last_update_id, s.time_stamp, s.create_time), (50, 2_000, 1_995));
}

#[test]
fn spot_records_without_times_keep_or_take_receive_time() {
    let mut store = Shared::new();
    store.add_event(event(1, 2, vec![row(1, 1)], vec![]));
    let s = store.get_snapshot();
    assert_eq!((s.time_stamp, s.create_time), (7, 0));
    store.load_snapshot(&BinanceSnapshot {
        event_time: None,
        create_time: None,
        last_update_id: 3,
        bids: vec![],
        asks: vec![],
    });
    assert_eq!(store.get_snapshot().time_stamp, 7);
    store.set_level_event(
        LevelEvent {
            event_time: None,
            create_time: None,
            last_update_id: 4,
            bids: vec![],
            asks: vec![],
        },
        4_242,
    );
    let s = store.get_snapshot();
    assert_eq!((s.time_stamp, s.create_time), (4_242, 0));
}
