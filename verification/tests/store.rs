//! Tests of the mutable-row backing and its lifecycle operations.

use rxfill::dates::Date;
use rxfill::fill_request::Cycle;
use rxfill::fill_request::FillRequestStore;
use rxfill::FillRequestId;
use rxfill::RxId;

fn row(store: &FillRequestStore, rx: RxId, id: FillRequestId) -> Cycle {
    *store
        .list_cycles(rx)
        .iter()
        .find(|c| c.id == id)
        .expect("cycle should be on record")
}

#[test]
fn test_record_request() {
    let mut store = FillRequestStore::new();
    let result = store.record_fill_request(RxId(5), Date(100));
    assert_eq!(result, FillRequestId(1));
    let open = store.find_open_cycle(RxId(5)).unwrap();
    assert_eq!(open.id, FillRequestId(1));
    assert_eq!(open.rx, RxId(5));
    assert_eq!(open.date_requested, Some(Date(100)));
    assert_eq!(open.date_filled, None);
    assert_eq!(open.date_picked_up, None);
    assert!(!open.closed);
}

#[test]
fn find_open_cycle_on_empty_store() {
    let store = FillRequestStore::new();
    assert_eq!(store.find_open_cycle(RxId(1)), None);
}

#[test]
fn concrete_scenario() {
    let mut store = FillRequestStore::new();
    let id1 = store.record_fill_request(RxId(5), Date(1));
    assert_eq!(id1, FillRequestId(1));
    let c1 = store.find_open_cycle(RxId(5)).unwrap();
    assert_eq!(c1.date_requested, Some(Date(1)));
    assert!(!c1.closed);

    let id2 = store.record_fill_request(RxId(5), Date(2));
    assert_eq!(id2, FillRequestId(2));
    let c1_after = row(&store, RxId(5), id1);
    assert!(c1_after.closed);
    let open = store.find_open_cycle(RxId(5)).unwrap();
    assert_eq!(open.id, id2);
    assert_eq!(open.date_requested, Some(Date(2)));
    assert!(!open.closed);
}

#[test]
fn supersession_closes_prior_cycle_untouched() {
    let mut store = FillRequestStore::new();
    let rx = RxId(7);
    let id1 = store.record_fill_request(rx, Date(10));
    let id2 = store.record_fill_request(rx, Date(20));
    assert_ne!(id1, id2);

    let c1 = row(&store, rx, id1);
    assert!(c1.closed);
    assert_eq!(c1.date_requested, Some(Date(10)));
    assert_eq!(c1.date_filled, None);
    assert_eq!(c1.date_picked_up, None);

    let c2 = row(&store, rx, id2);
    assert!(!c2.closed);
    assert_eq!(c2.date_requested, Some(Date(20)));
}

#[test]
fn walk_in_pickup_creates_closed_cycle() {
    let mut store = FillRequestStore::new();
    let rx = RxId(3);
    assert_eq!(store.find_open_cycle(rx), None);
    let id = store.record_pickup(rx, Date(40), Date(41));
    let c = row(&store, rx, id);
    assert_eq!(c.date_requested, None);
    assert_eq!(c.date_filled, Some(Date(40)));
    assert_eq!(c.date_picked_up, Some(Date(41)));
    assert!(c.closed);
    assert_eq!(store.find_open_cycle(rx), None);
}

#[test]
fn pickup_reuses_open_cycle_in_place() {
    let mut store = FillRequestStore::new();
    let rx = RxId(9);
    let requested = store.record_fill_request(rx, Date(50));
    let picked = store.record_pickup(rx, Date(51), Date(52));
    assert_eq!(picked, requested);
    assert_eq!(store.list_cycles(rx).len(), 1);
    let c = row(&store, rx, requested);
    assert_eq!(c.date_requested, Some(Date(50)));
    assert_eq!(c.date_filled, Some(Date(51)));
    assert_eq!(c.date_picked_up, Some(Date(52)));
    assert!(c.closed);
}

#[test]
fn at_most_one_open_cycle_through_any_sequence() {
    let mut store = FillRequestStore::new();
    let rx = RxId(2);
    let other = RxId(4);
    let mut check = |store: &FillRequestStore| {
        for watched in [rx, other] {
            let cycles = store.list_cycles(watched);
            let open: Vec<&Cycle> = cycles.iter().filter(|c| !c.closed).collect();
            assert!(open.len() <= 1);
            if let Some(o) = open.first() {
                // the open cycle is the most recently created of its rx
                assert!(cycles.iter().all(|c| c.id == o.id || c.id.0 < o.id.0));
                assert_eq!(store.find_open_cycle(watched).unwrap().id, o.id);
            } else {
                assert_eq!(store.find_open_cycle(watched), None);
            }
        }
    };
    check(&store);
    store.record_fill_request(rx, Date(1));
    check(&store);
    store.record_fill_request(other, Date(2));
    check(&store);
    store.record_fill_request(rx, Date(3));
    check(&store);
    store.record_pickup(rx, Date(4), Date(5));
    check(&store);
    store.record_pickup(rx, Date(6), Date(7));
    check(&store);
    store.record_fill_request(rx, Date(8));
    check(&store);
    store.record_pickup(other, Date(9), Date(10));
    check(&store);
}

#[test]
fn closed_cycles_are_never_altered() {
    let mut store = FillRequestStore::new();
    let rx = RxId(6);
    let id1 = store.record_fill_request(rx, Date(1));
    store.record_fill_request(rx, Date(2));
    let frozen = row(&store, rx, id1);
    assert!(frozen.closed);

    store.record_pickup(rx, Date(3), Date(4));
    assert_eq!(row(&store, rx, id1), frozen);
    store.record_fill_request(rx, Date(5));
    assert_eq!(row(&store, rx, id1), frozen);
    store.record_pickup(rx, Date(6), Date(7));
    assert_eq!(row(&store, rx, id1), frozen);
}

#[test]
fn listing_orders_by_request_date_then_identity() {
    let mut store = FillRequestStore::new();
    let rx = RxId(1);
    let id1 = store.record_fill_request(rx, Date(5));
    store.record_pickup(rx, Date(5), Date(6));
    let id2 = store.record_pickup(rx, Date(7), Date(8)); // walk-in: no request date
    let id3 = store.record_fill_request(rx, Date(9));
    let id4 = store.record_fill_request(rx, Date(9)); // same date: newest identity first

    let listed: Vec<FillRequestId> = store.list_cycles(rx).iter().map(|c| c.id).collect();
    assert_eq!(listed, vec![id4, id3, id1, id2]);
}

#[test]
fn listing_is_per_prescription() {
    let mut store = FillRequestStore::new();
    store.record_fill_request(RxId(1), Date(5));
    store.record_fill_request(RxId(2), Date(6));
    let only = store.list_cycles(RxId(2));
    assert_eq!(only.len(), 1);
    assert_eq!(only[0].rx, RxId(2));
}
