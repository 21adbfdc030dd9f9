//! Tests of the backing-independent engine: the same operations, run
//! against the row store and against the event log, answer alike.

use rxfill::dates::Date;
use rxfill::engine::CycleStore;
use rxfill::events::CycleView;
use rxfill::events::EventLog;
use rxfill::fill_request::FillRequestStore;
use rxfill::RxId;

fn both() -> [CycleStore; 2] {
    [
        CycleStore::Rows(FillRequestStore::new()),
        CycleStore::Log(EventLog::new()),
    ]
}

#[test]
fn backings_agree_on_request_then_pickup() {
    let rx = RxId(1);
    for mut store in both() {
        assert_eq!(store.find_open_cycle(rx), None);

        store.record_fill_request(rx, Date(1));
        assert_eq!(
            store.find_open_cycle(rx),
            Some(CycleView {
                date_requested: Some(Date(1)),
                date_filled: None,
                date_picked_up: None,
                closed: false,
            })
        );

        store.record_pickup(rx, Date(2), Date(3));
        assert_eq!(store.find_open_cycle(rx), None);
    }
}

#[test]
fn backings_agree_on_supersession() {
    let rx = RxId(2);
    for mut store in both() {
        store.record_fill_request(rx, Date(1));
        store.record_fill_request(rx, Date(5));
        assert_eq!(
            store.find_open_cycle(rx),
            Some(CycleView {
                date_requested: Some(Date(5)),
                date_filled: None,
                date_picked_up: None,
                closed: false,
            })
        );
    }
}

#[test]
fn only_the_row_backing_names_identities() {
    let rx = RxId(3);
    let mut rows = CycleStore::Rows(FillRequestStore::new());
    let mut log = CycleStore::Log(EventLog::new());
    assert!(rows.record_fill_request(rx, Date(1)).is_some());
    assert!(log.record_fill_request(rx, Date(1)).is_none());
    assert!(rows.record_pickup(rx, Date(2), Date(3)).is_some());
    assert!(log.record_pickup(rx, Date(2), Date(3)).is_none());
}
