//! Tests of the prescription registry.

use rxfill::rx::normalize_rx_name;
use rxfill::rx::RxRegistry;
use rxfill::Error;
use rxfill::RxId;

#[test]
fn test_add_rx() {
    let mut reg = RxRegistry::new();
    assert_eq!(reg.add_rx(""), Err(Error::EmptyRxName));
    assert_eq!(reg.add_rx("  "), Err(Error::EmptyRxName));
    assert!(reg.list_all_rx().is_empty());

    assert_eq!(reg.add_rx("amoxicillin"), Ok(RxId(1)));

    // names are trimmed before they are recorded
    let trimmed_id = reg.add_rx("  amoxicillin  ").unwrap();
    assert_eq!(trimmed_id, RxId(2));
    assert_eq!(reg.get_rx(trimmed_id).unwrap().name, "amoxicillin");
}

#[test]
fn test_operation() {
    let mut reg = RxRegistry::new();
    assert!(reg.list_rx().is_empty());
    let amox_id = reg.add_rx("amoxicillin").unwrap();

    let amox_data = reg.get_rx(amox_id);
    assert!(amox_data.is_some());
    let amox_data = amox_data.unwrap();
    assert_eq!(amox_data.name, "amoxicillin");
    assert_eq!(amox_data.id, amox_id);
    assert_eq!(amox_data.hidden, false);

    let pred_id = reg.add_rx("prednisone").unwrap();

    let rxs = reg.list_rx();
    assert_eq!(rxs.len(), 2);
    assert!(rxs.contains(&amox_data));
    assert!(rxs
        .iter()
        .find(|e| e.name == "prednisone" && e.id == pred_id)
        .is_some());
}

#[test]
fn missing_prescription_is_not_found() {
    let mut reg = RxRegistry::new();
    reg.add_rx("amoxicillin").unwrap();
    assert_eq!(reg.get_rx(RxId(2)), None);
}

#[test]
fn normalize_rejects_blank_and_trims() {
    assert_eq!(normalize_rx_name(""), Err(Error::EmptyRxName));
    assert_eq!(normalize_rx_name(" \t "), Err(Error::EmptyRxName));
    assert_eq!(normalize_rx_name("  aspirin "), Ok("aspirin".to_string()));
    assert_eq!(normalize_rx_name("aspirin"), Ok("aspirin".to_string()));
}

#[test]
fn identifiers_are_assigned_in_order() {
    let mut reg = RxRegistry::new();
    assert_eq!(reg.add_rx("one"), Ok(RxId(1)));
    assert_eq!(reg.add_rx("two"), Ok(RxId(2)));
    assert_eq!(reg.add_rx(" "), Err(Error::EmptyRxName));
    // a rejected name consumes no identifier
    assert_eq!(reg.add_rx("three"), Ok(RxId(3)));
    let all = reg.list_all_rx();
    assert_eq!(all.len(), 3);
    assert_eq!(all[2].name, "three");
}
