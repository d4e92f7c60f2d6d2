use chaincerts_core::did::{is_registered, is_revoked, set_initial_dids, DidStore};
use chaincerts_core::error::ContractError;

fn strings(items: &[&str]) -> Vec<String> {
    items.iter().map(|s| s.to_string()).collect()
}

#[test]
fn seeded_dids_are_registered_and_active() {
    let mut store = DidStore::new();
    let dids = strings(&["did:chaincerts:ABC123", "did:chaincerts:XYZ789"]);
    assert_eq!(set_initial_dids(&mut store, &dids), Ok(()));
    for d in &dids {
        assert_eq!(is_revoked(&store, d), Some(false));
        assert!(is_registered(&store, d));
    }
}

#[test]
fn unseeded_did_is_absent_not_active() {
    let mut store = DidStore::new();
    let dids = strings(&["did:chaincerts:ABC123"]);
    set_initial_dids(&mut store, &dids).unwrap();
    let other = "did:chaincerts:OTHER".to_string();
    assert_eq!(is_revoked(&store, &other), None);
    assert!(!is_registered(&store, &other));
}

#[test]
fn empty_list_is_refused_and_store_untouched() {
    let mut store = DidStore::new();
    let dids = strings(&["did:chaincerts:ABC123"]);
    set_initial_dids(&mut store, &dids).unwrap();
    assert_eq!(set_initial_dids(&mut store, &Vec::new()), Err(ContractError::EmptyDIDs));
    assert_eq!(is_revoked(&store, &dids[0]), Some(false));
    assert!(is_registered(&store, &dids[0]));
}

#[test]
fn empty_list_on_fresh_store() {
    let mut store = DidStore::new();
    assert_eq!(set_initial_dids(&mut store, &Vec::new()), Err(ContractError::EmptyDIDs));
    assert!(!is_registered(&store, &"did:chaincerts:ABC123".to_string()));
}

#[test]
fn duplicate_dids_keep_one_active_record() {
    let mut store = DidStore::new();
    let dids = strings(&["did:chaincerts:A", "did:chaincerts:A", "did:chaincerts:B"]);
    assert_eq!(set_initial_dids(&mut store, &dids), Ok(()));
    assert_eq!(is_revoked(&store, &dids[0]), Some(false));
    assert_eq!(is_revoked(&store, &dids[2]), Some(false));
}

#[test]
fn reseeding_replaces_the_set() {
    let mut store = DidStore::new();
    set_initial_dids(&mut store, &strings(&["did:chaincerts:A"])).unwrap();
    set_initial_dids(&mut store, &strings(&["did:chaincerts:B"])).unwrap();
    assert!(!is_registered(&store, &"did:chaincerts:A".to_string()));
    assert!(is_registered(&store, &"did:chaincerts:B".to_string()));
}
