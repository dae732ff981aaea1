use record_store::{Error, Payload, Record, Store};

fn payload(title: &str, body: &str, deadline: Option<u64>) -> Payload {
    Payload { title: title.to_string(), body: body.to_string(), deadline }
}

fn must_create(store: &mut Store, owner: &str, title: &str, deadline: Option<u64>, now: u64) -> Record {
    match store.create(&owner.to_string(), payload(title, "body", deadline), now) {
        Ok(rec) => rec,
        Err(_) => panic!("create failed"),
    }
}

#[test]
fn create_ids_distinct_and_increasing() {
    let mut store = Store::new();
    let owner = "alice".to_string();
    let mut ids: Vec<u64> = Vec::new();
    for i in 0..5u64 {
        let rec = match store.create(&owner, payload("t", "b", None), i) {
            Ok(rec) => rec,
            Err(_) => panic!("create failed"),
        };
        ids.push(rec.id);
    }
    for i in 0..ids.len() {
        for j in (i + 1)..ids.len() {
            assert!(ids[i] < ids[j]);
        }
    }
}

#[test]
fn ids_not_reissued_after_delete() {
    let mut store = Store::new();
    let owner = "alice".to_string();
    let a = must_create(&mut store, "alice", "t", None, 1);
    let b = must_create(&mut store, "alice", "t", None, 2);
    assert!(store.delete(&owner, b.id).is_ok());
    assert!(store.delete(&owner, a.id).is_ok());
    let c = must_create(&mut store, "alice", "t", None, 3);
    assert!(c.id > b.id);
}

#[test]
fn round_trip_create_get() {
    let mut store = Store::new();
    let owner = "alice".to_string();
    let rec = match store.create(&owner, payload("A", "B", Some(100)), 7) {
        Ok(rec) => rec,
        Err(_) => panic!("create failed"),
    };
    let got = match store.get(rec.id) {
        Ok(got) => got,
        Err(_) => panic!("get failed"),
    };
    assert_eq!(got.title, "A");
    assert_eq!(got.body, "B");
    assert_eq!(got.deadline, Some(100));
    assert_eq!(got.owner, "alice");
    assert_eq!(got.created_at, 7);
    assert_eq!(got.updated_at, None);
    assert!(!got.completed);
    assert!(!got.completed_late);
}

#[test]
fn round_trip_unicode_text() {
    let mut store = Store::new();
    let owner = "alice".to_string();
    let rec = must_create(&mut store, "alice", "déjà vu ✓", None, 1);
    let got = store.get(rec.id).ok().unwrap_or_else(|| panic!("get failed"));
    assert_eq!(got.title, "déjà vu ✓");
}

#[test]
fn get_missing_is_not_found() {
    let store = Store::new();
    match store.get(7) {
        Err(Error::NotFound { id }) => assert_eq!(id, Some(7)),
        _ => panic!("expected NotFound"),
    }
}

#[test]
fn update_changes_text_and_stamps_time() {
    let mut store = Store::new();
    let owner = "alice".to_string();
    let rec = must_create(&mut store, "alice", "old", None, 1);
    let upd = match store.update(&owner, rec.id, payload("new title", "new body", None), 9) {
        Ok(upd) => upd,
        Err(_) => panic!("update failed"),
    };
    assert_eq!(upd.title, "new title");
    assert_eq!(upd.body, "new body");
    assert_eq!(upd.updated_at, Some(9));
    assert_eq!(upd.owner, "alice");
    assert_eq!(upd.created_at, 1);
    let got = store.get(rec.id).ok().unwrap_or_else(|| panic!("get failed"));
    assert_eq!(got.title, "new title");
    assert_eq!(got.updated_at, Some(9));
}

#[test]
fn owner_survives_update_and_complete() {
    let mut store = Store::new();
    let owner = "alice".to_string();
    let rec = must_create(&mut store, "alice", "t", Some(50), 1);
    let upd = store.update(&owner, rec.id, payload("x", "y", None), 2).ok().unwrap_or_else(|| panic!("update failed"));
    assert_eq!(upd.owner, "alice");
    let done = store.complete(&owner, rec.id, 3).ok().unwrap_or_else(|| panic!("complete failed"));
    assert_eq!(done.owner, "alice");
}

#[test]
fn update_by_stranger_is_not_authorized_and_changes_nothing() {
    let mut store = Store::new();
    let owner = "alice".to_string();
    let intruder = "mallory".to_string();
    let rec = must_create(&mut store, "alice", "keep", None, 1);
    match store.update(&intruder, rec.id, payload("stolen", "stolen", None), 2) {
        Err(Error::NotAuthorized { id, caller }) => {
            assert_eq!(id, rec.id);
            assert_eq!(caller, "mallory");
        },
        _ => panic!("expected NotAuthorized"),
    }
    let got = store.get(rec.id).ok().unwrap_or_else(|| panic!("get failed"));
    assert_eq!(got.title, "keep");
    assert_eq!(got.updated_at, None);
    assert_eq!(got.owner, "alice");
}

#[test]
fn complete_by_stranger_is_not_authorized() {
    let mut store = Store::new();
    let intruder = "mallory".to_string();
    let rec = must_create(&mut store, "alice", "t", None, 1);
    match store.complete(&intruder, rec.id, 2) {
        Err(Error::NotAuthorized { id, caller }) => {
            assert_eq!(id, rec.id);
            assert_eq!(caller, "mallory");
        },
        _ => panic!("expected NotAuthorized"),
    }
    let got = store.get(rec.id).ok().unwrap_or_else(|| panic!("get failed"));
    assert!(!got.completed);
}

#[test]
fn delete_by_stranger_is_not_authorized() {
    let mut store = Store::new();
    let intruder = "mallory".to_string();
    let rec = must_create(&mut store, "alice", "t", None, 1);
    match store.delete(&intruder, rec.id) {
        Err(Error::NotAuthorized { id, caller }) => {
            assert_eq!(id, rec.id);
            assert_eq!(caller, "mallory");
        },
        _ => panic!("expected NotAuthorized"),
    }
    assert!(store.get(rec.id).is_ok());
}

#[test]
fn complete_before_deadline_is_not_late() {
    let mut store = Store::new();
    let owner = "alice".to_string();
    let rec = must_create(&mut store, "alice", "t", Some(100), 1);
    let done = store.complete(&owner, rec.id, 100).ok().unwrap_or_else(|| panic!("complete failed"));
    assert!(done.completed);
    assert!(!done.completed_late);
}

#[test]
fn complete_after_deadline_is_late() {
    let mut store = Store::new();
    let owner = "alice".to_string();
    let rec = must_create(&mut store, "alice", "t", Some(100), 1);
    let done = store.complete(&owner, rec.id, 101).ok().unwrap_or_else(|| panic!("complete failed"));
    assert!(done.completed);
    assert!(done.completed_late);
}

#[test]
fn complete_without_deadline_is_never_late() {
    let mut store = Store::new();
    let owner = "alice".to_string();
    let rec = must_create(&mut store, "alice", "t", None, 1);
    let done = store.complete(&owner, rec.id, u64::MAX).ok().unwrap_or_else(|| panic!("complete failed"));
    assert!(done.completed);
    assert!(!done.completed_late);
}

#[test]
fn complete_missing_is_not_found() {
    let mut store = Store::new();
    let owner = "alice".to_string();
    match store.complete(&owner, 3, 1) {
        Err(Error::NotFound { id }) => assert_eq!(id, Some(3)),
        _ => panic!("expected NotFound"),
    }
}

#[test]
fn delete_then_get_is_not_found() {
    let mut store = Store::new();
    let owner = "alice".to_string();
    let rec = must_create(&mut store, "alice", "t", None, 1);
    let removed = store.delete(&owner, rec.id).ok().unwrap_or_else(|| panic!("delete failed"));
    assert_eq!(removed.title, "t");
    match store.get(rec.id) {
        Err(Error::NotFound { id }) => assert_eq!(id, Some(rec.id)),
        _ => panic!("expected NotFound"),
    }
    match store.delete(&owner, rec.id) {
        Err(Error::NotFound { id }) => assert_eq!(id, Some(rec.id)),
        _ => panic!("expected NotFound"),
    }
}

#[test]
fn get_all_on_empty_is_not_found() {
    let store = Store::new();
    match store.get_all() {
        Err(Error::NotFound { id }) => assert_eq!(id, None),
        _ => panic!("expected NotFound"),
    }
}

#[test]
fn get_completed_with_none_completed_is_not_found() {
    let mut store = Store::new();
    must_create(&mut store, "alice", "t", None, 1);
    match store.get_completed() {
        Err(Error::NotFound { id }) => assert_eq!(id, None),
        _ => panic!("expected NotFound"),
    }
}

#[test]
fn get_all_returns_every_record_in_id_order() {
    let mut store = Store::new();
    let a = must_create(&mut store, "alice", "first", None, 1);
    let b = must_create(&mut store, "bob", "second", None, 2);
    let c = must_create(&mut store, "alice", "third", None, 3);
    let all = store.get_all().ok().unwrap_or_else(|| panic!("get_all failed"));
    assert_eq!(all.len(), 3);
    assert_eq!(all[0].id, a.id);
    assert_eq!(all[1].id, b.id);
    assert_eq!(all[2].id, c.id);
    assert_eq!(all[1].owner, "bob");
    assert_eq!(all[2].title, "third");
}

#[test]
fn get_completed_returns_only_completed() {
    let mut store = Store::new();
    let alice = "alice".to_string();
    let a = must_create(&mut store, "alice", "done", Some(10), 1);
    let _b = must_create(&mut store, "alice", "pending", None, 2);
    let c = must_create(&mut store, "alice", "done late", Some(1), 3);
    store.complete(&alice, a.id, 5).ok().unwrap_or_else(|| panic!("complete failed"));
    store.complete(&alice, c.id, 9).ok().unwrap_or_else(|| panic!("complete failed"));
    let done = store.get_completed().ok().unwrap_or_else(|| panic!("get_completed failed"));
    assert_eq!(done.len(), 2);
    assert_eq!(done[0].id, a.id);
    assert_eq!(done[1].id, c.id);
    assert!(!done[0].completed_late);
    assert!(done[1].completed_late);
}

#[test]
fn oversized_payload_is_rejected_without_effect() {
    let mut store = Store::new();
    let owner = "alice".to_string();
    let big = "x".repeat(2000);
    match store.create(&owner, payload(&big, "b", None), 1) {
        Err(Error::PayloadTooLarge) => {},
        _ => panic!("expected PayloadTooLarge"),
    }
    assert!(store.get_all().is_err());
    // a later create still mints id 0: the failed one consumed nothing
    let rec = must_create(&mut store, "alice", "small", None, 2);
    assert_eq!(rec.id, 0);
    // updating an existing record with an oversized payload also fails
    match store.update(&owner, rec.id, payload(&big, "b", None), 3) {
        Err(Error::PayloadTooLarge) => {},
        _ => panic!("expected PayloadTooLarge"),
    }
    let got = store.get(rec.id).ok().unwrap_or_else(|| panic!("get failed"));
    assert_eq!(got.title, "small");
}

#[test]
fn payload_at_the_size_bound_is_accepted() {
    let mut store = Store::new();
    let owner = "a".to_string();
    // fixed prefix is 42 bytes; owner takes 1; leave the rest to the title
    let title = "y".repeat(1024 - 42 - 1 - 1);
    let body = "z".to_string();
    let rec = store
        .create(&owner, payload(&title, &body, None), 1)
        .ok()
        .unwrap_or_else(|| panic!("create at bound failed"));
    let got = store.get(rec.id).ok().unwrap_or_else(|| panic!("get failed"));
    assert_eq!(got.title, title);
    // one more byte and it no longer fits
    let too_long = "y".repeat(1024 - 42 - 1);
    match store.create(&owner, payload(&too_long, &body, None), 1) {
        Err(Error::PayloadTooLarge) => {},
        _ => panic!("expected PayloadTooLarge"),
    }
}
