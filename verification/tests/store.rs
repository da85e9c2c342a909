use cc2rep::codec::{parse, to_serde};
use cc2rep::store::{InflightRegistry, ResponseStore, StoredResponse};

const SECOND: u128 = 1_000_000_000;

fn stored_response(text: &str, inserted_at: u128) -> StoredResponse {
    StoredResponse {
        response: parse(&format!(r#"{{"id":"resp_1","output_text":"{text}"}}"#)).unwrap(),
        input_items: vec![parse(r#"{"type":"message"}"#).unwrap()],
        request_messages: vec![parse(r#"{"role":"user","content":"hi"}"#).unwrap()],
        inserted_at,
    }
}

#[test]
fn put_get_update_delete_round_trip() {
    let mut store = ResponseStore::with_ttl(3600);
    store.put("resp_1".to_owned(), stored_response("first", 0), 0);

    let loaded = store.get("resp_1").expect("stored");
    assert_eq!(to_serde(&loaded.response)["output_text"], "first");
    assert_eq!(loaded.input_items.len(), 1);
    assert_eq!(loaded.request_messages.len(), 1);

    store.update_response("resp_1", parse(r#"{"id":"resp_1","output_text":"updated"}"#).unwrap());
    let updated = store.get("resp_1").expect("stored");
    assert_eq!(to_serde(&updated.response)["output_text"], "updated");
    assert_eq!(updated.request_messages.len(), 1);

    assert!(store.delete("resp_1").is_some());
    assert!(store.get("resp_1").is_none());
}

#[test]
fn update_and_delete_missing_entries_are_noops() {
    let mut store = ResponseStore::with_ttl(3600);
    store.update_response("missing", parse(r#"{"id":"missing"}"#).unwrap());
    assert!(store.delete("missing").is_none());
    assert_eq!(store.len(), 0);
}

#[test]
fn cleanup_removes_expired_entries() {
    let mut store = ResponseStore::with_ttl(1);
    let now = 100 * SECOND;
    store.put("old".to_owned(), stored_response("old", now - 10 * SECOND), now);
    store.put("fresh".to_owned(), stored_response("fresh", now), now);
    assert_eq!(store.len(), 2);
    assert_eq!(store.cleanup(now), 1);
    assert_eq!(store.len(), 1);
    assert!(store.get("old").is_none());
    assert!(store.get("fresh").is_some());
}

#[test]
fn every_32nd_entry_cleans_up() {
    let mut store = ResponseStore::with_ttl(5);
    for i in 0..31 {
        store.put(format!("old_{i}"), stored_response("old", 0), 0);
    }
    assert_eq!(store.len(), 31);
    store.put("new".to_owned(), stored_response("new", 5 * SECOND), 5 * SECOND);
    assert_eq!(store.len(), 1);
    assert!(store.get("new").is_some());
}

#[test]
fn cleanup_interval_follows_the_time_to_live() {
    assert_eq!(ResponseStore::with_ttl(0).cleanup_interval(), None);
    assert_eq!(ResponseStore::with_ttl(1).cleanup_interval(), Some(10));
    assert_eq!(ResponseStore::with_ttl(30).cleanup_interval(), Some(30));
    assert_eq!(ResponseStore::with_ttl(3600).cleanup_interval(), Some(60));
}

#[test]
fn requests_under_way_can_be_cancelled() {
    let mut inflight = InflightRegistry::default();
    assert!(!inflight.cancel("missing"));
    inflight.start("resp_1".to_owned());
    assert_eq!(inflight.count(), 1);
    assert!(!inflight.is_cancelled("resp_1"));
    assert!(inflight.cancel("resp_1"));
    assert!(inflight.is_cancelled("resp_1"));
    inflight.finish("resp_1");
    assert!(!inflight.cancel("resp_1"));
    assert_eq!(inflight.count(), 0);
}
