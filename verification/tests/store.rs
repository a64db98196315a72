use pigeon::PigeonState;
use pigeon::StoreError;
use pigeon::persistence::{save_keyvalue, save_queue};

fn temp_db() -> sled::Db {
    sled::Config::new().temporary(true).open().unwrap()
}

#[test]
fn fifo_publish_then_consume_in_order() {
    let mut st = PigeonState::new(temp_db());
    st.publish("t", "first".to_string()).unwrap();
    st.publish("t", "second".to_string()).unwrap();
    st.publish("t", "third".to_string()).unwrap();
    assert_eq!(st.consume("t").unwrap(), "first");
    assert_eq!(st.consume("t").unwrap(), "second");
    assert_eq!(st.consume("t").unwrap(), "third");
    assert_eq!(st.consume("t"), Err(StoreError::NotFound));
}

#[test]
fn emptiness_after_last_consume() {
    let mut st = PigeonState::new(temp_db());
    st.publish("t", "only".to_string()).unwrap();
    assert_eq!(st.length("t"), 1);
    assert_eq!(st.consume("t").unwrap(), "only");
    assert_eq!(st.length("t"), 0);
    assert!(st.overview().iter().all(|(name, _)| name != "t"));
}

#[test]
fn consume_absent_topic_not_found() {
    let mut st = PigeonState::new(temp_db());
    st.publish("present", "x".to_string()).unwrap();
    assert_eq!(st.consume("absent"), Err(StoreError::NotFound));
    assert_eq!(st.length("absent"), 0);
    assert_eq!(st.length("present"), 1);
    assert_eq!(st.overview().len(), 1);
}

#[test]
fn kv_absent_key_not_found() {
    let mut st = PigeonState::new(temp_db());
    assert_eq!(st.kv_get("missing"), Err(StoreError::NotFound));
    assert_eq!(st.kv_delete("missing"), Err(StoreError::NotFound));
}

#[test]
fn round_trip_across_restart() {
    let db = temp_db();
    let mut st = PigeonState::new(db.clone());
    st.publish("t", "a".to_string()).unwrap();
    st.publish("t", "b".to_string()).unwrap();
    st.publish("t", "c".to_string()).unwrap();
    drop(st);
    let mut reloaded = PigeonState::new(db);
    assert_eq!(reloaded.consume("t").unwrap(), "a");
    assert_eq!(reloaded.consume("t").unwrap(), "b");
    assert_eq!(reloaded.consume("t").unwrap(), "c");
    assert_eq!(reloaded.consume("t"), Err(StoreError::NotFound));
}

#[test]
fn kv_delete_idempotent() {
    let mut st = PigeonState::new(temp_db());
    st.kv_set("k", "v".to_string()).unwrap();
    assert_eq!(st.kv_delete("k"), Ok(()));
    assert_eq!(st.kv_delete("k"), Err(StoreError::NotFound));
    assert_eq!(st.kv_get("k"), Err(StoreError::NotFound));
}

#[test]
fn overview_counts() {
    let mut st = PigeonState::new(temp_db());
    st.publish("t1", "m1".to_string()).unwrap();
    st.publish("t1", "m2".to_string()).unwrap();
    st.publish("t2", "m3".to_string()).unwrap();
    let mut o = st.overview();
    o.sort();
    assert_eq!(o, vec![("t1".to_string(), 2), ("t2".to_string(), 1)]);
}

#[test]
fn newline_payload_splits_after_restart() {
    // Documented limitation of the newline-joined record format: a payload
    // containing the separator comes back as two messages after a reload.
    let db = temp_db();
    let mut st = PigeonState::new(db.clone());
    st.publish("t", "a\nb".to_string()).unwrap();
    assert_eq!(st.length("t"), 1);
    drop(st);
    let mut reloaded = PigeonState::new(db);
    assert_eq!(reloaded.length("t"), 2);
    assert_eq!(reloaded.consume("t").unwrap(), "a");
    assert_eq!(reloaded.consume("t").unwrap(), "b");
}

#[test]
fn empty_payload_vanishes_after_restart() {
    // Companion limitation: an empty payload is dropped on reload, and a
    // topic whose record decodes to no messages is not recreated.
    let db = temp_db();
    let mut st = PigeonState::new(db.clone());
    st.publish("t", "".to_string()).unwrap();
    assert_eq!(st.length("t"), 1);
    drop(st);
    let mut reloaded = PigeonState::new(db);
    assert_eq!(reloaded.length("t"), 0);
    assert_eq!(reloaded.consume("t"), Err(StoreError::NotFound));
}

#[test]
fn kv_round_trip_across_restart() {
    let db = temp_db();
    let mut st = PigeonState::new(db.clone());
    st.kv_set("color", "teal".to_string()).unwrap();
    drop(st);
    let st = PigeonState::new(db);
    assert_eq!(st.kv_get("color").unwrap(), "teal");
}

#[test]
fn kv_set_overwrites() {
    let mut st = PigeonState::new(temp_db());
    st.kv_set("k", "old".to_string()).unwrap();
    st.kv_set("k", "new".to_string()).unwrap();
    assert_eq!(st.kv_get("k").unwrap(), "new");
}

#[test]
fn corrupt_record_skipped_on_load() {
    let db = temp_db();
    db.insert("queue_good", "x\ny").unwrap();
    db.insert(b"queue_bad".to_vec(), vec![0xffu8, 0xfe]).unwrap();
    db.insert(vec![0x71u8, 0xff], "v").unwrap();
    let st = PigeonState::new(db);
    assert_eq!(st.length("good"), 2);
    assert_eq!(st.overview().len(), 1);
}

#[test]
fn queue_record_layout() {
    let db = temp_db();
    save_queue(&db, "t", &vec!["a".to_string(), "b".to_string()]).unwrap();
    let raw = db.get("queue_t").unwrap().unwrap();
    assert_eq!(raw.as_ref(), b"a\nb");
}

#[test]
fn kv_record_layout_and_delete() {
    let db = temp_db();
    save_keyvalue(&db, "k", "v").unwrap();
    let raw = db.get("kv_k").unwrap().unwrap();
    assert_eq!(raw.as_ref(), b"v");
    let mut st = PigeonState::new(db.clone());
    assert_eq!(st.kv_delete("k"), Ok(()));
    assert!(db.get("kv_k").unwrap().is_none());
}

#[test]
fn publish_appends_to_existing_topic() {
    let mut st = PigeonState::new(temp_db());
    st.publish("t", "a".to_string()).unwrap();
    st.publish("t", "b".to_string()).unwrap();
    assert_eq!(st.length("t"), 2);
    assert_eq!(st.consume("t").unwrap(), "a");
    assert_eq!(st.length("t"), 1);
}

#[test]
fn consume_leaves_other_topics_alone() {
    let mut st = PigeonState::new(temp_db());
    st.publish("t1", "a".to_string()).unwrap();
    st.publish("t2", "b".to_string()).unwrap();
    assert_eq!(st.consume("t1").unwrap(), "a");
    assert_eq!(st.length("t2"), 1);
    let o = st.overview();
    assert_eq!(o.len(), 1);
    assert_eq!(o[0].0, "t2");
}

#[test]
fn load_ignores_foreign_records() {
    let db = temp_db();
    db.insert("other_x", "y").unwrap();
    let st = PigeonState::new(db);
    assert_eq!(st.overview().len(), 0);
    assert_eq!(st.kv_get("x"), Err(StoreError::NotFound));
    assert_eq!(st.kv_get("other_x"), Err(StoreError::NotFound));
}

#[test]
fn flush_all_reports_no_failures() {
    let mut st = PigeonState::new(temp_db());
    st.publish("t1", "a".to_string()).unwrap();
    st.publish("t2", "b".to_string()).unwrap();
    assert_eq!(st.flush_all(), 0);
}

#[test]
fn flush_all_rewrites_records() {
    let db = temp_db();
    let mut st = PigeonState::new(db.clone());
    st.publish("t", "a".to_string()).unwrap();
    db.remove("queue_t").unwrap();
    assert!(db.get("queue_t").unwrap().is_none());
    assert_eq!(st.flush_all(), 0);
    let raw = db.get("queue_t").unwrap().unwrap();
    assert_eq!(raw.as_ref(), b"a");
}

#[test]
fn error_labels() {
    assert_eq!(StoreError::NotFound.label(), "not found");
    assert_eq!(StoreError::PersistenceFailure.label(), "failed to persist");
}
