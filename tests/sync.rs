use webext_storage::incoming::{apply_actions, get_incoming, plan_all, stage_incoming};
use webext_storage::interrupt::{NeverInterrupts, SyncError};
use webext_storage::outgoing::{get_outgoing, record_uploaded};
use webext_storage::schema::{schema_step, SchemaStep, CREATE_SCHEMA_SQL, CREATE_TEMP_TABLES_SQL};
use webext_storage::store::{LocalRecord, ServerPayload, SyncStatus, SyncStore};
use webext_storage::ServerTimestamp;

// Everything a full sync does, minus the server.
fn do_sync(store: &mut SyncStore, incoming_bsos: Vec<ServerPayload>) -> Result<(), SyncError> {
    stage_incoming(store, incoming_bsos, &NeverInterrupts)?;
    let actions = plan_all(get_incoming(store));
    apply_actions(store, actions, &NeverInterrupts)?;
    let outgoing = get_outgoing(store, &NeverInterrupts);
    record_uploaded(store, &outgoing, &NeverInterrupts)?;
    Ok(())
}

fn get_mirror_data(store: &SyncStore, expected_extid: &str) -> Option<String> {
    assert_eq!(store.mirror_len(), 1);
    let item = store.mirror_at(0);
    assert_eq!(item.ext_id, expected_extid);
    item.data.clone()
}

fn set(store: &mut SyncStore, ext_id: &str, data: &str) {
    store.put_local(LocalRecord {
        ext_id: ext_id.to_string(),
        data: Some(data.to_string()),
        sync_status: SyncStatus::New,
        change_counter: 1,
    });
}

#[test]
fn test_simple_outgoing_sync() {
    let mut store = SyncStore::new();
    let expected = r#"{"key1":"key1-value","key2":"key2-value"}"#;
    set(&mut store, "ext-id", expected);
    do_sync(&mut store, vec![]).unwrap();
    let data = get_mirror_data(&store, "ext-id");
    assert_eq!(data, Some(expected.to_string()));
    assert_eq!(store.local_at(0).change_counter, 0);
}

#[test]
fn test_conflicting_incoming() {
    let mut store = SyncStore::new();
    set(&mut store, "ext-id", r#"{"key1":"key1-value","key2":"key2-value"}"#);
    // Incoming payload without 'key1' and conflicting for 'key2'
    let payload = ServerPayload {
        guid: "guid".to_string(),
        ext_id: "ext-id".to_string(),
        data: Some(r#"{"key2":"key2-incoming"}"#.to_string()),
        deleted: false,
        last_modified: ServerTimestamp(0),
    };
    do_sync(&mut store, vec![payload]).unwrap();
    let data = get_mirror_data(&store, "ext-id");
    let expected = r#"{"key1":"key1-value","key2":"key2-incoming"}"#;
    assert_eq!(data, Some(expected.to_string()));
}

#[test]
fn incoming_only_item_is_taken_and_not_uploaded() {
    let mut store = SyncStore::new();
    let payload = ServerPayload {
        guid: "g".to_string(),
        ext_id: "new-ext".to_string(),
        data: Some(r#"{"k":true}"#.to_string()),
        deleted: false,
        last_modified: ServerTimestamp(1500),
    };
    do_sync(&mut store, vec![payload]).unwrap();
    assert_eq!(store.local_len(), 1);
    let rec = store.local_at(0);
    assert_eq!(rec.data, Some(r#"{"k":true}"#.to_string()));
    assert_eq!(rec.change_counter, 0);
    let m = store.mirror_at(0);
    assert_eq!((m.guid.as_str(), m.server_modified), ("g", 1500));
}

#[test]
fn test_create_schema_twice() {
    let conn = rusqlite::Connection::open_in_memory().unwrap();
    conn.execute_batch(CREATE_SCHEMA_SQL).unwrap();
    conn.execute_batch(CREATE_TEMP_TABLES_SQL).unwrap();
    conn.execute_batch(CREATE_SCHEMA_SQL).expect("should allow running twice");
}

#[test]
fn schema_steps() {
    assert_eq!(schema_step(0), SchemaStep::Create);
    assert_eq!(schema_step(1), SchemaStep::Current);
    assert_eq!(schema_step(7), SchemaStep::Downgrade);
    assert_eq!(schema_step(-1), SchemaStep::Unsupported);
}

#[test]
fn timestamps_from_millis() {
    assert_eq!(ServerTimestamp::from_millis(1234).as_millis(), 1234);
    assert_eq!(ServerTimestamp::from_millis(-5).as_millis(), 0);
    assert_eq!(ServerTimestamp::from_millis(i64::MAX).as_millis(), 0);
    assert_eq!(ServerTimestamp::from_millis(i64::MAX - 1).as_millis(), i64::MAX - 1);
}
