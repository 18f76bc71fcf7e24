use webext_storage::incoming::{
    get_incoming, plan_incoming, stage_incoming, IncomingAction, IncomingItem, IncomingState,
};
use webext_storage::interrupt::NeverInterrupts;
use webext_storage::json::JsonMap;
use webext_storage::store::{
    LocalRecord, MirrorRecord, ServerPayload, StagingRecord, SyncStatus, SyncStore,
};
use webext_storage::ServerTimestamp;

fn map(text: &str) -> JsonMap {
    JsonMap::parse(text).expect("a JSON object")
}

fn staged(guid: &str, ext_id: &str, data: Option<&str>, ts: i64) -> StagingRecord {
    StagingRecord {
        guid: guid.to_string(),
        ext_id: ext_id.to_string(),
        data: data.map(|d| d.to_string()),
        server_modified: ts,
    }
}

fn mirror(guid: &str, ext_id: &str, data: Option<&str>, ts: i64) -> MirrorRecord {
    MirrorRecord {
        guid: guid.to_string(),
        ext_id: ext_id.to_string(),
        server_modified: ts,
        data: data.map(|d| d.to_string()),
    }
}

fn local(ext_id: &str, data: Option<&str>, status: SyncStatus, counter: u64) -> LocalRecord {
    LocalRecord {
        ext_id: ext_id.to_string(),
        data: data.map(|d| d.to_string()),
        sync_status: status,
        change_counter: counter,
    }
}

#[test]
fn test_incoming_populates_staging() {
    let mut store = SyncStore::new();
    let incoming = vec![ServerPayload {
        guid: "guidAAAAAAAA".to_string(),
        ext_id: "ext1@example.com".to_string(),
        data: Some(r#"{"foo":"bar"}"#.to_string()),
        deleted: false,
        last_modified: ServerTimestamp(0),
    }];
    stage_incoming(&mut store, incoming, &NeverInterrupts).unwrap();
    assert_eq!(store.staging_len(), 1);
}

#[test]
fn test_fetch_incoming_state() {
    let mut store = SyncStore::new();
    // Start with an item just in staging.
    store.stage(staged("guid", "ext_id", Some(r#"{"foo":"bar"}"#), 1));

    let incoming = get_incoming(&store);
    assert_eq!(incoming.len(), 1);
    assert_eq!(
        incoming[0].0,
        IncomingItem { guid: "guid".to_string(), ext_id: "ext_id".to_string() }
    );
    assert_eq!(
        incoming[0].1,
        IncomingState::IncomingOnly { incoming: Some(map(r#"{"foo": "bar"}"#)) }
    );

    // Add the same item to the mirror.
    store.replace_mirror(mirror("guid", "ext_id", Some(r#"{"foo":"new"}"#), 2));
    let incoming = get_incoming(&store);
    assert_eq!(incoming.len(), 1);
    assert_eq!(
        incoming[0].1,
        IncomingState::NotLocal {
            incoming: Some(map(r#"{"foo": "bar"}"#)),
            mirror: Some(map(r#"{"foo": "new"}"#)),
        }
    );

    // And finally the local data itself.
    store.put_local(local("ext_id", Some(r#"{"foo":"local"}"#), SyncStatus::New, 1));
    let incoming = get_incoming(&store);
    assert_eq!(incoming.len(), 1);
    assert_eq!(
        incoming[0].1,
        IncomingState::Everywhere {
            incoming: Some(map(r#"{"foo": "bar"}"#)),
            local: Some(map(r#"{"foo": "local"}"#)),
            mirror: Some(map(r#"{"foo": "new"}"#)),
        }
    );
}

#[test]
fn test_fetch_incoming_state_nulls() {
    let mut store = SyncStore::new();
    store.stage(staged("guid", "ext_id", None, 1));

    let incoming = get_incoming(&store);
    assert_eq!(incoming.len(), 1);
    assert_eq!(incoming[0].1, IncomingState::IncomingOnly { incoming: None });

    store.replace_mirror(mirror("guid", "ext_id", None, 2));
    let incoming = get_incoming(&store);
    assert_eq!(incoming.len(), 1);
    assert_eq!(incoming[0].1, IncomingState::NotLocal { incoming: None, mirror: None });

    store.put_local(local("ext_id", None, SyncStatus::Normal, 0));
    let incoming = get_incoming(&store);
    assert_eq!(incoming.len(), 1);
    assert_eq!(
        incoming[0].1,
        IncomingState::Everywhere { incoming: None, local: None, mirror: None }
    );
}

#[test]
fn malformed_json_classifies_as_absent() {
    let mut store = SyncStore::new();
    store.stage(staged("g1", "e1", Some("not json at all"), 1));
    store.stage(staged("g2", "e2", Some("[1, 2, 3]"), 1));
    store.stage(staged("g3", "e3", Some("\"a string\""), 1));
    let incoming = get_incoming(&store);
    assert_eq!(incoming.len(), 3);
    for (_, state) in incoming {
        assert_eq!(state, IncomingState::IncomingOnly { incoming: None });
    }
}

#[test]
fn malformed_local_and_mirror_data_classify_as_absent() {
    let mut store = SyncStore::new();
    store.stage(staged("guid", "ext", Some(r#"{"a":1}"#), 1));
    store.replace_mirror(mirror("guid", "ext", Some("{broken"), 1));
    store.put_local(local("ext", Some("42"), SyncStatus::New, 1));
    let incoming = get_incoming(&store);
    assert_eq!(
        incoming[0].1,
        IncomingState::Everywhere { incoming: Some(map(r#"{"a":1}"#)), mirror: None, local: None }
    );
}

#[test]
fn get_incoming_twice_gives_the_same() {
    let mut store = SyncStore::new();
    store.stage(staged("g1", "e1", Some(r#"{"x":1}"#), 1));
    store.stage(staged("g2", "e2", None, 2));
    store.put_local(local("e1", Some(r#"{"x":2}"#), SyncStatus::New, 3));
    let first = get_incoming(&store);
    let second = get_incoming(&store);
    assert_eq!(first, second);
}

#[test]
fn staging_replaces_by_guid() {
    let mut store = SyncStore::new();
    let p = |guid: &str, data: &str| ServerPayload {
        guid: guid.to_string(),
        ext_id: "ext".to_string(),
        data: Some(data.to_string()),
        deleted: false,
        last_modified: ServerTimestamp(5),
    };
    stage_incoming(&mut store, vec![p("a", "{}"), p("b", "{}"), p("a", r#"{"k":1}"#)], &NeverInterrupts)
        .unwrap();
    assert_eq!(store.staging_len(), 2);
    assert_eq!(store.staging_at(0).guid, "b");
    assert_eq!(store.staging_at(1).guid, "a");
    assert_eq!(store.staging_at(1).data, Some(r#"{"k":1}"#.to_string()));
    assert_eq!(store.staging_at(1).server_modified, 5);
}

#[test]
fn deleted_payload_stages_no_data() {
    let mut store = SyncStore::new();
    let p = ServerPayload {
        guid: "g".to_string(),
        ext_id: "e".to_string(),
        data: Some("{}".to_string()),
        deleted: true,
        last_modified: ServerTimestamp(0),
    };
    stage_incoming(&mut store, vec![p], &NeverInterrupts).unwrap();
    assert_eq!(store.staging_at(0).data, None);
}

fn plan(state: IncomingState) -> IncomingAction {
    plan_incoming(state)
}

#[test]
fn plan_table_without_merge() {
    let inc = || Some(map(r#"{"a":1}"#));
    let other = || Some(map(r#"{"b":2}"#));
    assert_eq!(
        plan(IncomingState::Everywhere { incoming: inc(), mirror: other(), local: None }),
        IncomingAction::TakeRemote { data: map(r#"{"a":1}"#) }
    );
    // Known limitation, kept as documented: a remote tombstone deletes the
    // local record even where keys were added locally since the last sync;
    // a three-way merge would keep them.
    assert_eq!(
        plan(IncomingState::Everywhere { incoming: None, mirror: other(), local: other() }),
        IncomingAction::DeleteLocally
    );
    assert_eq!(
        plan(IncomingState::LocalOnly { incoming: None, local: other() }),
        IncomingAction::DeleteLocally
    );
    assert_eq!(
        plan(IncomingState::LocalOnly { incoming: inc(), local: None }),
        IncomingAction::TakeRemote { data: map(r#"{"a":1}"#) }
    );
    assert_eq!(plan(IncomingState::LocalOnly { incoming: None, local: None }), IncomingAction::Same);
    assert_eq!(
        plan(IncomingState::NotLocal { incoming: inc(), mirror: other() }),
        IncomingAction::TakeRemote { data: map(r#"{"a":1}"#) }
    );
    assert_eq!(plan(IncomingState::NotLocal { incoming: None, mirror: other() }), IncomingAction::Same);
    assert_eq!(
        plan(IncomingState::IncomingOnly { incoming: inc() }),
        IncomingAction::TakeRemote { data: map(r#"{"a":1}"#) }
    );
    assert_eq!(plan(IncomingState::IncomingOnly { incoming: None }), IncomingAction::DeleteLocally);
}

#[test]
fn plan_two_way_merge() {
    let action = plan(IncomingState::LocalOnly {
        incoming: Some(map(r#"{"k2":"in"}"#)),
        local: Some(map(r#"{"k1":"a","k2":"b"}"#)),
    });
    match action {
        IncomingAction::Merge { data } => {
            assert_eq!(data.to_json_text(), r#"{"k1":"a","k2":"in"}"#);
        }
        other => panic!("expected a merge, got {:?}", other),
    }
}

#[test]
fn plan_merge_of_equal_objects_is_same() {
    let action = plan(IncomingState::Everywhere {
        incoming: Some(map(r#"{"k":1,"j":[1,2]}"#)),
        mirror: None,
        local: Some(map(r#"{"j":[1,2],"k":1}"#)),
    });
    assert_eq!(action, IncomingAction::Same);
}

#[test]
fn plan_merge_giving_incoming_takes_remote() {
    // Incoming has every local key with new values: the merge is the incoming object.
    let action = plan(IncomingState::LocalOnly {
        incoming: Some(map(r#"{"k":2,"n":3}"#)),
        local: Some(map(r#"{"k":1}"#)),
    });
    assert_eq!(action, IncomingAction::TakeRemote { data: map(r#"{"k":2,"n":3}"#) });
}

#[test]
fn plan_three_way_merge() {
    // "a": changed remotely; "b": unchanged remotely, changed locally;
    // "c": deleted remotely; "d": added remotely; "e": added locally.
    let action = plan(IncomingState::Everywhere {
        incoming: Some(map(r#"{"a":10,"b":2,"d":4}"#)),
        mirror: Some(map(r#"{"a":1,"b":2,"c":3}"#)),
        local: Some(map(r#"{"a":1,"b":20,"c":3,"e":5}"#)),
    });
    match action {
        IncomingAction::Merge { data } => {
            assert_eq!(data.to_json_text(), r#"{"a":10,"b":20,"d":4,"e":5}"#);
        }
        other => panic!("expected a merge, got {:?}", other),
    }
}

#[test]
fn merged_keys_come_out_sorted() {
    let action = plan(IncomingState::LocalOnly {
        incoming: Some(map(r#"{"b":"in","Z":0,"é":1}"#)),
        local: Some(map(r#"{"c":2,"a":1}"#)),
    });
    match action {
        IncomingAction::Merge { data } => {
            assert_eq!(data.to_json_text(), r#"{"Z":0,"a":1,"b":"in","c":2,"é":1}"#);
        }
        other => panic!("expected a merge, got {:?}", other),
    }
}

#[test]
fn keys_are_written_escaped() {
    let m = map(r#"{"a\"b\\c\n\u0001/":1}"#);
    assert_eq!(m.to_json_text(), r#"{"a\"b\\c\n\u0001/":1}"#);
}

// Known limitation, not a requirement: with a remote tombstone the local
// record goes, even where a key was added locally since the last sync.
#[test]
fn known_limitation_remote_tombstone_drops_local_additions() {
    let action = plan(IncomingState::Everywhere {
        incoming: None,
        mirror: Some(map(r#"{"a":1}"#)),
        local: Some(map(r#"{"a":1,"added":2}"#)),
    });
    assert_eq!(action, IncomingAction::DeleteLocally);
}
