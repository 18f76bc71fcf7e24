use webext_storage::incoming::{apply_actions, IncomingAction, IncomingItem};
use webext_storage::interrupt::{Interruptee, NeverInterrupts, SyncError};
use webext_storage::json::JsonMap;
use webext_storage::outgoing::{get_outgoing, random_guid, record_uploaded, OutgoingInfo};
use webext_storage::store::{LocalRecord, MirrorRecord, StagingRecord, SyncStatus, SyncStore};

fn local(ext_id: &str, data: Option<&str>, status: SyncStatus, counter: u64) -> LocalRecord {
    LocalRecord {
        ext_id: ext_id.to_string(),
        data: data.map(|d| d.to_string()),
        sync_status: status,
        change_counter: counter,
    }
}

fn find<'a>(store: &'a SyncStore, ext_id: &str) -> &'a LocalRecord {
    store.find_local(&ext_id.to_string()).expect("a local record")
}

struct AlwaysInterrupts;

impl Interruptee for AlwaysInterrupts {
    fn never_raised(&self) -> bool {
        false
    }

    fn was_interrupted(&self) -> bool {
        true
    }
}

#[test]
fn test_simple() {
    let mut store = SyncStore::new();
    store.put_local(local("ext_no_changes", Some(r#"{"foo":"bar"}"#), SyncStatus::Normal, 0));
    store.put_local(local("ext_with_changes", Some(r#"{"foo":"bar"}"#), SyncStatus::New, 1));

    let changes = get_outgoing(&store, &NeverInterrupts);
    assert_eq!(changes.len(), 1);
    assert_eq!(changes[0].state.ext_id, "ext_with_changes".to_string());

    record_uploaded(&mut store, &changes, &NeverInterrupts).unwrap();

    let rec = find(&store, "ext_with_changes");
    assert_eq!(rec.change_counter, 0);
    assert_eq!(rec.sync_status, SyncStatus::Normal);
}

#[test]
fn outgoing_uses_mirror_guid_or_a_fresh_one() {
    let mut store = SyncStore::new();
    store.replace_mirror(MirrorRecord {
        guid: "known-guid".to_string(),
        ext_id: "synced".to_string(),
        server_modified: 7,
        data: None,
    });
    store.put_local(local("synced", None, SyncStatus::Normal, 2));
    store.put_local(local("fresh", Some("{}"), SyncStatus::New, 1));
    let out = get_outgoing(&store, &NeverInterrupts);
    assert_eq!(out.len(), 2);
    assert_eq!(out[0].payload.guid, "known-guid");
    assert!(out[0].payload.deleted);
    assert_eq!(out[0].payload.data, None);
    assert_eq!(out[0].state.change_counter, 2);
    assert_eq!(out[1].payload.guid.len(), 12);
    assert!(out[1].payload.guid.chars().all(|c| c.is_ascii_alphanumeric()));
    assert!(!out[1].payload.deleted);
    assert_eq!(out[1].payload.data, Some("{}".to_string()));
    assert_eq!(out[1].payload.last_modified.as_millis(), 0);
}

#[test]
fn random_guids_are_alphanumeric_and_differ() {
    let a = random_guid();
    let b = random_guid();
    assert_eq!(a.len(), 12);
    assert!(a.chars().all(|c| c.is_ascii_alphanumeric()));
    assert_ne!(a, b);
}

#[test]
fn upload_subtracts_the_collected_counter() {
    let mut store = SyncStore::new();
    store.put_local(local("e", Some("{}"), SyncStatus::New, 3));
    let out = get_outgoing(&store, &NeverInterrupts);
    // Two more local changes race with the upload.
    store.put_local(local("e", Some(r#"{"x":1}"#), SyncStatus::New, 5));
    record_uploaded(&mut store, &out, &NeverInterrupts).unwrap();
    let rec = find(&store, "e");
    assert_eq!(rec.change_counter, 2);
    assert_eq!(rec.sync_status, SyncStatus::Normal);
}

#[test]
fn upload_counter_does_not_go_below_zero() {
    let mut store = SyncStore::new();
    store.put_local(local("e", Some("{}"), SyncStatus::New, 4));
    let out: Vec<OutgoingInfo> = get_outgoing(&store, &NeverInterrupts);
    store.put_local(local("e", Some("{}"), SyncStatus::New, 1));
    record_uploaded(&mut store, &out, &NeverInterrupts).unwrap();
    assert_eq!(find(&store, "e").change_counter, 0);
}

#[test]
fn upload_folds_staging_into_mirror() {
    let mut store = SyncStore::new();
    store.stage(StagingRecord {
        guid: "g1".to_string(),
        ext_id: "e1".to_string(),
        data: Some(r#"{"a":1}"#.to_string()),
        server_modified: 9,
    });
    record_uploaded(&mut store, &Vec::new(), &NeverInterrupts).unwrap();
    assert_eq!(store.staging_len(), 0);
    assert_eq!(store.mirror_len(), 1);
    let m = store.mirror_at(0);
    assert_eq!(m.guid, "g1");
    assert_eq!(m.ext_id, "e1");
    assert_eq!(m.server_modified, 9);
    assert_eq!(m.data, Some(r#"{"a":1}"#.to_string()));
}

#[test]
fn interrupted_upload_changes_nothing() {
    let mut store = SyncStore::new();
    store.put_local(local("e", Some("{}"), SyncStatus::New, 1));
    store.stage(StagingRecord {
        guid: "g".to_string(),
        ext_id: "e".to_string(),
        data: None,
        server_modified: 1,
    });
    let out = get_outgoing(&store, &NeverInterrupts);
    assert_eq!(record_uploaded(&mut store, &out, &AlwaysInterrupts), Err(SyncError::Interrupted));
    assert_eq!(store.staging_len(), 1);
    assert_eq!(store.mirror_len(), 0);
    assert_eq!(find(&store, "e").change_counter, 1);
}

#[test]
fn interrupted_apply_changes_nothing() {
    let mut store = SyncStore::new();
    store.put_local(local("e", Some("{}"), SyncStatus::New, 1));
    let actions = vec![(
        IncomingItem { guid: "g".to_string(), ext_id: "e".to_string() },
        IncomingAction::DeleteLocally,
    )];
    assert_eq!(apply_actions(&mut store, actions, &AlwaysInterrupts), Err(SyncError::Interrupted));
    assert_eq!(store.local_len(), 1);
}

#[test]
fn apply_each_action() {
    let mut store = SyncStore::new();
    store.put_local(local("del", Some("{}"), SyncStatus::Normal, 0));
    store.put_local(local("remote", Some(r#"{"a":1}"#), SyncStatus::Normal, 0));
    store.put_local(local("take", Some(r#"{"a":1}"#), SyncStatus::New, 4));
    store.put_local(local("merge", Some(r#"{"a":1}"#), SyncStatus::New, 2));
    store.put_local(local("same", Some(r#"{"a":1}"#), SyncStatus::New, 2));
    let item = |e: &str| IncomingItem { guid: format!("g-{}", e), ext_id: e.to_string() };
    let data = || JsonMap::parse(r#"{"b":"x"}"#).unwrap();
    let actions = vec![
        (item("del"), IncomingAction::DeleteLocally),
        (item("remote"), IncomingAction::DeleteRemotely),
        (item("take"), IncomingAction::TakeRemote { data: data() }),
        (item("merge"), IncomingAction::Merge { data: data() }),
        (item("same"), IncomingAction::Same),
        (item("new"), IncomingAction::TakeRemote { data: data() }),
    ];
    apply_actions(&mut store, actions, &NeverInterrupts).unwrap();
    assert!(store.find_local(&"del".to_string()).is_none());
    let r = find(&store, "remote");
    assert_eq!((r.data.clone(), r.sync_status), (None, SyncStatus::New));
    let t = find(&store, "take");
    assert_eq!(t.data, Some(r#"{"b":"x"}"#.to_string()));
    assert_eq!((t.sync_status, t.change_counter), (SyncStatus::Normal, 0));
    let m = find(&store, "merge");
    assert_eq!(m.data, Some(r#"{"b":"x"}"#.to_string()));
    assert_eq!((m.sync_status, m.change_counter), (SyncStatus::Normal, 3));
    let s = find(&store, "same");
    assert_eq!((s.sync_status, s.change_counter), (SyncStatus::New, 2));
    let n = find(&store, "new");
    assert_eq!((n.sync_status, n.change_counter), (SyncStatus::Normal, 0));
}
