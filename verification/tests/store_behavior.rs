use aw_datastore::Bucket;
use aw_datastore::BucketMetadata;
use aw_datastore::DataEntry;
use aw_datastore::DataMap;
use aw_datastore::DatastoreError;
use aw_datastore::DatastoreInstance;
use aw_datastore::Event;
use aw_datastore::Store;
use aw_datastore::NEWEST_DB_VERSION;

const SECOND: i64 = 1_000_000_000;

fn one_entry_data(key: &str, value: &str) -> DataMap {
    DataMap {
        entries: vec![DataEntry { key: key.to_string(), value: value.to_string() }],
    }
}

fn fresh_bucket(user_id: i32, kind: &str) -> Bucket {
    Bucket {
        bid: 0,
        _type: kind.to_string(),
        created: Some(1_000 * SECOND),
        data: DataMap { entries: Vec::new() },
        metadata: BucketMetadata { start: None, end: None },
        events: None,
        last_updated: None,
        user_id,
    }
}

fn event_at(t_seconds: i64, dur_seconds: i64, key: &str, value: &str) -> Event {
    Event {
        id: None,
        timestamp_ns: t_seconds * SECOND,
        duration_ns: dur_seconds * SECOND,
        data: one_entry_data(key, value),
        team_id: 1,
    }
}

fn open_store() -> (Store, DatastoreInstance) {
    let mut store = Store::new();
    let ds = DatastoreInstance::new(&mut store, true).expect("open failed");
    (store, ds)
}

#[test]
fn test_bucket() {
    let b = Bucket {
        bid: 1,
        _type: "type".to_string(),
        created: None,
        data: DataMap { entries: Vec::new() },
        metadata: BucketMetadata { start: None, end: None },
        events: None,
        last_updated: None,
        user_id: 1,
    };
    let rendered = format!("bucket: {:?}", b);
    assert!(rendered.contains("type"));
}

#[test]
fn create_bucket_is_idempotent_by_identity() {
    let (mut store, mut ds) = open_store();
    let id1 = ds.create_bucket(&mut store, fresh_bucket(1, "afk")).unwrap();
    let rows_after_first = store.buckets.len();
    let id2 = ds.create_bucket(&mut store, fresh_bucket(1, "afk")).unwrap();
    assert_eq!(id1, id2);
    assert_eq!(store.buckets.len(), rows_after_first);
    assert_eq!(store.buckets.len(), 1);
    // Another identity gets another bucket.
    let id3 = ds.create_bucket(&mut store, fresh_bucket(2, "afk")).unwrap();
    assert_ne!(id1, id3);
    assert_eq!(store.buckets.len(), 2);
}

#[test]
fn metadata_tracks_min_start_and_max_end() {
    let (mut store, mut ds) = open_store();
    let bid = ds.create_bucket(&mut store, fresh_bucket(1, "window")).unwrap();
    ds.insert_events(&mut store, bid, vec![event_at(100, 5, "x", "1")]).unwrap();
    let b = ds.get_bucket(bid).unwrap();
    assert_eq!(b.metadata.start, Some(100 * SECOND));
    assert_eq!(b.metadata.end, Some(105 * SECOND));
    // An earlier event lowers the start; a later one raises the end.
    ds.insert_events(&mut store, bid, vec![event_at(50, 1, "x", "1")]).unwrap();
    ds.insert_events(&mut store, bid, vec![event_at(200, 10, "x", "1")]).unwrap();
    let b = ds.get_bucket(bid).unwrap();
    assert_eq!(b.metadata.start, Some(50 * SECOND));
    assert_eq!(b.metadata.end, Some(210 * SECOND));
    // An event inside the bounds moves nothing.
    ds.insert_events(&mut store, bid, vec![event_at(120, 1, "x", "1")]).unwrap();
    let b = ds.get_bucket(bid).unwrap();
    assert_eq!(b.metadata.start, Some(50 * SECOND));
    assert_eq!(b.metadata.end, Some(210 * SECOND));
}

#[test]
fn get_events_clips_to_the_window() {
    let (mut store, mut ds) = open_store();
    let bid = ds.create_bucket(&mut store, fresh_bucket(1, "clip")).unwrap();
    ds.insert_events(&mut store, bid, vec![event_at(100, 50, "x", "1")]).unwrap();
    let events = ds.get_events(
        &store,
        bid,
        Some(110 * SECOND),
        Some(120 * SECOND),
        None,
    ).unwrap();
    assert_eq!(events.len(), 1);
    assert_eq!(events[0].timestamp_ns, 110 * SECOND);
    assert_eq!(events[0].duration_ns, 10 * SECOND);
    // An inverted window is empty, not an error.
    let events = ds.get_events(
        &store,
        bid,
        Some(120 * SECOND),
        Some(110 * SECOND),
        None,
    ).unwrap();
    assert!(events.is_empty());
}

#[test]
fn get_events_orders_newest_first_and_caps_at_limit() {
    let (mut store, mut ds) = open_store();
    let bid = ds.create_bucket(&mut store, fresh_bucket(1, "order")).unwrap();
    ds.insert_events(
        &mut store,
        bid,
        vec![
            event_at(10, 1, "x", "1"),
            event_at(30, 1, "x", "1"),
            event_at(20, 1, "x", "1"),
        ],
    ).unwrap();
    let events = ds.get_events(&store, bid, None, None, None).unwrap();
    let starts: Vec<i64> = events.iter().map(|e| e.timestamp_ns / SECOND).collect();
    assert_eq!(starts, vec![30, 20, 10]);
    let events = ds.get_events(&store, bid, None, None, Some(2)).unwrap();
    let starts: Vec<i64> = events.iter().map(|e| e.timestamp_ns / SECOND).collect();
    assert_eq!(starts, vec![30, 20]);
}

#[test]
fn get_event_count_follows_the_window() {
    let (mut store, mut ds) = open_store();
    let bid = ds.create_bucket(&mut store, fresh_bucket(1, "count")).unwrap();
    ds.insert_events(
        &mut store,
        bid,
        vec![event_at(10, 1, "x", "1"), event_at(20, 1, "x", "1")],
    ).unwrap();
    assert_eq!(ds.get_event_count(&store, bid, None, None).unwrap(), 2);
    assert_eq!(
        ds.get_event_count(&store, bid, Some(15 * SECOND), Some(25 * SECOND)).unwrap(),
        1,
    );
    // A degenerate window counts zero without error.
    assert_eq!(
        ds.get_event_count(&store, bid, Some(25 * SECOND), Some(25 * SECOND)).unwrap(),
        0,
    );
}

#[test]
fn inserted_event_reads_back_unchanged() {
    let (mut store, mut ds) = open_store();
    let bid = ds.create_bucket(&mut store, fresh_bucket(1, "roundtrip")).unwrap();
    let ev = Event {
        id: None,
        timestamp_ns: 1_700_000_000_123_456_789,
        duration_ns: 987_654_321,
        data: one_entry_data("app", "\"editor\""),
        team_id: 1,
    };
    let inserted = ds.insert_events(&mut store, bid, vec![ev]).unwrap();
    let id = inserted[0].id.unwrap();
    let back = ds.get_event(&store, bid, id).unwrap();
    assert_eq!(back.timestamp_ns, 1_700_000_000_123_456_789);
    assert_eq!(back.duration_ns, 987_654_321);
    assert!(back.data.same_as(&one_entry_data("app", "\"editor\"")));
}

#[test]
fn insert_with_explicit_id_replaces_the_row() {
    let (mut store, mut ds) = open_store();
    let bid = ds.create_bucket(&mut store, fresh_bucket(1, "replace")).unwrap();
    let inserted = ds.insert_events(&mut store, bid, vec![event_at(10, 1, "x", "1")]).unwrap();
    let id = inserted[0].id.unwrap();
    let mut again = event_at(42, 2, "x", "2");
    again.id = Some(id);
    ds.insert_events(&mut store, bid, vec![again]).unwrap();
    assert_eq!(ds.get_event_count(&store, bid, None, None).unwrap(), 1);
    let back = ds.get_event(&store, bid, id).unwrap();
    assert_eq!(back.timestamp_ns, 42 * SECOND);
    assert_eq!(back.duration_ns, 2 * SECOND);
}

#[test]
fn delete_events_by_id_removes_only_the_named_rows() {
    let (mut store, mut ds) = open_store();
    let bid = ds.create_bucket(&mut store, fresh_bucket(1, "trim")).unwrap();
    let inserted = ds.insert_events(
        &mut store,
        bid,
        vec![event_at(10, 1, "x", "1"), event_at(20, 1, "x", "1")],
    ).unwrap();
    let first = inserted[0].id.unwrap();
    ds.delete_events_by_id(&mut store, bid, vec![first, 9999]).unwrap();
    assert_eq!(ds.get_event_count(&store, bid, None, None).unwrap(), 1);
}

#[test]
fn migration_reaches_current_version_and_reports_first_init_once() {
    let mut store = Store::new();
    assert_eq!(store.version, 0);
    let mut ds = DatastoreInstance::new(&mut store, true).unwrap();
    assert!(ds.first_init);
    assert_eq!(ds.db_version, 0);
    assert_eq!(store.version, NEWEST_DB_VERSION);
    // The first-init report is consumed exactly once.
    assert_eq!(ds.ensure_legacy_import(&store), Ok(true));
    assert_eq!(ds.ensure_legacy_import(&store), Ok(false));
    // A second open of the same store is not a first initialization.
    let ds2 = DatastoreInstance::new(&mut store, true).unwrap();
    assert!(!ds2.first_init);
    assert_eq!(ds2.db_version, NEWEST_DB_VERSION);
}

#[test]
fn migration_seeds_the_administrative_account() {
    let (store, ds) = open_store();
    let admin = ds.get_user_by_email(&store, "admin@admin.com".to_string()).unwrap();
    assert_eq!(admin.username, "admin");
    assert_eq!(admin.role, 1);
    assert!(aw_datastore::verify_password("admin", &admin.password));
    assert!(!aw_datastore::verify_password("nimda", &admin.password));
}

#[test]
fn disabled_migration_refuses_other_versions() {
    let mut store = Store::new();
    match DatastoreInstance::new(&mut store, false) {
        Err(DatastoreError::Uninitialized(_)) => {},
        other => panic!("expected Uninitialized, got {:?}", other.is_ok()),
    }
    let mut part_way = Store::new();
    part_way.version = 3;
    match DatastoreInstance::new(&mut part_way, false) {
        Err(DatastoreError::OldDbVersion(msg)) => {
            assert_eq!(
                msg,
                "Tried to open a database with an incompatible database version! \
                 Database has version 3 while the supported version is 5"
            );
        },
        other => panic!("expected OldDbVersion, got {:?}", other.is_ok()),
    }
    // A store already at the current version opens cleanly.
    let mut current = Store::new();
    DatastoreInstance::new(&mut current, true).unwrap();
    let ds = DatastoreInstance::new(&mut current, false).unwrap();
    assert!(!ds.first_init);
}

#[test]
fn delete_bucket_on_unknown_id_changes_nothing() {
    let (mut store, mut ds) = open_store();
    ds.create_bucket(&mut store, fresh_bucket(1, "keep")).unwrap();
    let buckets_before = store.buckets.len();
    let users_before = store.users.len();
    match ds.delete_bucket(&mut store, 4242) {
        Err(DatastoreError::NoSuchBucket(msg)) => assert_eq!(msg, "4242"),
        _ => panic!("expected NoSuchBucket"),
    }
    assert_eq!(store.buckets.len(), buckets_before);
    assert_eq!(store.users.len(), users_before);
}

#[test]
fn delete_bucket_drops_its_events() {
    let (mut store, mut ds) = open_store();
    let bid = ds.create_bucket(&mut store, fresh_bucket(1, "gone")).unwrap();
    let other = ds.create_bucket(&mut store, fresh_bucket(2, "kept")).unwrap();
    ds.insert_events(&mut store, bid, vec![event_at(10, 1, "x", "1")]).unwrap();
    ds.insert_events(&mut store, other, vec![event_at(20, 1, "x", "1")]).unwrap();
    ds.delete_bucket(&mut store, bid).unwrap();
    assert!(matches!(ds.get_bucket(bid), Err(DatastoreError::NoSuchBucket(_))));
    assert_eq!(store.events.len(), 1);
    assert_eq!(ds.get_event_count(&store, other, None, None).unwrap(), 1);
}

#[test]
fn buckets_are_listed_per_owner() {
    let (mut store, mut ds) = open_store();
    ds.create_bucket(&mut store, fresh_bucket(1, "a")).unwrap();
    ds.create_bucket(&mut store, fresh_bucket(1, "b")).unwrap();
    ds.create_bucket(&mut store, fresh_bucket(2, "c")).unwrap();
    assert_eq!(ds.get_buckets(&store, 1).len(), 2);
    assert_eq!(ds.get_buckets(&store, 2).len(), 1);
    assert_eq!(ds.get_buckets(&store, 3).len(), 0);
    let ids = ds.get_user_bucket_ids(&store, 1).unwrap();
    assert_eq!(ids.len(), 2);
}

#[test]
fn key_values_are_last_write_wins() {
    let (mut store, ds) = open_store();
    ds.set_key_value_at(&mut store, "settings.theme", "dark", 100).unwrap();
    ds.set_key_value_at(&mut store, "settings.theme", "light", 200).unwrap();
    assert_eq!(ds.get_key_value(&store, "settings.theme").unwrap(), "light");
    ds.delete_key_value(&mut store, "settings.theme").unwrap();
    match ds.get_key_value(&store, "settings.theme") {
        Err(DatastoreError::NoSuchKey(k)) => assert_eq!(k, "settings.theme"),
        _ => panic!("expected NoSuchKey"),
    }
}

#[test]
fn key_value_listing_keeps_to_the_settings_namespace() {
    let (mut store, ds) = open_store();
    ds.set_key_value_at(&mut store, "settings.alpha", "1", 1).unwrap();
    ds.set_key_value_at(&mut store, "settings.beta", "2", 1).unwrap();
    ds.set_key_value_at(&mut store, "other.gamma", "3", 1).unwrap();
    let rows = ds.get_key_values(&store, "%").unwrap();
    assert_eq!(rows.len(), 2);
    // The match is case-insensitive, as the storage engine's LIKE is.
    let rows = ds.get_key_values(&store, "SETTINGS.ALPHA").unwrap();
    assert_eq!(rows.len(), 1);
    assert_eq!(rows[0].value, "1");
    let rows = ds.get_key_values(&store, "settings._lpha").unwrap();
    assert_eq!(rows.len(), 1);
}

#[test]
fn corrupt_stores_are_detected() {
    // A fresh store and an opened store both pass the invariant check.
    assert!(Store::new().check_wf());
    let (store, _ds) = open_store();
    assert!(store.check_wf());
    // A duplicated bucket row fails it.
    let (mut broken, mut ds) = open_store();
    ds.create_bucket(&mut broken, fresh_bucket(1, "dup")).unwrap();
    let copy = broken.buckets[0].clone();
    broken.buckets.push(copy);
    assert!(!broken.check_wf());
    // A version beyond the supported range fails it.
    let mut ahead = Store::new();
    ahead.version = 6;
    assert!(!ahead.check_wf());
    // A counter at or below an existing id fails it.
    let (mut stale, mut ds2) = open_store();
    ds2.create_bucket(&mut stale, fresh_bucket(1, "stale")).unwrap();
    stale.next_bucket_id = 1;
    assert!(!stale.check_wf());
    // An event pointing at no bucket fails it.
    let (mut orphan, mut ds3) = open_store();
    let bid = ds3.create_bucket(&mut orphan, fresh_bucket(1, "orphan")).unwrap();
    ds3.insert_events(&mut orphan, bid, vec![event_at(10, 1, "x", "1")]).unwrap();
    orphan.events[0].bucketrow = bid + 1;
    assert!(!orphan.check_wf());
}
