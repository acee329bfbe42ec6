use aw_datastore::transform;
use aw_datastore::worker::Command;
use aw_datastore::worker::DatastoreWorker;
use aw_datastore::worker::Response;
use aw_datastore::Bucket;
use aw_datastore::BucketMetadata;
use aw_datastore::Claims;
use aw_datastore::DataEntry;
use aw_datastore::DataMap;
use aw_datastore::DatastoreError;
use aw_datastore::DatastoreInstance;
use aw_datastore::Event;
use aw_datastore::Store;
use aw_datastore::Token;

const SECOND: i64 = 1_000_000_000;

fn payload(key: &str, value: &str) -> DataMap {
    DataMap {
        entries: vec![DataEntry { key: key.to_string(), value: value.to_string() }],
    }
}

fn hb_event(t_seconds: i64, dur_seconds: i64, key: &str, value: &str) -> Event {
    Event {
        id: None,
        timestamp_ns: t_seconds * SECOND,
        duration_ns: dur_seconds * SECOND,
        data: payload(key, value),
        team_id: 1,
    }
}

fn plain_bucket(user_id: i32, kind: &str) -> Bucket {
    Bucket {
        bid: 0,
        _type: kind.to_string(),
        created: Some(1_000 * SECOND),
        data: DataMap { entries: Vec::new() },
        metadata: BucketMetadata { start: None, end: None },
        events: None,
        last_updated: None,
        user_id,
    }
}

fn opened() -> (Store, DatastoreInstance) {
    let mut store = Store::new();
    let ds = DatastoreInstance::new(&mut store, true).expect("open failed");
    (store, ds)
}

#[test]
fn merge_extends_only_past_the_existing_end() {
    let last = hb_event(100, 5, "x", "1");
    // Ends at 105 like the last event: the duration stays 5.
    let merged = transform::heartbeat(&last, &hb_event(103, 2, "x", "1"), 10 * SECOND).unwrap();
    assert_eq!(merged.timestamp_ns, 100 * SECOND);
    assert_eq!(merged.duration_ns, 5 * SECOND);
    // Ends at 107: the duration stretches to 7.
    let merged = transform::heartbeat(&merged, &hb_event(106, 1, "x", "1"), 10 * SECOND).unwrap();
    assert_eq!(merged.timestamp_ns, 100 * SECOND);
    assert_eq!(merged.duration_ns, 7 * SECOND);
    // A different payload never merges, whatever the gap.
    assert!(transform::heartbeat(&last, &hb_event(103, 2, "x", "2"), 10 * SECOND).is_none());
    // A heartbeat from before the last event never merges.
    assert!(transform::heartbeat(&last, &hb_event(99, 1, "x", "1"), 10 * SECOND).is_none());
}

#[test]
fn merge_refuses_a_gap_beyond_the_pulsetime() {
    let last = hb_event(100, 5, "x", "1");
    // Gap of 11 seconds from the end at 105, pulsetime 10: no merge.
    assert!(transform::heartbeat(&last, &hb_event(116, 1, "x", "1"), 10 * SECOND).is_none());
    // Gap of exactly 10 seconds still merges.
    assert!(transform::heartbeat(&last, &hb_event(115, 1, "x", "1"), 10 * SECOND).is_some());
}

#[test]
fn heartbeats_coalesce_in_the_store() {
    let (mut store, mut ds) = opened();
    let bid = ds.create_bucket(&mut store, plain_bucket(1, "hb")).unwrap();
    let mut slots = Vec::new();
    // The first heartbeat becomes the bucket's first event.
    let first = ds.heartbeat(&mut store, bid, hb_event(100, 5, "x", "1"), 10 * SECOND, &mut slots)
        .unwrap();
    assert_eq!(first.timestamp_ns, 100 * SECOND);
    assert_eq!(ds.get_event_count(&store, bid, None, None).unwrap(), 1);
    // A close heartbeat with the same payload merges into the same row.
    let merged = ds.heartbeat(&mut store, bid, hb_event(106, 1, "x", "1"), 10 * SECOND, &mut slots)
        .unwrap();
    assert_eq!(merged.timestamp_ns, 100 * SECOND);
    assert_eq!(merged.duration_ns, 7 * SECOND);
    assert_eq!(ds.get_event_count(&store, bid, None, None).unwrap(), 1);
    // A gap beyond the pulsetime starts a new row.
    let apart = ds.heartbeat(&mut store, bid, hb_event(118, 1, "x", "1"), 10 * SECOND, &mut slots)
        .unwrap();
    assert_eq!(apart.timestamp_ns, 118 * SECOND);
    assert_eq!(ds.get_event_count(&store, bid, None, None).unwrap(), 2);
    // A different payload starts a new row too.
    ds.heartbeat(&mut store, bid, hb_event(119, 1, "x", "2"), 10 * SECOND, &mut slots).unwrap();
    assert_eq!(ds.get_event_count(&store, bid, None, None).unwrap(), 3);
    // An unknown bucket is refused.
    match ds.heartbeat(&mut store, 999, hb_event(1, 1, "x", "1"), SECOND, &mut slots) {
        Err(DatastoreError::NoSuchBucket(_)) => {},
        _ => panic!("expected NoSuchBucket"),
    }
}

#[test]
fn worker_keeps_the_commit_bookkeeping() {
    let mut w = DatastoreWorker::new(Store::new(), false).unwrap();
    assert!(!w.commit && !w.quit && w.uncommitted_events == 0);
    // Creating a bucket requests a commit.
    let resp = w.handle_request(Command::CreateBucket(plain_bucket(1, "wk"))).unwrap();
    let bid = match resp {
        Response::Count(id) => id,
        _ => panic!("expected a Count response"),
    };
    assert!(w.commit);
    w.mark_committed();
    assert!(!w.commit && w.uncommitted_events == 0);
    // Written events are counted until the next commit.
    let events = vec![hb_event(10, 1, "x", "1"), hb_event(20, 1, "x", "1")];
    w.handle_request(Command::InsertEvents(bid, events)).unwrap();
    assert_eq!(w.uncommitted_events, 2);
    assert!(!w.commit);
    w.handle_request(Command::Heartbeat(bid, hb_event(30, 1, "x", "1"), 10 * SECOND)).unwrap();
    assert_eq!(w.uncommitted_events, 3);
    // An explicit flush and a shutdown are both commit points.
    match w.handle_request(Command::ForceCommit()).unwrap() {
        Response::Empty() => {},
        _ => panic!("expected Empty"),
    }
    assert!(w.commit);
    w.handle_request(Command::Close()).unwrap();
    assert!(w.quit);
}

#[test]
fn commit_is_due_on_time_count_flag_or_shutdown() {
    let mut w = DatastoreWorker::new(Store::new(), false).unwrap();
    let t0 = 1_000_000 * SECOND;
    assert!(!w.should_commit(t0, t0));
    assert!(!w.should_commit(t0 + 15 * SECOND, t0));
    assert!(w.should_commit(t0 + 16 * SECOND, t0));
    w.uncommitted_events = 100;
    assert!(!w.should_commit(t0, t0));
    w.uncommitted_events = 101;
    assert!(w.should_commit(t0, t0));
    w.uncommitted_events = 0;
    w.commit = true;
    assert!(w.should_commit(t0, t0));
    w.commit = false;
    w.quit = true;
    assert!(w.should_commit(t0, t0));
}

#[test]
fn accounts_and_teams_round_trip() {
    let (mut store, ds) = opened();
    let user = aw_datastore::User {
        id: 0,
        email: "ada@example.com".to_string(),
        username: "ada".to_string(),
        name: "Ada".to_string(),
        lastname: "Lovelace".to_string(),
        role: 1,
        password: aw_datastore::generate_hash("engine"),
    };
    ds.signup(&mut store, user).unwrap();
    let stored = ds.get_user_by_email(&store, "ada@example.com".to_string()).unwrap();
    // The stored row always takes the member role, whatever was asked.
    assert_eq!(stored.role, 2);
    assert!(aw_datastore::verify_password("engine", &stored.password));
    let public = ds.get_user(&store, stored.id).unwrap();
    assert_eq!(public.email, "ada@example.com");
    // A second account under the same address is refused.
    let duplicate = aw_datastore::User {
        id: 0,
        email: "ada@example.com".to_string(),
        username: "ada2".to_string(),
        name: "A".to_string(),
        lastname: "L".to_string(),
        role: 1,
        password: "x".to_string(),
    };
    assert!(matches!(
        ds.signup(&mut store, duplicate),
        Err(DatastoreError::InternalError(_))
    ));
    // Teams: create, enroll, count, list, strike.
    let request = aw_datastore::TeamRequestModel {
        name: "analysts".to_string(),
        description: "number crunchers".to_string(),
        ownerId: stored.id,
    };
    let team = ds.add_team(&mut store, request, stored.id).unwrap();
    assert_eq!(ds.get_teams(&store, stored.id).unwrap().len(), 1);
    assert_eq!(ds.get_team(&store, team.id).unwrap().name, "analysts");
    ds.add_members(&mut store, team.id, vec![stored.id]).unwrap();
    assert_eq!(ds.get_team_members_count(&store, team.id).unwrap(), 1);
    let members = ds.get_team_members(&store, team.id).unwrap();
    assert_eq!(members.len(), 1);
    assert_eq!(members[0].email, "ada@example.com");
    let listings = ds.get_user_teams(&store, stored.id).unwrap();
    assert_eq!(listings.len(), 1);
    assert_eq!(listings[0].name, "analysts");
    let membership_id = store.teams_users[0].id;
    ds.remove_member(&mut store, team.id, membership_id).unwrap();
    assert_eq!(ds.get_team_members_count(&store, team.id).unwrap(), 0);
}

#[test]
fn configurations_round_trip_through_their_stored_form() {
    let (mut store, ds) = opened();
    ds.add_configuration(&mut store, 7, "app1,app2".to_string()).unwrap();
    let cfg = ds.get_configuration(&store, 7).unwrap();
    assert_eq!(cfg.team_id, 7);
    assert_eq!(cfg.apps, vec!["app1".to_string(), "app2".to_string()]);
    ds.update_configuration(&mut store, 7, "".to_string()).unwrap();
    let cfg = ds.get_configuration(&store, 7).unwrap();
    assert!(cfg.apps.is_empty());
    assert!(matches!(
        ds.get_configuration(&store, 8),
        Err(DatastoreError::InternalError(_))
    ));
}

#[test]
fn like_matching_is_case_insensitive_with_wildcards() {
    assert!(aw_datastore::like_match("a%c", "abbbc"));
    assert!(aw_datastore::like_match("a_c", "abc"));
    assert!(!aw_datastore::like_match("a_c", "abbc"));
    assert!(aw_datastore::like_match("ABC", "abc"));
    assert!(aw_datastore::like_match("%", ""));
    assert!(!aw_datastore::like_match("_", ""));
}

#[test]
fn numbers_render_in_decimal() {
    assert_eq!(aw_datastore::i64_string(0), "0");
    assert_eq!(aw_datastore::i64_string(7), "7");
    assert_eq!(aw_datastore::i64_string(1234567890), "1234567890");
    assert_eq!(aw_datastore::i64_string(-123), "-123");
    assert_eq!(aw_datastore::i64_string(i64::MIN), "-9223372036854775808");
    assert_eq!(aw_datastore::i32_string(i32::MAX), "2147483647");
}

#[test]
fn commas_split_into_pieces() {
    let pieces = aw_datastore::split_commas("a,b,c");
    assert_eq!(pieces, vec!["a".to_string(), "b".to_string(), "c".to_string()]);
    let pieces = aw_datastore::split_commas(",x");
    assert_eq!(pieces, vec!["".to_string(), "x".to_string()]);
    let pieces = aw_datastore::split_commas("plain");
    assert_eq!(pieces, vec!["plain".to_string()]);
}

#[test]
fn tokens_round_trip_for_a_live_expiry() {
    let claims = Claims { userId: 7, exp: 10_000_000_000 };
    let token = aw_datastore::create_jwt(&claims).expect("token");
    assert_eq!(aw_datastore::validate_jwt(&token), Some(7));
    assert_eq!(aw_datastore::validate_jwt("not a token"), None);
    let carried = Token(token);
    assert!(!carried.0.is_empty());
}

#[test]
fn payload_comparison_is_by_entries() {
    let a = payload("x", "1");
    let b = payload("x", "1");
    let c = payload("x", "2");
    assert!(a.same_as(&b));
    assert!(!a.same_as(&c));
    assert!(!a.same_as(&DataMap { entries: Vec::new() }));
}

#[test]
fn payload_writes_keep_keys_ordered() {
    let mut data = DataMap::new();
    data.set("title".to_string(), "\"report\"".to_string());
    data.set("app".to_string(), "\"editor\"".to_string());
    data.set("title".to_string(), "\"draft\"".to_string());
    let keys: Vec<&str> = data.entries.iter().map(|e| e.key.as_str()).collect();
    assert_eq!(keys, vec!["app", "title"]);
    assert_eq!(data.entries[1].value, "\"draft\"");
}

#[test]
fn worker_forwards_repository_errors_unchanged() {
    let mut w = DatastoreWorker::new(Store::new(), false).unwrap();
    match w.handle_request(Command::GetBucket(777)) {
        Err(DatastoreError::NoSuchBucket(msg)) => assert_eq!(msg, "777"),
        _ => panic!("expected NoSuchBucket"),
    }
    match w.handle_request(Command::GetKeyValue("absent".to_string())) {
        Err(DatastoreError::NoSuchKey(k)) => assert_eq!(k, "absent"),
        _ => panic!("expected NoSuchKey"),
    }
}

#[test]
fn heartbeat_resolves_from_storage_after_invalidation() {
    let mut w = DatastoreWorker::new(Store::new(), false).unwrap();
    let resp = w.handle_request(Command::CreateBucket(plain_bucket(1, "cold"))).unwrap();
    let bid = match resp {
        Response::Count(id) => id,
        _ => panic!("expected Count"),
    };
    // The insert empties the bucket's last-heartbeat slot...
    w.handle_request(Command::InsertEvents(bid, vec![hb_event(100, 5, "x", "1")])).unwrap();
    // ...so the next heartbeat resolves the last event from the store and merges.
    let resp = w.handle_request(Command::Heartbeat(bid, hb_event(106, 1, "x", "1"), 10 * SECOND))
        .unwrap();
    let merged = match resp {
        Response::Event(e) => e,
        _ => panic!("expected Event"),
    };
    assert_eq!(merged.timestamp_ns, 100 * SECOND);
    assert_eq!(merged.duration_ns, 7 * SECOND);
    match w.handle_request(Command::GetEventCount(bid, None, None)).unwrap() {
        Response::Count(n) => assert_eq!(n, 1),
        _ => panic!("expected Count"),
    }
}
