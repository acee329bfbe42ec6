//! The repository: every bucket, event, key-value, user and team operation,
//! executed against a store and a write-through cache of bucket metadata.

use vstd::prelude::*;
use vstd::string::StringExecFns;

use crate::bucket::Bucket;
use crate::bucket::BucketMetadata;
use crate::bucket::BucketMetadataView;
use crate::bucket::BucketView;
use crate::event::Event;
use crate::event::EventView;
use crate::migrations::_create_tables;
use crate::migrations::_get_db_version;
use crate::migrations::NEWEST_DB_VERSION;
use crate::store::BucketRow;
use crate::store::BucketRowView;
use crate::store::event_table_wf;
use crate::store::EventRow;
use crate::store::EventRowView;
use crate::store::KeyValueRow;
use crate::team::Member;
use crate::team::MemberView;
use crate::team::TeamConfiguration;
use crate::team::TeamUserModel;
use crate::team::Team;
use crate::team::TeamRequestModel;
use crate::team::TeamUserModelView;
use crate::team::TeamView;
use crate::user::PublicUser;
use crate::user::User;
use crate::user::UserView;
use crate::store::KeyValueRowView;
use crate::store::Store;
use crate::store::TeamUserRow;
use crate::store::TeamUserRowView;
use crate::store::TeamConfigurationRow;
use crate::store::TeamConfigurationRowView;
use crate::transform::spec_merged;
use crate::transform::spec_merges;
use crate::DatastoreError;

verus! {

/// A cache entry reflects its bucket row: same identity and payload, the
/// creation time stamped, and no inline events.
pub open spec fn cache_entry_matches_row(b: BucketView, r: BucketRowView) -> bool {
    &&& b.bid == r.id
    &&& b._type == r._type
    &&& b.created == Some(r.created_ns)
    &&& b.data == r.data
    &&& b.user_id == r.user_id
    &&& b.events is None
}

/// Some cached bucket carries the given id.
pub open spec fn cache_has_bucket(c: Seq<BucketView>, bid: int) -> bool {
    exists|i: int| 0 <= i < c.len() && (#[trigger] c[i]).bid == bid
}

/// Some event row belongs to the given bucket.
pub open spec fn has_bucket_events(events: Seq<EventRowView>, bid: int) -> bool {
    exists|j: int| 0 <= j < events.len() && (#[trigger] events[j]).bucketrow == bid
}

/// Cached bounds never understate a bucket's events: every present event of
/// the bucket starts no earlier than `start` says and ends no later than
/// `end` says.
pub open spec fn metadata_bounds(
    md: BucketMetadataView,
    events: Seq<EventRowView>,
    bid: int,
) -> bool {
    forall|j: int|
        0 <= j < events.len() && (#[trigger] events[j]).bucketrow == bid ==> md.start is Some
            && md.start->0 <= events[j].starttime_ns && md.end is Some && events[j].endtime_ns
            <= md.end->0
}

/// Cached bounds are exact: `start` is the least start time of the bucket's
/// events and `end` the greatest end time, or both absent when the bucket
/// has no events.
pub open spec fn metadata_exact(
    md: BucketMetadataView,
    events: Seq<EventRowView>,
    bid: int,
) -> bool {
    &&& metadata_bounds(md, events, bid)
    &&& (md.start is None <==> !has_bucket_events(events, bid))
    &&& (md.end is None <==> !has_bucket_events(events, bid))
    &&& has_bucket_events(events, bid) ==> (exists|j: int|
        0 <= j < events.len() && (#[trigger] events[j]).bucketrow == bid
            && events[j].starttime_ns == md.start->0)
    &&& has_bucket_events(events, bid) ==> (exists|j: int|
        0 <= j < events.len() && (#[trigger] events[j]).bucketrow == bid && events[j].endtime_ns
            == md.end->0)
}

/// Cached bounds stretched to cover one more event.
pub open spec fn spec_extend_metadata(
    md: BucketMetadataView,
    start_ns: int,
    end_ns: int,
) -> BucketMetadataView {
    BucketMetadataView {
        start: Some(
            match md.start {
                Some(s) => if s <= start_ns {
                    s
                } else {
                    start_ns
                },
                None => start_ns,
            },
        ),
        end: Some(
            match md.end {
                Some(t) => if t >= end_ns {
                    t
                } else {
                    end_ns
                },
                None => end_ns,
            },
        ),
    }
}

/// The row an event is persisted as.
pub open spec fn event_row_of(ev: EventView, bid: int, id: int) -> EventRowView {
    EventRowView {
        id: id,
        bucketrow: bid,
        starttime_ns: ev.timestamp_ns,
        endtime_ns: ev.timestamp_ns + ev.duration_ns,
        data: ev.data,
        team_id: ev.team_id,
    }
}

/// Whether one event can be inserted: representable duration and an id that
/// leaves room in the id space.
pub open spec fn event_insertable(ev: EventView, next_id: int) -> bool {
    &&& 0 <= ev.duration_ns <= i64::MAX
    &&& ev.timestamp_ns + ev.duration_ns <= i64::MAX
    &&& match ev.id {
        Some(id) => id < i64::MAX,
        None => next_id < i64::MAX,
    }
}

/// The diagnostic a refused event gets: the fixed conversion complaint for
/// an unrepresentable duration, else one naming the event by its start.
pub open spec fn spec_insert_failure_message(ev: EventView, next_id: int) -> Seq<char> {
    if !(0 <= ev.duration_ns <= i64::MAX) || ev.timestamp_ns + ev.duration_ns > i64::MAX {
        "Failed to convert duration to nanoseconds"@
    } else {
        "Failed to insert event with start "@ + crate::text::spec_i64_string(ev.timestamp_ns)
            + " ns: event id space exhausted"@
    }
}

/// The event table, the id counter, the bucket's cached bounds, the
/// returned events and the failure diagnostic as one batch insert walks its
/// input.
pub ghost struct EventInsertState {
    pub table: Seq<EventRowView>,
    pub next_id: int,
    pub md: BucketMetadataView,
    pub out: Seq<EventView>,
    pub failed: bool,
    pub err: Seq<char>,
}

/// One step of a batch insert: a failed batch stays failed; an uninsertable
/// event fails the batch; otherwise the event takes its own id or the next
/// fresh one, displaces any row carrying that id, lands in the table, and
/// stretches the cached bounds.
pub open spec fn spec_insert_step(st: EventInsertState, ev: EventView, bid: int) -> EventInsertState {
    if st.failed {
        st
    } else if !event_insertable(ev, st.next_id) {
        EventInsertState { failed: true, err: spec_insert_failure_message(ev, st.next_id), ..st }
    } else {
        let id = match ev.id {
            Some(id) => id,
            None => st.next_id,
        };
        EventInsertState {
            table: st.table.filter(|r: EventRowView| r.id != id).push(event_row_of(ev, bid, id)),
            next_id: if id + 1 > st.next_id {
                id + 1
            } else {
                st.next_id
            },
            md: spec_extend_metadata(st.md, ev.timestamp_ns, ev.timestamp_ns + ev.duration_ns),
            out: st.out.push(EventView { id: Some(id), ..ev }),
            failed: false,
            err: st.err,
        }
    }
}

/// A whole batch insert, first event first.
pub open spec fn spec_insert_fold(
    st: EventInsertState,
    evs: Seq<EventView>,
    bid: int,
) -> EventInsertState
    decreases evs.len(),
{
    if evs.len() == 0 {
        st
    } else {
        spec_insert_fold(spec_insert_step(st, evs[0], bid), evs.skip(1), bid)
    }
}

/// A batch insert over one more event is the batch insert followed by one
/// step.
pub proof fn lemma_insert_fold_push(st: EventInsertState, evs: Seq<EventView>, ev: EventView, bid: int)
    ensures
        spec_insert_fold(st, evs.push(ev), bid) == spec_insert_step(
            spec_insert_fold(st, evs, bid),
            ev,
            bid,
        ),
    decreases evs.len(),
{
    if evs.len() == 0 {
        let s = evs.push(ev);
        assert(s[0] == ev);
        assert(s.skip(1) =~= Seq::<EventView>::empty());
        assert(spec_insert_fold(st, s, bid) == spec_insert_fold(
            spec_insert_step(st, ev, bid),
            s.skip(1),
            bid,
        ));
        assert(spec_insert_fold(spec_insert_step(st, ev, bid), s.skip(1), bid)
            == spec_insert_step(st, ev, bid));
        assert(spec_insert_fold(st, evs, bid) == st);
    } else {
        assert(evs.push(ev)[0] == evs[0]);
        assert(evs.push(ev).skip(1) =~= evs.skip(1).push(ev));
        lemma_insert_fold_push(spec_insert_step(st, evs[0], bid), evs.skip(1), ev, bid);
    }
}

/// The repository over one open store: the bucket cache, whether the store
/// was empty at open, and the version found then.
pub struct DatastoreInstance {
    pub buckets_cache: Vec<Bucket>,
    pub first_init: bool,
    pub db_version: i32,
}

impl DatastoreInstance {
    /// The cached buckets, in bucket-table order.
    pub open spec fn cache_view(&self) -> Seq<BucketView> {
        self.buckets_cache@.map_values(|b: Bucket| b@)
    }

    /// The repository invariant against its store: the store is well
    /// formed, the cache mirrors the bucket table row for row, and each
    /// entry's metadata bounds the bucket's present events.
    pub open spec fn wf(&self, store: Store) -> bool {
        &&& store.wf()
        &&& self.cache_view().len() == store.buckets_view().len()
        &&& forall|i: int|
            0 <= i < self.cache_view().len() ==> cache_entry_matches_row(
                #[trigger] self.cache_view()[i],
                store.buckets_view()[i],
            )
        &&& forall|i: int|
            0 <= i < self.cache_view().len() ==> metadata_bounds(
                (#[trigger] self.cache_view()[i]).metadata,
                store.events_view(),
                self.cache_view()[i].bid,
            )
    }

    /// Every cache entry's bounds are exact for the store's events.
    pub open spec fn cache_exact(&self, store: Store) -> bool {
        forall|i: int|
            0 <= i < self.cache_view().len() ==> metadata_exact(
                (#[trigger] self.cache_view()[i]).metadata,
                store.events_view(),
                self.cache_view()[i].bid,
            )
    }

    /// Open a store: migrate it to the current version where migration is
    /// enabled, refuse it otherwise unless it already is current, and load
    /// the bucket cache with exact metadata.
    pub fn new(store: &mut Store, migrate_enabled: bool) -> (r: Result<
        DatastoreInstance,
        DatastoreError,
    >)
        requires
            old(store).wf(),
            old(store).spec_version() < 5 ==> old(store).next_user_id < i32::MAX,
        ensures
            match r {
                Ok(ds) => {
                    &&& ds.wf(*final(store))
                    &&& ds.cache_exact(*final(store))
                    &&& final(store).spec_version() == 5
                    &&& ds.db_version == old(store).spec_version()
                    &&& ds.first_init == (migrate_enabled && old(store).spec_version() == 0)
                    &&& final(store).buckets_view() == old(store).buckets_view()
                    &&& final(store).events_view() == old(store).events_view()
                    &&& final(store).key_values_view() == old(store).key_values_view()
                },
                Err(e) => {
                    &&& *final(store) == *old(store)
                    &&& !migrate_enabled
                    &&& old(store).spec_version() != 5
                    &&& (e is Uninitialized <==> old(store).spec_version() == 0)
                    &&& old(store).spec_version() != 0 ==> (e matches DatastoreError::OldDbVersion(
                        m,
                    ) && m@ == version_mismatch_message(old(store).spec_version()))
                },
            },
            (r is Err) == (!migrate_enabled && old(store).spec_version() != 5),
    {
        let mut first_init = false;
        let db_version = _get_db_version(store);
        if migrate_enabled {
            first_init = _create_tables(store, db_version);
        } else if db_version == 0 {
            return Err(
                DatastoreError::Uninitialized(
                    "Tried to open an uninitialized datastore with migration disabled".to_owned(),
                ),
            );
        } else if db_version != NEWEST_DB_VERSION {
            let mut msg =
                "Tried to open a database with an incompatible database version! Database has version ".to_owned();
            msg.append(crate::text::i32_string(db_version).as_str());
            msg.append(" while the supported version is ");
            msg.append(crate::text::i32_string(NEWEST_DB_VERSION).as_str());
            proof {
                assert(msg@ == version_mismatch_message(store.spec_version()));
            }
            return Err(DatastoreError::OldDbVersion(msg));
        }
        let mut ds = DatastoreInstance { buckets_cache: Vec::new(), first_init, db_version };
        let res = ds.get_stored_buckets(store);
        match res {
            Ok(()) => Ok(ds),
            Err(e) => Err(e),
        }
    }

    /// Rebuild the cache from the store: one entry per bucket row, its
    /// metadata computed as the exact bounds of the bucket's events.
    fn get_stored_buckets(&mut self, store: &Store) -> (r: Result<(), DatastoreError>)
        requires
            store.wf(),
        ensures
            r is Ok,
            final(self).wf(*store),
            final(self).cache_exact(*store),
            final(self).first_init == old(self).first_init,
            final(self).db_version == old(self).db_version,
    {
        self.buckets_cache = Vec::new();
        let n = store.buckets.len();
        let mut i: usize = 0;
        while i < n
            invariant
                store.wf(),
                n == store.buckets.len(),
                i <= n,
                self.buckets_cache@.len() == i,
                forall|k: int|
                    0 <= k < i ==> cache_entry_matches_row(
                        #[trigger] self.cache_view()[k],
                        store.buckets_view()[k],
                    ),
                forall|k: int|
                    0 <= k < i ==> metadata_exact(
                        (#[trigger] self.cache_view()[k]).metadata,
                        store.events_view(),
                        self.cache_view()[k].bid,
                    ),
                self.first_init == old(self).first_init,
                self.db_version == old(self).db_version,
            decreases n - i,
        {
            let row = &store.buckets[i];
            let ghost bid = row.id as int;
            let mut start: Option<i64> = None;
            let mut end: Option<i64> = None;
            let m = store.events.len();
            let mut j: usize = 0;
            while j < m
                invariant
                    m == store.events.len(),
                    j <= m,
                    bid == row.id as int,
                    (start is None) <==> (forall|k: int|
                        0 <= k < j ==> (#[trigger] store.events_view()[k]).bucketrow != bid),
                    (end is None) <==> (start is None),
                    start matches Some(s) ==> (exists|k: int|
                        0 <= k < j && (#[trigger] store.events_view()[k]).bucketrow == bid
                            && store.events_view()[k].starttime_ns == s as int),
                    end matches Some(t) ==> (exists|k: int|
                        0 <= k < j && (#[trigger] store.events_view()[k]).bucketrow == bid
                            && store.events_view()[k].endtime_ns == t as int),
                    forall|k: int|
                        0 <= k < j && (#[trigger] store.events_view()[k]).bucketrow == bid
                            ==> start is Some && start->0 <= store.events_view()[k].starttime_ns
                            && end is Some && store.events_view()[k].endtime_ns <= end->0,
                decreases m - j,
            {
                let ev = &store.events[j];
                proof {
                    assert(store.events_view()[j as int] == store.events@[j as int]@);
                }
                if ev.bucketrow == row.id {
                    proof {
                        assert(store.events_view()[j as int].bucketrow == bid);
                    }
                    start = match start {
                        Some(s) => if s <= ev.starttime_ns {
                            Some(s)
                        } else {
                            Some(ev.starttime_ns)
                        },
                        None => Some(ev.starttime_ns),
                    };
                    end = match end {
                        Some(t) => if t >= ev.endtime_ns {
                            Some(t)
                        } else {
                            Some(ev.endtime_ns)
                        },
                        None => Some(ev.endtime_ns),
                    };
                }
                j = j + 1;
            }
            let bucket = Bucket {
                bid: row.id,
                _type: row._type.clone(),
                created: Some(row.created_ns),
                data: row.data.clone(),
                metadata: BucketMetadata { start, end },
                events: None,
                last_updated: None,
                user_id: row.user_id,
            };
            proof {
                assert(metadata_exact(bucket.metadata@, store.events_view(), bid));
            }
            let ghost pre = self.buckets_cache@;
            let ghost prev_view = self.cache_view();
            self.buckets_cache.push(bucket);
            proof {
                assert forall|k: int| 0 <= k < i as int implies #[trigger] self.cache_view()[k]
                    == prev_view[k] by {
                    assert(self.buckets_cache@[k] == pre[k]);
                }
                assert(self.cache_view()[i as int] == self.buckets_cache@[i as int]@);
            }
            i = i + 1;
        }
        Ok(())
    }

    /// Serve a bucket from the cache, or report that no bucket has the id.
    pub fn get_bucket(&self, bucket_id: i64) -> (r: Result<Bucket, DatastoreError>)
        ensures
            match r {
                Ok(b) => exists|i: int|
                    0 <= i < self.cache_view().len() && #[trigger] self.cache_view()[i] == b@
                        && b@.bid == bucket_id as int,
                Err(e) => e is NoSuchBucket,
            },
            (r is Err) == !cache_has_bucket(self.cache_view(), bucket_id as int),
    {
        let n = self.buckets_cache.len();
        let mut i: usize = 0;
        while i < n
            invariant
                n == self.buckets_cache@.len(),
                i <= n,
                forall|k: int| 0 <= k < i ==> (#[trigger] self.cache_view()[k]).bid != bucket_id as int,
            decreases n - i,
        {
            if self.buckets_cache[i].bid == bucket_id {
                let b = self.buckets_cache[i].clone();
                proof {
                    assert(self.cache_view()[i as int] == b@);
                    assert(cache_has_bucket(self.cache_view(), bucket_id as int));
                }
                return Ok(b);
            }
            i = i + 1;
        }
        Err(DatastoreError::NoSuchBucket(crate::text::i64_string(bucket_id)))
    }

    /// Look a bucket identity up in the store: the id of the row carrying
    /// the given owner and type, or -1 when there is none.
    pub fn get_bucket_from_database(&mut self, store: &Store, bucket: Bucket) -> (r: Result<
        i64,
        DatastoreError,
    >)
        ensures
            r matches Ok(id) && (if bucket_identity_exists(
                store.buckets_view(),
                bucket@.user_id,
                bucket@._type,
            ) {
                exists|i: int|
                    0 <= i < store.buckets_view().len() && (#[trigger] store.buckets_view()[i]).user_id
                        == bucket@.user_id && store.buckets_view()[i]._type == bucket@._type
                        && store.buckets_view()[i].id == id as int
            } else {
                id == -1
            }),
            *final(self) == *old(self),
    {
        let n = store.buckets.len();
        let mut i: usize = 0;
        while i < n
            invariant
                n == store.buckets@.len(),
                i <= n,
                forall|k: int|
                    0 <= k < i ==> !((#[trigger] store.buckets_view()[k]).user_id == bucket@.user_id
                        && store.buckets_view()[k]._type == bucket@._type),
            decreases n - i,
        {
            let row = &store.buckets[i];
            if row.user_id == bucket.user_id && row._type == bucket._type {
                proof {
                    assert(store.buckets_view()[i as int] == store.buckets@[i as int]@);
                }
                return Ok(row.id);
            }
            proof {
                assert(store.buckets_view()[i as int] == store.buckets@[i as int]@);
            }
            i = i + 1;
        }
        Ok(-1i64)
    }

    /// The ids of every bucket the user owns, in table order.
    #[verifier::loop_isolation(false)]
    pub fn get_user_bucket_ids(&mut self, store: &Store, user_id: i32) -> (r: Result<
        Vec<i64>,
        DatastoreError,
    >)
        ensures
            r matches Ok(ids) && ids@.map_values(|id: i64| id as int) == store.buckets_view()
                .filter(|row: BucketRowView| row.user_id == user_id as int).map_values(
                |row: BucketRowView| row.id,
            ),
            *final(self) == *old(self),
    {
        let ghost pred = |row: BucketRowView| row.user_id == user_id as int;
        let n = store.buckets.len();
        let mut ids: Vec<i64> = Vec::new();
        proof {
            crate::lemmas::lemma_filter_empty(store.buckets_view().take(0), pred);
            assert(store.buckets_view().take(0) =~= Seq::<BucketRowView>::empty());
            assert(ids@.map_values(|id: i64| id as int) =~= store.buckets_view().take(0).filter(
                pred,
            ).map_values(|row: BucketRowView| row.id));
        }
        let mut i: usize = 0;
        while i < n
            invariant
                n == store.buckets@.len(),
                i <= n,
                ids@.map_values(|id: i64| id as int) == store.buckets_view().take(i as int).filter(
                    pred,
                ).map_values(|row: BucketRowView| row.id),
            decreases n - i,
        {
            let row = &store.buckets[i];
            let ghost pre = ids@;
            proof {
                assert(store.buckets_view()[i as int] == store.buckets@[i as int]@);
                assert(store.buckets_view().take(i as int + 1) =~= store.buckets_view().take(
                    i as int,
                ).push(store.buckets_view()[i as int]));
                crate::lemmas::lemma_filter_push(
                    store.buckets_view().take(i as int),
                    pred,
                    store.buckets_view()[i as int],
                );
            }
            if row.user_id == user_id {
                ids.push(row.id);
                proof {
                    assert(pred(store.buckets_view()[i as int]));
                    assert(ids@.map_values(|id: i64| id as int) =~= pre.map_values(
                        |id: i64| id as int,
                    ).push(row.id as int));
                    assert(ids@.map_values(|id: i64| id as int) =~= store.buckets_view().take(
                        i as int + 1,
                    ).filter(pred).map_values(|row: BucketRowView| row.id));
                }
            } else {
                proof {
                    assert(!pred(store.buckets_view()[i as int]));
                    assert(ids@.map_values(|id: i64| id as int) =~= store.buckets_view().take(
                        i as int + 1,
                    ).filter(pred).map_values(|row: BucketRowView| row.id));
                }
            }
            i = i + 1;
        }
        proof {
            assert(store.buckets_view().take(n as int) =~= store.buckets_view());
        }
        Ok(ids)
    }

    /// Every cached bucket the user owns, in cache order.
    #[verifier::loop_isolation(false)]
    pub fn get_buckets(&mut self, store: &Store, user_id: i32) -> (r: Vec<Bucket>)
        ensures
            r@.map_values(|b: Bucket| b@) == old(self).cache_view().filter(
                |b: BucketView| b.user_id == user_id as int,
            ),
            *final(self) == *old(self),
    {
        let ghost pred = |b: BucketView| b.user_id == user_id as int;
        let n = self.buckets_cache.len();
        let mut out: Vec<Bucket> = Vec::new();
        proof {
            crate::lemmas::lemma_filter_empty(self.cache_view().take(0), pred);
            assert(self.cache_view().take(0) =~= Seq::<BucketView>::empty());
            assert(out@.map_values(|b: Bucket| b@) =~= self.cache_view().take(0).filter(pred));
        }
        let mut i: usize = 0;
        while i < n
            invariant
                n == self.buckets_cache@.len(),
                i <= n,
                out@.map_values(|b: Bucket| b@) == self.cache_view().take(i as int).filter(pred),
            decreases n - i,
        {
            let ghost pre = out@;
            proof {
                assert(self.cache_view()[i as int] == self.buckets_cache@[i as int]@);
                assert(self.cache_view().take(i as int + 1) =~= self.cache_view().take(
                    i as int,
                ).push(self.cache_view()[i as int]));
                crate::lemmas::lemma_filter_push(
                    self.cache_view().take(i as int),
                    pred,
                    self.cache_view()[i as int],
                );
            }
            if self.buckets_cache[i].user_id == user_id {
                let b = self.buckets_cache[i].clone();
                out.push(b);
                proof {
                    assert(pred(self.cache_view()[i as int]));
                    assert(out@.map_values(|b: Bucket| b@) =~= pre.map_values(|b: Bucket| b@).push(
                        self.cache_view()[i as int],
                    ));
                    assert(out@.map_values(|b: Bucket| b@) =~= self.cache_view().take(
                        i as int + 1,
                    ).filter(pred));
                }
            } else {
                proof {
                    assert(!pred(self.cache_view()[i as int]));
                    assert(out@.map_values(|b: Bucket| b@) =~= self.cache_view().take(
                        i as int + 1,
                    ).filter(pred));
                }
            }
            i = i + 1;
        }
        proof {
            assert(self.cache_view().take(n as int) =~= self.cache_view());
        }
        out
    }
    /// Read events from a bucket, newest first: those overlapping the
    /// window, clipped to it, at most `limit_opt` of them.  An inverted
    /// window yields an empty list, not an error.
    pub fn get_events(
        &mut self,
        store: &Store,
        bucket_id: i64,
        starttime_opt: Option<i64>,
        endtime_opt: Option<i64>,
        limit_opt: Option<u64>,
    ) -> (r: Result<Vec<Event>, DatastoreError>)
        requires
            old(self).wf(*store),
        ensures
            *final(self) == *old(self),
            (r is Err) == !cache_has_bucket(old(self).cache_view(), bucket_id as int),
            r matches Err(e) ==> e is NoSuchBucket,
            r matches Ok(out) ==> ({
                let s = spec_window_start(starttime_opt);
                let e = spec_window_end(endtime_opt);
                if s > e {
                    out@.len() == 0
                } else {
                    events_query_post(
                        store.events_view(),
                        bucket_id as int,
                        s,
                        e,
                        limit_opt,
                        None,
                        out@.map_values(|ev: Event| ev@),
                    )
                }
            }),
    {
        let found = self.find_bucket_index(bucket_id);
        if found.is_none() {
            return Err(DatastoreError::NoSuchBucket(crate::text::i64_string(bucket_id)));
        }
        let starttime_filter_ns: i64 = match starttime_opt {
            Some(s) => s,
            None => 0,
        };
        let endtime_filter_ns: i64 = match endtime_opt {
            Some(e) => e,
            None => i64::MAX,
        };
        if starttime_filter_ns > endtime_filter_ns {
            return Ok(Vec::new());
        }
        Ok(
            collect_window_events(
                store,
                bucket_id,
                starttime_filter_ns,
                endtime_filter_ns,
                limit_opt,
                None,
            ),
        )
    }

    /// Read a team's events from a bucket, newest first, with the same
    /// window semantics as a plain read; an absent team reads as the tag
    /// that no event carries.
    pub fn get_user_events(
        &mut self,
        store: &Store,
        bucket_id: i64,
        starttime_opt: Option<i64>,
        endtime_opt: Option<i64>,
        limit_opt: Option<u64>,
        team_id: Option<i32>,
    ) -> (r: Result<Vec<Event>, DatastoreError>)
        requires
            old(self).wf(*store),
        ensures
            *final(self) == *old(self),
            (r is Err) == !cache_has_bucket(old(self).cache_view(), bucket_id as int),
            r matches Err(e) ==> e is NoSuchBucket,
            r matches Ok(out) ==> ({
                let s = spec_window_start(starttime_opt);
                let e = spec_window_end(endtime_opt);
                let team = match team_id {
                    Some(t) => t as int,
                    None => -1,
                };
                if s > e {
                    out@.len() == 0
                } else {
                    events_query_post(
                        store.events_view(),
                        bucket_id as int,
                        s,
                        e,
                        limit_opt,
                        Some(team),
                        out@.map_values(|ev: Event| ev@),
                    )
                }
            }),
    {
        let found = self.find_bucket_index(bucket_id);
        if found.is_none() {
            return Err(DatastoreError::NoSuchBucket(crate::text::i64_string(bucket_id)));
        }
        let starttime_filter_ns: i64 = match starttime_opt {
            Some(s) => s,
            None => 0,
        };
        let endtime_filter_ns: i64 = match endtime_opt {
            Some(e) => e,
            None => i64::MAX,
        };
        if starttime_filter_ns > endtime_filter_ns {
            return Ok(Vec::new());
        }
        let team: i32 = match team_id {
            Some(t) => t,
            None => -1i32,
        };
        Ok(
            collect_window_events(
                store,
                bucket_id,
                starttime_filter_ns,
                endtime_filter_ns,
                limit_opt,
                Some(team),
            ),
        )
    }

    /// Count a bucket's events overlapping the window; a window that is
    /// empty or inverted counts zero without error.
    #[verifier::loop_isolation(false)]
    pub fn get_event_count(
        &self,
        store: &Store,
        bucket_id: i64,
        starttime_opt: Option<i64>,
        endtime_opt: Option<i64>,
    ) -> (r: Result<i64, DatastoreError>)
        requires
            self.wf(*store),
        ensures
            (r is Err) == !cache_has_bucket(self.cache_view(), bucket_id as int),
            r matches Err(e) ==> e is NoSuchBucket,
            r matches Ok(count) ==> ({
                let s = spec_window_start(starttime_opt);
                let e = spec_window_end(endtime_opt);
                if s >= e {
                    count == 0
                } else {
                    ({
                        let n = window_matches(
                            store.events_view(),
                            bucket_id as int,
                            s,
                            e,
                            None,
                        ).len() as int;
                        count as int == if n > i64::MAX {
                            i64::MAX as int
                        } else {
                            n
                        }
                    })
                }
            }),
    {
        let found = self.find_bucket_index(bucket_id);
        if found.is_none() {
            return Err(DatastoreError::NoSuchBucket(crate::text::i64_string(bucket_id)));
        }
        let starttime_filter_ns: i64 = match starttime_opt {
            Some(s) => s,
            None => 0,
        };
        let endtime_filter_ns: i64 = match endtime_opt {
            Some(e) => e,
            None => i64::MAX,
        };
        if starttime_filter_ns >= endtime_filter_ns {
            return Ok(0);
        }
        let ghost pred = window_pred(
            bucket_id as int,
            starttime_filter_ns as int,
            endtime_filter_ns as int,
            None,
        );
        let ghost table = store.events_view();
        let m = store.events.len();
        let mut count: i64 = 0;
        proof {
            crate::lemmas::lemma_filter_empty(table.take(0), pred);
            assert(table.take(0) =~= Seq::<EventRowView>::empty());
        }
        let mut j: usize = 0;
        while j < m
            invariant
                j <= m,
                0 <= count,
                count as int == ({
                    let n = table.take(j as int).filter(pred).len() as int;
                    if n > i64::MAX {
                        i64::MAX as int
                    } else {
                        n
                    }
                }),
            decreases m - j,
        {
            proof {
                assert(table[j as int] == store.events@[j as int]@);
                assert(table.take(j as int + 1) =~= table.take(j as int).push(table[j as int]));
                crate::lemmas::lemma_filter_push(table.take(j as int), pred, table[j as int]);
            }
            let row = &store.events[j];
            if row.bucketrow == bucket_id && row.endtime_ns >= starttime_filter_ns
                && row.starttime_ns <= endtime_filter_ns {
                proof {
                    assert(pred(table[j as int]));
                }
                if count < i64::MAX {
                    count = count + 1;
                }
            } else {
                proof {
                    assert(!pred(table[j as int]));
                }
            }
            j = j + 1;
        }
        proof {
            assert(table.take(m as int) =~= table);
        }
        Ok(count)
    }

    /// Read one event of a bucket by its row id, unclipped; the stored team
    /// tag is reported as one.
    #[verifier::loop_isolation(false)]
    pub fn get_event(&mut self, store: &Store, bucket_id: i64, event_id: i64) -> (r: Result<
        Event,
        DatastoreError,
    >)
        requires
            old(self).wf(*store),
        ensures
            *final(self) == *old(self),
            !cache_has_bucket(old(self).cache_view(), bucket_id as int) ==> (r matches Err(e)
                && e is NoSuchBucket),
            cache_has_bucket(old(self).cache_view(), bucket_id as int) ==> match r {
                Ok(ev) => exists|j: int|
                    0 <= j < store.events_view().len() && (#[trigger] store.events_view()[j]).id
                        == event_id as int && store.events_view()[j].bucketrow == bucket_id as int
                        && ev@ == event_of_row(store.events_view()[j]),
                Err(e) => e is InternalError && forall|j: int|
                    0 <= j < store.events_view().len() ==> !((#[trigger] store.events_view()[j]).id
                        == event_id as int && store.events_view()[j].bucketrow == bucket_id as int),
            },
    {
        let found = self.find_bucket_index(bucket_id);
        if found.is_none() {
            return Err(DatastoreError::NoSuchBucket(crate::text::i64_string(bucket_id)));
        }
        let m = store.events.len();
        let mut j: usize = 0;
        while j < m
            invariant
                j <= m,
                m == store.events@.len(),
                forall|k: int|
                    0 <= k < j ==> !((#[trigger] store.events_view()[k]).id == event_id as int
                        && store.events_view()[k].bucketrow == bucket_id as int),
            decreases m - j,
        {
            let row = &store.events[j];
            proof {
                assert(store.events_view()[j as int] == store.events@[j as int]@);
            }
            if row.id == event_id && row.bucketrow == bucket_id {
                proof {
                    assert(row@.starttime_ns <= row@.endtime_ns);
                    assert(row@.endtime_ns - row@.starttime_ns <= i64::MAX);
                }
                let ev = Event {
                    id: Some(row.id),
                    timestamp_ns: row.starttime_ns,
                    duration_ns: row.endtime_ns - row.starttime_ns,
                    data: row.data.clone(),
                    team_id: 1,
                };
                proof {
                    assert(ev@ == event_of_row(store.events_view()[j as int]));
                }
                return Ok(ev);
            }
            j = j + 1;
        }
        Err(
            DatastoreError::InternalError(
                "Failed to map get_event SQL statement: no such event".to_owned(),
            ),
        )
    }

    /// Report that the store was empty at open, exactly once: the first
    /// call after a fresh initialization answers true and clears the flag,
    /// so that the caller runs its one-time legacy-format import; every
    /// later call answers false.
    #[allow(unused_variables)]
    pub fn ensure_legacy_import(&mut self, store: &Store) -> (r: Result<bool, ()>)
        ensures
            r == Ok::<bool, ()>(old(self).first_init),
            *final(self) == (DatastoreInstance { first_init: false, ..*old(self) }),
    {
        if !self.first_init {
            Ok(false)
        } else {
            self.first_init = false;
            Ok(true)
        }
    }

    /// Rewrite the bucket's rows that end last — every row tied for the
    /// greatest end time — to the given event's span and payload, and
    /// stretch the cached bounds over it.  A bucket with no rows is left as
    /// it is, apart from the cached bounds.
    #[verifier::loop_isolation(false)]
    pub fn replace_last_event(&mut self, store: &mut Store, bucket_id: i64, event: &Event) -> (r:
        Result<(), DatastoreError>)
        requires
            old(self).wf(*old(store)),
        ensures
            final(self).wf(*final(store)),
            final(self).first_init == old(self).first_init,
            final(self).db_version == old(self).db_version,
            !cache_has_bucket(old(self).cache_view(), bucket_id as int) ==> (r matches Err(e)
                && e is NoSuchBucket) && *final(store) == *old(store) && *final(self) == *old(self),
            cache_has_bucket(old(self).cache_view(), bucket_id as int) && !(0
                <= event@.duration_ns && event@.endtime_ns() <= i64::MAX) ==> (r matches Err(e)
                && e is InternalError) && *final(store) == *old(store) && *final(self) == *old(self),
            cache_has_bucket(old(self).cache_view(), bucket_id as int) && 0 <= event@.duration_ns
                && event@.endtime_ns() <= i64::MAX ==> ({
                &&& r is Ok
                &&& *final(store) == (Store { events: final(store).events, ..*old(store) })
                &&& final(store).events_view().len() == old(store).events_view().len()
                &&& forall|j: int|
                    0 <= j < old(store).events_view().len() ==> #[trigger] final(store).events_view()[j] == (if old(store).events_view()[j].bucketrow
                        == bucket_id as int && row_has_max_end(
                        old(store).events_view(),
                        bucket_id as int,
                        j,
                    ) {
                        replaced_row(old(store).events_view()[j], event@)
                    } else {
                        old(store).events_view()[j]
                    })
                &&& exists|ci: int|
                    0 <= ci < old(self).cache_view().len() && (#[trigger] old(self).cache_view()[ci]).bid == bucket_id as int && final(self).cache_view() == old(self).cache_view().update(
                        ci,
                        (BucketView {
                            metadata: spec_extend_metadata(
                                old(self).cache_view()[ci].metadata,
                                event@.timestamp_ns,
                                event@.endtime_ns(),
                            ),
                            ..old(self).cache_view()[ci]
                        }),
                    )
            }),
    {
        let found = self.find_bucket_index(bucket_id);
        let ci = match found {
            Some(ci) => ci,
            None => {
                return Err(DatastoreError::NoSuchBucket(crate::text::i64_string(bucket_id)));
            },
        };
        proof {
            assert(cache_has_bucket(self.cache_view(), bucket_id as int));
        }
        if event.duration_ns < 0 || event.timestamp_ns > i64::MAX - event.duration_ns {
            return Err(
                DatastoreError::InternalError(
                    "Failed to convert duration to nanoseconds".to_owned(),
                ),
            );
        }
        let mut bucket = self.buckets_cache[ci].clone();
        proof {
            assert(self.cache_view()[ci as int] == self.buckets_cache@[ci as int]@);
            assert(bucket@ == old(self).cache_view()[ci as int]);
        }
        let ghost oldevents = store.events_view();
        let m = store.events.len();
        // The greatest end time among the bucket's rows.
        let mut max_end: Option<i64> = None;
        let mut j: usize = 0;
        while j < m
            invariant
                j <= m,
                m == store.events@.len(),
                (max_end is None) <==> (forall|k: int|
                    0 <= k < j ==> (#[trigger] oldevents[k]).bucketrow != bucket_id as int),
                max_end matches Some(t) ==> (exists|k: int|
                    0 <= k < j && (#[trigger] oldevents[k]).bucketrow == bucket_id as int
                        && oldevents[k].endtime_ns == t as int),
                forall|k: int|
                    0 <= k < j && (#[trigger] oldevents[k]).bucketrow == bucket_id as int
                        ==> max_end is Some && oldevents[k].endtime_ns <= max_end->0,
            decreases m - j,
        {
            let ev = &store.events[j];
            proof {
                assert(oldevents[j as int] == store.events@[j as int]@);
            }
            if ev.bucketrow == bucket_id {
                max_end = match max_end {
                    Some(t) => if t >= ev.endtime_ns {
                        Some(t)
                    } else {
                        Some(ev.endtime_ns)
                    },
                    None => Some(ev.endtime_ns),
                };
            }
            j = j + 1;
        }
        // Rewrite every row tied for that end time.
        let endtime_ns = event.timestamp_ns + event.duration_ns;
        let mut i: usize = 0;
        while i < m
            invariant
                i <= m,
                m == store.events@.len(),
                event.wf(),
                bucket_id == bucket.bid,
                *store == (Store { events: store.events, ..*old(store) }),
                oldevents == old(store).events_view(),
                endtime_ns == event@.endtime_ns(),
                (max_end is None) <==> (forall|k: int|
                    0 <= k < m ==> (#[trigger] oldevents[k]).bucketrow != bucket_id as int),
                max_end matches Some(t) ==> (exists|k: int|
                    0 <= k < m && (#[trigger] oldevents[k]).bucketrow == bucket_id as int
                        && oldevents[k].endtime_ns == t as int),
                forall|k: int|
                    0 <= k < m && (#[trigger] oldevents[k]).bucketrow == bucket_id as int
                        ==> max_end is Some && oldevents[k].endtime_ns <= max_end->0,
                forall|k: int|
                    0 <= k < i ==> #[trigger] store.events_view()[k] == (if oldevents[k].bucketrow
                        == bucket_id as int && row_has_max_end(oldevents, bucket_id as int, k) {
                        replaced_row(oldevents[k], event@)
                    } else {
                        oldevents[k]
                    }),
                forall|k: int| i <= k < m ==> #[trigger] store.events_view()[k] == oldevents[k],
            decreases m - i,
        {
            proof {
                assert(store.events_view()[i as int] == store.events@[i as int]@);
            }
            let is_last = match max_end {
                Some(t) => store.events[i].bucketrow == bucket_id && store.events[i].endtime_ns
                    == t,
                None => false,
            };
            if is_last {
                let replaced = EventRow {
                    id: store.events[i].id,
                    bucketrow: store.events[i].bucketrow,
                    starttime_ns: event.timestamp_ns,
                    endtime_ns,
                    data: event.data.clone(),
                    team_id: store.events[i].team_id,
                };
                let ghost pre = store.events@;
                store.events[i] = replaced;
                proof {
                    assert(row_has_max_end(oldevents, bucket_id as int, i as int));
                    assert(store.events_view()[i as int] == replaced_row(
                        oldevents[i as int],
                        event@,
                    ));
                    assert forall|k: int| 0 <= k < m && k != i as int implies
                        #[trigger] store.events_view()[k] == pre.map_values(
                        |rw: EventRow| rw@,
                    )[k] by {
                        assert(store.events@[k] == pre[k]);
                    }
                }
            } else {
                proof {
                    if oldevents[i as int].bucketrow == bucket_id as int && row_has_max_end(
                        oldevents,
                        bucket_id as int,
                        i as int,
                    ) {
                        assert(max_end is Some);
                        let w = choose|k: int|
                            0 <= k < m && (#[trigger] oldevents[k]).bucketrow == bucket_id as int
                                && oldevents[k].endtime_ns == max_end->0;
                        assert(oldevents[i as int].endtime_ns <= max_end->0);
                        assert(oldevents[w].endtime_ns <= oldevents[i as int].endtime_ns);
                        assert(false);
                    }
                }
            }
            i = i + 1;
        }
        let ghost precache = self.cache_view();
        let ghost prebucket = bucket@;
        self.update_endtime(&mut bucket, event);
        proof {
            assert(precache[ci as int] == prebucket);
            assert(cache_has_bucket(precache, prebucket.bid));
            if bucket@.metadata != prebucket.metadata {
                let wci = choose|wci: int|
                    0 <= wci < precache.len() && (#[trigger] precache[wci]).bid == prebucket.bid
                        && self.cache_view() == precache.update(wci, bucket@);
                if wci != ci as int {
                    assert(precache[wci] == old(self).cache_view()[wci]);
                    assert(old(self).cache_view()[wci].bid == old(store).buckets_view()[wci].id);
                    assert(old(self).cache_view()[ci as int].bid == old(store).buckets_view()[ci as int].id);
                    assert(false);
                }
                assert(self.cache_view() =~= old(self).cache_view().update(ci as int, bucket@));
            } else {
                assert(bucket@ == prebucket);
                assert(self.cache_view() =~= old(self).cache_view().update(ci as int, bucket@));
            }
            // The store invariant survives the rewrite.
            let newevents = store.events_view();
            let newcache = self.cache_view();
            assert forall|a: int, b: int| 0 <= a < b < newevents.len() implies (
            #[trigger] newevents[a]).id != (#[trigger] newevents[b]).id by {
                assert(newevents[a].id == oldevents[a].id);
                assert(newevents[b].id == oldevents[b].id);
            }
            assert forall|a: int| 0 <= a < newevents.len() implies (
            #[trigger] newevents[a]).starttime_ns <= newevents[a].endtime_ns && newevents[a].endtime_ns
                - newevents[a].starttime_ns <= i64::MAX && newevents[a].id
                < store.next_event_id by {
                assert(oldevents[a].starttime_ns <= oldevents[a].endtime_ns);
            }
            assert forall|a: int| 0 <= a < newevents.len() implies crate::store::buckets_have_id(
                store.buckets_view(),
                (#[trigger] newevents[a]).bucketrow,
            ) by {
                assert(newevents[a].bucketrow == oldevents[a].bucketrow);
                assert(crate::store::buckets_have_id(
                    store.buckets_view(),
                    oldevents[a].bucketrow,
                ));
            }
            assert forall|x: int| 0 <= x < newcache.len() implies cache_entry_matches_row(
                #[trigger] newcache[x],
                store.buckets_view()[x],
            ) && metadata_bounds(newcache[x].metadata, newevents, newcache[x].bid) by {
                if x == ci as int {
                    assert(newcache[x] == bucket@);
                    assert forall|a: int|
                        0 <= a < newevents.len() && (#[trigger] newevents[a]).bucketrow
                            == newcache[x].bid implies newcache[x].metadata.start is Some
                        && newcache[x].metadata.start->0 <= newevents[a].starttime_ns
                        && newcache[x].metadata.end is Some && newevents[a].endtime_ns
                        <= newcache[x].metadata.end->0 by {
                        assert(oldevents[a].bucketrow == newevents[a].bucketrow);
                        assert(metadata_bounds(
                            prebucket.metadata,
                            oldevents,
                            bucket_id as int,
                        ));
                    }
                } else {
                    assert(newcache[x] == old(self).cache_view()[x]);
                    assert forall|a: int|
                        0 <= a < newevents.len() && (#[trigger] newevents[a]).bucketrow
                            == newcache[x].bid implies newcache[x].metadata.start is Some
                        && newcache[x].metadata.start->0 <= newevents[a].starttime_ns
                        && newcache[x].metadata.end is Some && newevents[a].endtime_ns
                        <= newcache[x].metadata.end->0 by {
                        assert(old(self).cache_view()[x].bid == old(store).buckets_view()[x].id);
                        assert(old(self).cache_view()[ci as int].bid == old(store).buckets_view()[ci as int].id);
                        assert(newcache[x].bid != bucket_id as int);
                        assert(newevents[a] == oldevents[a]);
                        assert(metadata_bounds(newcache[x].metadata, oldevents, newcache[x].bid));
                    }
                }
            }
        }
        Ok(())
    }

    /// Delete the given event ids from a bucket; ids that match no row of
    /// the bucket are passed over.
    #[verifier::loop_isolation(false)]
    pub fn delete_events_by_id(&self, store: &mut Store, bucket_id: i64, event_ids: Vec<i64>) -> (r:
        Result<(), DatastoreError>)
        requires
            self.wf(*old(store)),
        ensures
            self.wf(*final(store)),
            !cache_has_bucket(self.cache_view(), bucket_id as int) ==> (r matches Err(e)
                && e is NoSuchBucket) && *final(store) == *old(store),
            cache_has_bucket(self.cache_view(), bucket_id as int) ==> r is Ok && *final(store)
                == (Store { events: final(store).events, ..*old(store) }) && final(store).events_view() == old(store).events_view().filter(
                |row: EventRowView|
                    !(row.bucketrow == bucket_id as int && event_ids@.map_values(
                        |id: i64| id as int,
                    ).contains(row.id)),
            ),
    {
        let found = self.find_bucket_index(bucket_id);
        if found.is_none() {
            return Err(DatastoreError::NoSuchBucket(crate::text::i64_string(bucket_id)));
        }
        proof {
            assert(cache_has_bucket(self.cache_view(), bucket_id as int));
        }
        let ghost pred = |row: EventRowView|
            !(row.bucketrow == bucket_id as int && event_ids@.map_values(
                |id: i64| id as int,
            ).contains(row.id));
        let ghost oldevents = store.events_view();
        let m = store.events.len();
        let mut kept: Vec<EventRow> = Vec::new();
        proof {
            crate::lemmas::lemma_filter_empty(oldevents.take(0), pred);
            assert(oldevents.take(0) =~= Seq::<EventRowView>::empty());
            assert(kept@.map_values(|row: EventRow| row@) =~= oldevents.take(0).filter(pred));
        }
        let mut j: usize = 0;
        while j < m
            invariant
                j <= m,
                kept@.map_values(|row: EventRow| row@) == oldevents.take(j as int).filter(pred),
            decreases m - j,
        {
            let ghost pre = kept@;
            proof {
                assert(oldevents[j as int] == store.events@[j as int]@);
                assert(oldevents.take(j as int + 1) =~= oldevents.take(j as int).push(
                    oldevents[j as int],
                ));
                crate::lemmas::lemma_filter_push(oldevents.take(j as int), pred, oldevents[j as int]);
            }
            let row = &store.events[j];
            let mut listed = false;
            let idn = event_ids.len();
            let mut q: usize = 0;
            while q < idn
                invariant
                    q <= idn,
                    idn == event_ids@.len(),
                    listed == exists|x: int|
                        0 <= x < q && (#[trigger] event_ids@[x]) as int == row@.id,
                decreases idn - q,
            {
                if event_ids[q] == row.id {
                    listed = true;
                    proof {
                        assert((event_ids@[q as int]) as int == row@.id);
                    }
                }
                q = q + 1;
            }
            proof {
                let idsv = event_ids@.map_values(|id: i64| id as int);
                if listed {
                    let x = choose|x: int|
                        0 <= x < idn && (#[trigger] event_ids@[x]) as int == row@.id;
                    assert(idsv[x] == row@.id);
                    assert(idsv.contains(row@.id));
                } else {
                    if idsv.contains(row@.id) {
                        let x = choose|x: int| 0 <= x < idsv.len() && idsv[x] == row@.id;
                        assert((event_ids@[x]) as int == row@.id);
                        assert(false);
                    }
                }
                assert(listed == idsv.contains(row@.id));
            }
            if !(row.bucketrow == bucket_id && listed) {
                let kept_row = row.clone();
                kept.push(kept_row);
                proof {
                    assert(pred(oldevents[j as int]));
                    assert(kept@.map_values(|row: EventRow| row@) =~= pre.map_values(
                        |row: EventRow| row@,
                    ).push(oldevents[j as int]));
                }
            } else {
                proof {
                    assert(!pred(oldevents[j as int]));
                }
            }
            j = j + 1;
        }
        proof {
            assert(oldevents.take(m as int) =~= oldevents);
        }
        store.events = kept;
        proof {
            let newevents = store.events_view();
            crate::lemmas::lemma_filter_elements(oldevents, pred);
            crate::lemmas::lemma_filter_distinct_by(oldevents, pred, |row: EventRowView| row.id);
            assert forall|a: int, b: int| 0 <= a < b < newevents.len() implies (
            #[trigger] newevents[a]).id != (#[trigger] newevents[b]).id by {}
            assert forall|a: int| 0 <= a < newevents.len() implies (
            #[trigger] newevents[a]).starttime_ns <= newevents[a].endtime_ns
                && newevents[a].endtime_ns - newevents[a].starttime_ns <= i64::MAX && newevents[a].id
                < store.next_event_id && crate::store::buckets_have_id(
                store.buckets_view(),
                newevents[a].bucketrow,
            ) by {
                let k = choose|k: int| 0 <= k < oldevents.len() && oldevents[k] == newevents[a];
                assert(oldevents[k].starttime_ns <= oldevents[k].endtime_ns);
                assert(oldevents[k].endtime_ns - oldevents[k].starttime_ns <= i64::MAX);
                assert(crate::store::buckets_have_id(
                    store.buckets_view(),
                    oldevents[k].bucketrow,
                ));
            }
            assert forall|x: int| 0 <= x < self.cache_view().len() implies metadata_bounds(
                (#[trigger] self.cache_view()[x]).metadata,
                newevents,
                self.cache_view()[x].bid,
            ) by {
                assert(metadata_bounds(
                    self.cache_view()[x].metadata,
                    oldevents,
                    self.cache_view()[x].bid,
                ));
                assert forall|a: int|
                    0 <= a < newevents.len() && (#[trigger] newevents[a]).bucketrow
                        == self.cache_view()[x].bid implies self.cache_view()[x].metadata.start is Some
                    && self.cache_view()[x].metadata.start->0 <= newevents[a].starttime_ns
                    && self.cache_view()[x].metadata.end is Some && newevents[a].endtime_ns
                    <= self.cache_view()[x].metadata.end->0 by {
                    let k = choose|k: int|
                        0 <= k < oldevents.len() && oldevents[k] == newevents[a];
                }
            }
        }
        Ok(())
    }

    /// Record a heartbeat: resolve the bucket's most recent event from the
    /// last-heartbeat cache or the store, merge the heartbeat into it when
    /// the payloads agree and the gap is within the pulsetime, rewriting
    /// the event in place; otherwise insert the heartbeat as a new event.
    /// The resolved outcome becomes the bucket's cached last heartbeat.
    #[verifier::loop_isolation(false)]
    #[verifier::rlimit(100)]
    pub fn heartbeat(
        &mut self,
        store: &mut Store,
        bucket_id: i64,
        heartbeat: Event,
        pulsetime_ns: i64,
        last_heartbeat: &mut Vec<LastHeartbeat>,
    ) -> (r: Result<Event, DatastoreError>)
        requires
            old(self).wf(*old(store)),
            hb_unique(hb_entries_view(old(last_heartbeat)@)),
            hb_cache_wf(hb_entries_view(old(last_heartbeat)@)),
        ensures
            heartbeat_ensures(
                *old(self),
                *old(store),
                *final(self),
                *final(store),
                bucket_id as int,
                heartbeat@,
                pulsetime_ns as int,
                hb_entries_view(old(last_heartbeat)@),
                hb_entries_view(final(last_heartbeat)@),
                r,
            ),
    {
        let found = self.find_bucket_index(bucket_id);
        if found.is_none() {
            return Err(DatastoreError::NoSuchBucket(crate::text::i64_string(bucket_id)));
        }
        proof {
            assert(cache_has_bucket(self.cache_view(), bucket_id as int));
        }
        if heartbeat.duration_ns < 0 || heartbeat.timestamp_ns > i64::MAX - heartbeat.duration_ns {
            return Err(
                DatastoreError::InternalError(
                    "Failed to convert duration to nanoseconds".to_owned(),
                ),
            );
        }
        let ghost lhv = hb_entries_view(last_heartbeat@);
        let ghost mut cold_row: EventRowView = EventRowView {
            id: 0,
            bucketrow: 0,
            starttime_ns: 0,
            endtime_ns: 0,
            data: Seq::<crate::data::DataEntryView>::empty(),
            team_id: 0,
        };
        // Find the bucket's slot, if any.
        let hn = last_heartbeat.len();
        let mut pos: usize = hn;
        let mut h: usize = 0;
        while h < hn
            invariant
                h <= hn,
                hn == last_heartbeat@.len(),
                pos == hn ==> forall|k: int|
                    0 <= k < h ==> (#[trigger] hb_entries_view(last_heartbeat@)[k]).bucket_id
                        != bucket_id as int,
                pos < hn ==> hb_entries_view(last_heartbeat@)[pos as int].bucket_id
                    == bucket_id as int,
                pos == hn || pos < h,
            decreases hn - h,
        {
            if pos == hn && last_heartbeat[h].bucket_id == bucket_id {
                pos = h;
                proof {
                    assert(hb_entries_view(last_heartbeat@)[h as int]
                        == last_heartbeat@[h as int]@);
                }
            }
            h = h + 1;
        }
        proof {
            if pos < hn {
                assert(hb_found(lhv, bucket_id as int)) by {
                    assert(lhv[pos as int].bucket_id == bucket_id as int);
                }
                let q = choose|q: int|
                    0 <= q < lhv.len() && (#[trigger] lhv[q]).bucket_id == bucket_id as int;
                assert(q == pos as int);
                assert(hb_slot_of(lhv, bucket_id as int) == Some(lhv[pos as int].event));
                assert(hb_slot_event(lhv, bucket_id as int) == lhv[pos as int].event);
            } else {
                assert(!hb_found(lhv, bucket_id as int));
                assert(hb_slot_event(lhv, bucket_id as int) is None);
            }
        }
        // A cached merge whose span no duration can hold is refused before
        // anything is touched.
        if pos < hn {
            match &last_heartbeat[pos].event {
                Some(cached_ev) => {
                    proof {
                        assert(hb_entries_view(last_heartbeat@)[pos as int]
                            == last_heartbeat@[pos as int]@);
                        assert(0 <= cached_ev@.duration_ns && cached_ev@.endtime_ns()
                            <= i64::MAX);
                    }
                    if cached_ev.data.same_as(&heartbeat.data) && cached_ev.timestamp_ns
                        <= heartbeat.timestamp_ns {
                        let hb_end: i128 = heartbeat.timestamp_ns as i128
                            + heartbeat.duration_ns as i128;
                        let cached_end: i128 = cached_ev.timestamp_ns as i128
                            + cached_ev.duration_ns as i128;
                        if heartbeat.timestamp_ns as i128 <= cached_end + pulsetime_ns as i128
                            && hb_end - (cached_ev.timestamp_ns as i128) > i64::MAX as i128 {
                            proof {
                                let q = choose|q: int|
                                    0 <= q < lhv.len() && (#[trigger] lhv[q]).bucket_id
                                        == bucket_id as int;
                                assert(q == pos as int);
                                assert(hb_slot_of(lhv, bucket_id as int) == Some(
                                    lhv[pos as int].event,
                                ));
                                assert(spec_merges(
                                    cached_ev@,
                                    heartbeat@,
                                    pulsetime_ns as int,
                                ));
                            }
                            return Err(
                                DatastoreError::InternalError(
                                    "Failed to convert duration to nanoseconds".to_owned(),
                                ),
                            );
                        }
                    }
                },
                None => {},
            }
        }
        // Resolve the most recent event, emptying the slot.
        let mut cached_last: Option<Event> = None;
        if pos < hn {
            let slot = last_heartbeat.remove(pos);
            proof {
                assert(slot@ == lhv[pos as int]);
            }
            cached_last = slot.event;
            proof {
                lhv.remove_ensures(pos as int);
                assert forall|k: int| 0 <= k < hb_entries_view(last_heartbeat@).len() implies
                    #[trigger] hb_entries_view(last_heartbeat@)[k] == lhv.remove(pos as int)[k] by {
                    if k < pos as int {
                        assert(last_heartbeat@[k] == old(last_heartbeat)@[k]);
                    } else {
                        assert(last_heartbeat@[k] == old(last_heartbeat)@[k + 1]);
                    }
                }
                assert(hb_entries_view(last_heartbeat@) =~= lhv.remove(pos as int));
                assert(hb_removed(lhv, bucket_id as int, hb_entries_view(last_heartbeat@)));
                assert(hb_slot_of(lhv, bucket_id as int) == Some(lhv[pos as int].event));
            }
        } else {
            proof {
                assert(!hb_found(lhv, bucket_id as int));
                assert(hb_removed(lhv, bucket_id as int, hb_entries_view(last_heartbeat@)));
                assert(hb_slot_of(lhv, bucket_id as int) is None);
            }
        }
        let ghost mid = hb_entries_view(last_heartbeat@);
        proof {
            assert(hb_unique(mid) && hb_cache_wf(mid)) by {
                if pos < hn {
                    lhv.remove_ensures(pos as int);
                }
            }
            assert(!hb_found(mid, bucket_id as int)) by {
                if hb_found(mid, bucket_id as int) {
                    let q = choose|q: int|
                        0 <= q < mid.len() && (#[trigger] mid[q]).bucket_id == bucket_id as int;
                    if pos < hn {
                        lhv.remove_ensures(pos as int);
                        if q < pos as int {
                            assert(lhv[q].bucket_id == bucket_id as int);
                        } else {
                            assert(lhv[q + 1].bucket_id == bucket_id as int);
                        }
                        assert(false);
                    } else {
                        assert(false);
                    }
                }
            }
        }
        let last_event: Event = match cached_last {
            Some(last_event) => last_event,
            None => {
                let queried = self.get_events(store, bucket_id, None, None, Some(1u64));
                let mut last_event_vec = match queried {
                    Ok(v) => v,
                    Err(_) => {
                        proof {
                            assert(false);
                        }
                        return Err(
                            DatastoreError::InternalError("bucket cache out of step with the store".to_owned()),
                        );
                    },
                };
                let ghost qview = last_event_vec@.map_values(|ev: Event| ev@);
                match last_event_vec.pop() {
                    Some(last_event) => {
                        proof {
                            assert(last_event@ == qview[qview.len() - 1]);
                            assert(0 <= last_event@.duration_ns && last_event@.endtime_ns()
                                <= i64::MAX);
                            assert(last_event@.timestamp_ns >= 0);
                            let selectedg = window_matches(
                                old(store).events_view(),
                                bucket_id as int,
                                0,
                                i64::MAX as int,
                                None,
                            );
                            assert(qview.len() == 1);
                            assert(selectedg.len() >= 1);
                            let kk = query_limit(Some(1u64), selectedg.len() as int);
                            assert(kk == 1);
                            let perm = choose|perm: Seq<EventRowView>|
                                #![auto]
                                perm.to_multiset() == selectedg.to_multiset() && sorted_desc(perm)
                                    && qview == perm.take(kk).map_values(
                                    clip_mapper(0, i64::MAX as int),
                                );
                            perm.to_multiset_ensures();
                            selectedg.to_multiset_ensures();
                            assert(perm.len() == selectedg.len());
                            assert(perm.take(kk)[0] == perm[0]);
                            assert(qview[0] == clip_mapper(0, i64::MAX as int)(perm[0]));
                            cold_row = perm[0];
                            assert(last_event@ == clip_row(cold_row, 0, i64::MAX as int));
                            assert(perm.contains(perm[0]));
                            assert(selectedg.to_multiset().count(cold_row) > 0);
                            assert(selectedg.contains(cold_row));
                            assert forall|k2: int|
                                0 <= k2 < selectedg.len() implies (
                            #[trigger] selectedg[k2]).starttime_ns <= cold_row.starttime_ns by {
                                assert(selectedg.contains(selectedg[k2]));
                                assert(perm.to_multiset().count(selectedg[k2]) > 0);
                                assert(perm.contains(selectedg[k2]));
                                let j2 = choose|j2: int|
                                    0 <= j2 < perm.len() && perm[j2] == selectedg[k2];
                                assert(perm[0].starttime_ns >= perm[j2].starttime_ns);
                            }
                            assert(is_latest_stored_row(
                                old(store).events_view(),
                                bucket_id as int,
                                cold_row,
                            ));
                        }
                        last_event
                    },
                    None => {
                        // No stored event at all: the heartbeat becomes the
                        // bucket's first event, reported as sent.
                        proof {
                            assert(qview.len() == 0);
                            assert(window_matches(
                                old(store).events_view(),
                                bucket_id as int,
                                0,
                                i64::MAX as int,
                                None,
                            ).len() == 0);
                        }
                        let ghost preself = *self;
                        let ghost prestore = *store;
                        let batch = vec![heartbeat.clone()];
                        let ghost batchview = batch@.map_values(|e: Event| e@);
                        proof {
                            assert(batchview =~= seq![heartbeat@]);
                        }
                        let inserted = self.insert_events(store, bucket_id, batch);
                        proof {
                            assert(preself == *old(self));
                            assert(prestore == *old(store));
                            assert(cache_has_bucket(preself.cache_view(), bucket_id as int));
                            let wci = choose|ci: int|
                                {
                                    &&& 0 <= ci < preself.cache_view().len()
                                    &&& (#[trigger] preself.cache_view()[ci]).bid
                                        == bucket_id as int
                                    &&& {
                                        let stf = spec_insert_fold(
                                            insert_start_state(preself, prestore, ci),
                                            batchview,
                                            bucket_id as int,
                                        );
                                        &&& (inserted is Ok) == !stf.failed
                                        &&& store.events_view() == stf.table
                                        &&& store.next_event_id as int == stf.next_id
                                        &&& self.cache_view() == preself.cache_view().update(
                                            ci,
                                            (BucketView {
                                                metadata: stf.md,
                                                ..preself.cache_view()[ci]
                                            }),
                                        )
                                        &&& (inserted matches Ok(out) ==> out@.map_values(
                                            |e: Event| e@,
                                        ) == stf.out)
                                        &&& (inserted matches Err(e) ==> e is InternalError)
                                    }
                                };
                            let st0 = insert_start_state(preself, prestore, wci);
                            assert(batchview[0] == heartbeat@);
                            assert(batchview.skip(1) =~= Seq::<EventView>::empty());
                            let st1g = spec_insert_step(st0, heartbeat@, bucket_id as int);
                            assert(spec_insert_fold(st0, batchview, bucket_id as int)
                                == spec_insert_fold(st1g, batchview.skip(1), bucket_id as int));
                            assert(spec_insert_fold(st1g, batchview.skip(1), bucket_id as int)
                                == st1g);
                        }
                        match inserted {
                            Ok(_) => {
                                return Ok(heartbeat);
                            },
                            Err(e) => {
                                return Err(e);
                            },
                        }
                    },
                }
            },
        };
        proof {
            assert(0 <= last_event@.duration_ns && last_event@.endtime_ns() <= i64::MAX);
        }
        proof {
            // A merge the cached-slot refusal let through, or one against a
            // stored event (whose clipped start is never negative), always
            // spans a representable duration.
            if spec_merges(last_event@, heartbeat@, pulsetime_ns as int) {
                if hb_slot_event(lhv, bucket_id as int) is Some {
                    assert(hb_slot_event(lhv, bucket_id as int) == Some(last_event@));
                    assert(heartbeat@.endtime_ns() <= last_event@.timestamp_ns + i64::MAX);
                } else {
                    assert(last_event@.timestamp_ns >= 0);
                    assert(heartbeat@.endtime_ns() <= last_event@.timestamp_ns + i64::MAX);
                }
            }
        }
        let merged_opt = crate::transform::heartbeat(&last_event, &heartbeat, pulsetime_ns);
        let inserted_heartbeat: Event = match merged_opt {
            Some(merged_heartbeat) => {
                let replaced = self.replace_last_event(store, bucket_id, &merged_heartbeat);
                proof {
                    assert(spec_merges(last_event@, heartbeat@, pulsetime_ns as int));
                    assert(merged_heartbeat@ == spec_merged(last_event@, heartbeat@));
                    assert(replace_effect(
                        *old(store),
                        *store,
                        bucket_id as int,
                        merged_heartbeat@,
                    ));
                    if hb_slot_of(lhv, bucket_id as int) is Some && hb_slot_of(
                        lhv,
                        bucket_id as int,
                    )->0 is Some {
                        let q = choose|q: int|
                            0 <= q < lhv.len() && (#[trigger] lhv[q]).bucket_id == bucket_id as int;
                        assert(q == pos as int);
                        assert(lhv[pos as int].event == Some(last_event@));
                        assert(hb_slot_of(lhv, bucket_id as int) == Some(lhv[pos as int].event));
                    }
                }
                match replaced {
                    Ok(()) => merged_heartbeat,
                    Err(e) => {
                        proof {
                            assert(false);
                        }
                        return Err(e);
                    },
                }
            },
            None => {
                let ghost preself = *self;
                let ghost prestore = *store;
                let batch = vec![heartbeat.clone()];
                let ghost batchview = batch@.map_values(|e: Event| e@);
                proof {
                    assert(batchview =~= seq![heartbeat@]);
                }
                let inserted = self.insert_events(store, bucket_id, batch);
                proof {
                    assert(preself == *old(self));
                    assert(prestore == *old(store));
                    assert(cache_has_bucket(preself.cache_view(), bucket_id as int));
                    let wci = choose|ci: int|
                        {
                            &&& 0 <= ci < preself.cache_view().len()
                            &&& (#[trigger] preself.cache_view()[ci]).bid == bucket_id as int
                            &&& {
                                let stf = spec_insert_fold(
                                    insert_start_state(preself, prestore, ci),
                                    batchview,
                                    bucket_id as int,
                                );
                                &&& (inserted is Ok) == !stf.failed
                                &&& store.events_view() == stf.table
                                &&& store.next_event_id as int == stf.next_id
                                &&& self.cache_view() == preself.cache_view().update(
                                    ci,
                                    (BucketView {
                                        metadata: stf.md,
                                        ..preself.cache_view()[ci]
                                    }),
                                )
                                &&& (inserted matches Ok(out) ==> out@.map_values(|e: Event| e@)
                                    == stf.out)
                                &&& (inserted matches Err(e) ==> e is InternalError)
                            }
                        };
                    let st0 = insert_start_state(preself, prestore, wci);
                    assert(batchview[0] == heartbeat@);
                    assert(batchview.skip(1) =~= Seq::<EventView>::empty());
                    let st1g = spec_insert_step(st0, heartbeat@, bucket_id as int);
                    assert(spec_insert_fold(st0, batchview, bucket_id as int)
                        == spec_insert_fold(st1g, batchview.skip(1), bucket_id as int));
                    assert(spec_insert_fold(st1g, batchview.skip(1), bucket_id as int) == st1g);
                    if hb_slot_of(lhv, bucket_id as int) is Some && hb_slot_of(
                        lhv,
                        bucket_id as int,
                    )->0 is Some {
                        let q = choose|q: int|
                            0 <= q < lhv.len() && (#[trigger] lhv[q]).bucket_id == bucket_id as int;
                        assert(q == pos as int);
                        assert(lhv[pos as int].event == Some(last_event@));
                        assert(hb_slot_of(lhv, bucket_id as int) == Some(lhv[pos as int].event));
                    }
                }
                match inserted {
                    Ok(_) => heartbeat,
                    Err(e) => {
                        return Err(e);
                    },
                }
            },
        };
        proof {
            let rghost: Result<Event, DatastoreError> = Ok(inserted_heartbeat);
            if hb_slot_event(lhv, bucket_id as int) is Some {
                let le = hb_slot_event(lhv, bucket_id as int)->0;
                assert(le == last_event@);
                assert(merge_or_insert_outcome(
                    *old(self),
                    *old(store),
                    *store,
                    bucket_id as int,
                    heartbeat@,
                    pulsetime_ns as int,
                    le,
                    rghost,
                ));
            } else {
                assert(last_event@ == clip_row(cold_row, 0, i64::MAX as int));
                assert(is_latest_stored_row(old(store).events_view(), bucket_id as int, cold_row));
                assert(merge_or_insert_outcome(
                    *old(self),
                    *old(store),
                    *store,
                    bucket_id as int,
                    heartbeat@,
                    pulsetime_ns as int,
                    clip_row(cold_row, 0, i64::MAX as int),
                    rghost,
                ));
            }
        }
        let slot = LastHeartbeat {
            bucket_id,
            event: Some(inserted_heartbeat.clone()),
        };
        let ghost preslots = hb_entries_view(last_heartbeat@);
        last_heartbeat.push(slot);
        proof {
            assert(hb_entries_view(last_heartbeat@) =~= preslots.push(
                (LastHeartbeatView {
                    bucket_id: bucket_id as int,
                    event: Some(inserted_heartbeat@),
                }),
            ));
            assert(preslots == mid);
            assert(hb_removed(lhv, bucket_id as int, mid));
            let full = hb_entries_view(last_heartbeat@);
            assert forall|a: int, b: int| 0 <= a < b < full.len() implies (
            #[trigger] full[a]).bucket_id != (#[trigger] full[b]).bucket_id by {
                if b == full.len() - 1 {
                    assert(full[a] == mid[a]);
                } else {
                    assert(full[a] == mid[a]);
                    assert(full[b] == mid[b]);
                }
            }
            assert forall|a: int| 0 <= a < full.len() implies ((#[trigger] full[a]).event
                matches Some(ev) ==> 0 <= ev.duration_ns && ev.endtime_ns() <= i64::MAX) by {
                if a < mid.len() {
                    assert(full[a] == mid[a]);
                }
            }
        }
        Ok(inserted_heartbeat)
    }

    /// Write a key-value pair with an explicit modification stamp,
    /// replacing whatever the key held.
    #[verifier::loop_isolation(false)]
    pub fn set_key_value_at(&self, store: &mut Store, key: &str, data: &str, timestamp: i64) -> (r:
        Result<(), DatastoreError>)
        requires
            old(store).wf(),
            old(store).spec_version() == 5,
        ensures
            r is Ok,
            final(store).wf(),
            *final(store) == (Store { key_values: final(store).key_values, ..*old(store) }),
            final(store).key_values_view() == old(store).key_values_view().filter(
                |row: KeyValueRowView| row.key != key@,
            ).push(KeyValueRowView { key: key@, value: data@, last_modified: timestamp as int }),
            self.wf(*old(store)) ==> self.wf(*final(store)),
    {
        let ghost pred = |row: KeyValueRowView| row.key != key@;
        let ghost oldkvs = store.key_values_view();
        let m = store.key_values.len();
        let mut kept: Vec<KeyValueRow> = Vec::new();
        proof {
            crate::lemmas::lemma_filter_empty(oldkvs.take(0), pred);
            assert(oldkvs.take(0) =~= Seq::<KeyValueRowView>::empty());
            assert(kept@.map_values(|row: KeyValueRow| row@) =~= oldkvs.take(0).filter(pred));
        }
        let mut j: usize = 0;
        while j < m
            invariant
                j <= m,
                kept@.map_values(|row: KeyValueRow| row@) == oldkvs.take(j as int).filter(pred),
            decreases m - j,
        {
            let ghost pre = kept@;
            proof {
                assert(oldkvs[j as int] == store.key_values@[j as int]@);
                assert(oldkvs.take(j as int + 1) =~= oldkvs.take(j as int).push(
                    oldkvs[j as int],
                ));
                crate::lemmas::lemma_filter_push(oldkvs.take(j as int), pred, oldkvs[j as int]);
            }
            let row = &store.key_values[j];
            if !crate::text::str_eq(row.key.as_str(), key) {
                let kept_row = row.clone();
                kept.push(kept_row);
                proof {
                    assert(pred(oldkvs[j as int]));
                    assert(kept@.map_values(|row: KeyValueRow| row@) =~= pre.map_values(
                        |row: KeyValueRow| row@,
                    ).push(oldkvs[j as int]));
                }
            } else {
                proof {
                    assert(!pred(oldkvs[j as int]));
                }
            }
            j = j + 1;
        }
        proof {
            assert(oldkvs.take(m as int) =~= oldkvs);
        }
        let fresh = KeyValueRow {
            key: key.to_owned(),
            value: data.to_owned(),
            last_modified: timestamp,
        };
        let ghost prekept = kept@;
        kept.push(fresh);
        store.key_values = kept;
        proof {
            assert(store.key_values_view() =~= oldkvs.filter(pred).push(
                (KeyValueRowView { key: key@, value: data@, last_modified: timestamp as int }),
            ));
            crate::lemmas::lemma_filter_elements(oldkvs, pred);
            crate::lemmas::lemma_filter_distinct_by(oldkvs, pred, |row: KeyValueRowView| row.key);
            let newkvs = store.key_values_view();
            let keptv = oldkvs.filter(pred);
            assert forall|a: int, b: int| 0 <= a < b < newkvs.len() implies (
            #[trigger] newkvs[a]).key != (#[trigger] newkvs[b]).key by {
                if b < keptv.len() {
                    assert(newkvs[a] == keptv[a]);
                    assert(newkvs[b] == keptv[b]);
                } else {
                    assert(newkvs[a] == keptv[a]);
                    assert(pred(keptv[a]));
                }
            }
        }
        Ok(())
    }

    /// Write a key-value pair, stamping it with the wall clock in seconds.
    pub fn insert_key_value(&self, store: &mut Store, key: &str, data: &str) -> (r: Result<
        (),
        DatastoreError,
    >)
        requires
            old(store).wf(),
            old(store).spec_version() == 5,
        ensures
            r is Ok,
            final(store).wf(),
            *final(store) == (Store { key_values: final(store).key_values, ..*old(store) }),
            exists|stamp: int|
                #![auto]
                final(store).key_values_view() == old(store).key_values_view().filter(
                    |row: KeyValueRowView| row.key != key@,
                ).push(KeyValueRowView { key: key@, value: data@, last_modified: stamp }),
            self.wf(*old(store)) ==> self.wf(*final(store)),
    {
        let now_s = crate::clock::now_timestamp_ns() / 1_000_000_000;
        let r = self.set_key_value_at(store, key, data, now_s);
        r
    }

    /// Drop a key and whatever it held; an absent key is no error.
    #[verifier::loop_isolation(false)]
    pub fn delete_key_value(&self, store: &mut Store, key: &str) -> (r: Result<
        (),
        DatastoreError,
    >)
        requires
            old(store).wf(),
        ensures
            r is Ok,
            final(store).wf(),
            *final(store) == (Store { key_values: final(store).key_values, ..*old(store) }),
            final(store).key_values_view() == old(store).key_values_view().filter(
                |row: KeyValueRowView| row.key != key@,
            ),
            self.wf(*old(store)) ==> self.wf(*final(store)),
    {
        let ghost pred = |row: KeyValueRowView| row.key != key@;
        let ghost oldkvs = store.key_values_view();
        let m = store.key_values.len();
        let mut kept: Vec<KeyValueRow> = Vec::new();
        proof {
            crate::lemmas::lemma_filter_empty(oldkvs.take(0), pred);
            assert(oldkvs.take(0) =~= Seq::<KeyValueRowView>::empty());
            assert(kept@.map_values(|row: KeyValueRow| row@) =~= oldkvs.take(0).filter(pred));
        }
        let mut j: usize = 0;
        while j < m
            invariant
                j <= m,
                kept@.map_values(|row: KeyValueRow| row@) == oldkvs.take(j as int).filter(pred),
            decreases m - j,
        {
            let ghost pre = kept@;
            proof {
                assert(oldkvs[j as int] == store.key_values@[j as int]@);
                assert(oldkvs.take(j as int + 1) =~= oldkvs.take(j as int).push(
                    oldkvs[j as int],
                ));
                crate::lemmas::lemma_filter_push(oldkvs.take(j as int), pred, oldkvs[j as int]);
            }
            let row = &store.key_values[j];
            if !crate::text::str_eq(row.key.as_str(), key) {
                let kept_row = row.clone();
                kept.push(kept_row);
                proof {
                    assert(pred(oldkvs[j as int]));
                    assert(kept@.map_values(|row: KeyValueRow| row@) =~= pre.map_values(
                        |row: KeyValueRow| row@,
                    ).push(oldkvs[j as int]));
                }
            } else {
                proof {
                    assert(!pred(oldkvs[j as int]));
                }
            }
            j = j + 1;
        }
        proof {
            assert(oldkvs.take(m as int) =~= oldkvs);
        }
        store.key_values = kept;
        proof {
            crate::lemmas::lemma_filter_elements(oldkvs, pred);
            crate::lemmas::lemma_filter_distinct_by(oldkvs, pred, |row: KeyValueRowView| row.key);
            assert forall|a: int, b: int| 0 <= a < b < store.key_values_view().len() implies (
            #[trigger] store.key_values_view()[a]).key
                != (#[trigger] store.key_values_view()[b]).key by {}
        }
        Ok(())
    }

    /// Read the value a key holds; an absent key is no-such-key.
    #[verifier::loop_isolation(false)]
    pub fn get_key_value(&self, store: &Store, key: &str) -> (r: Result<String, DatastoreError>)
        ensures
            match r {
                Ok(value) => exists|i: int|
                    0 <= i < store.key_values_view().len() && (
                    #[trigger] store.key_values_view()[i]).key == key@
                        && store.key_values_view()[i].value == value@,
                Err(e) => e is NoSuchKey && forall|i: int|
                    0 <= i < store.key_values_view().len() ==> (
                    #[trigger] store.key_values_view()[i]).key != key@,
            },
    {
        let m = store.key_values.len();
        let mut j: usize = 0;
        while j < m
            invariant
                j <= m,
                m == store.key_values@.len(),
                forall|k: int|
                    0 <= k < j ==> (#[trigger] store.key_values_view()[k]).key != key@,
            decreases m - j,
        {
            let row = &store.key_values[j];
            proof {
                assert(store.key_values_view()[j as int] == store.key_values@[j as int]@);
            }
            if crate::text::str_eq(row.key.as_str(), key) {
                return Ok(row.value.clone());
            }
            j = j + 1;
        }
        Err(DatastoreError::NoSuchKey(key.to_owned()))
    }

    /// Read every settings entry whose key answers the pattern: the match
    /// follows the storage engine's LIKE rule, and only keys under the
    /// settings namespace are reported, whatever the pattern asked for.
    #[verifier::loop_isolation(false)]
    pub fn get_key_values(&self, store: &Store, pattern: &str) -> (r: Result<
        Vec<KeyValueRow>,
        DatastoreError,
    >)
        ensures
            r matches Ok(rows) && rows@.map_values(|row: KeyValueRow| row@) == store.key_values_view().filter(
                |row: KeyValueRowView|
                    crate::text::spec_like_match(pattern@, row.key) && is_settings_key(row.key),
            ),
    {
        let ghost pred = |row: KeyValueRowView|
            crate::text::spec_like_match(pattern@, row.key) && is_settings_key(row.key);
        let ghost kvs = store.key_values_view();
        let m = store.key_values.len();
        let mut out: Vec<KeyValueRow> = Vec::new();
        proof {
            crate::lemmas::lemma_filter_empty(kvs.take(0), pred);
            assert(kvs.take(0) =~= Seq::<KeyValueRowView>::empty());
            assert(out@.map_values(|row: KeyValueRow| row@) =~= kvs.take(0).filter(pred));
        }
        let mut j: usize = 0;
        while j < m
            invariant
                j <= m,
                out@.map_values(|row: KeyValueRow| row@) == kvs.take(j as int).filter(pred),
            decreases m - j,
        {
            let ghost pre = out@;
            proof {
                assert(kvs[j as int] == store.key_values@[j as int]@);
                assert(kvs.take(j as int + 1) =~= kvs.take(j as int).push(kvs[j as int]));
                crate::lemmas::lemma_filter_push(kvs.take(j as int), pred, kvs[j as int]);
            }
            let row = &store.key_values[j];
            let likes = crate::text::like_match(pattern, row.key.as_str());
            let settings = has_settings_prefix(row.key.as_str());
            if likes && settings {
                let kept_row = row.clone();
                out.push(kept_row);
                proof {
                    assert(pred(kvs[j as int]));
                    assert(out@.map_values(|row: KeyValueRow| row@) =~= pre.map_values(
                        |row: KeyValueRow| row@,
                    ).push(kvs[j as int]));
                }
            } else {
                proof {
                    assert(!pred(kvs[j as int]));
                }
            }
            j = j + 1;
        }
        proof {
            assert(kvs.take(m as int) =~= kvs);
        }
        Ok(out)
    }

    /// Look an account up by its address, credentials included.
    #[verifier::loop_isolation(false)]
    pub fn get_user_by_email(&self, store: &Store, email: String) -> (r: Result<
        User,
        DatastoreError,
    >)
        ensures
            match r {
                Ok(u) => exists|i: int|
                    0 <= i < store.users_view().len() && (#[trigger] store.users_view()[i]).email
                        == email@ && u@ == store.users_view()[i],
                Err(e) => e is NoUser && forall|i: int|
                    0 <= i < store.users_view().len() ==> (#[trigger] store.users_view()[i]).email
                        != email@,
            },
    {
        let m = store.users.len();
        let mut j: usize = 0;
        while j < m
            invariant
                j <= m,
                m == store.users@.len(),
                forall|k: int|
                    0 <= k < j ==> (#[trigger] store.users_view()[k]).email != email@,
            decreases m - j,
        {
            let row = &store.users[j];
            proof {
                assert(store.users_view()[j as int] == store.users@[j as int]@);
            }
            if crate::text::str_eq(row.email.as_str(), email.as_str()) {
                return Ok(row.clone());
            }
            j = j + 1;
        }
        Err(DatastoreError::NoUser())
    }

    /// Look an account up by its id, credentials left out.
    #[verifier::loop_isolation(false)]
    pub fn get_user(&self, store: &Store, userId: i32) -> (r: Result<PublicUser, DatastoreError>)
        ensures
            match r {
                Ok(p) => exists|i: int|
                    0 <= i < store.users_view().len() && (#[trigger] store.users_view()[i]).id
                        == userId as int && p@ == crate::user::public_view_of(
                        store.users_view()[i],
                    ),
                Err(e) => e is NoUser && forall|i: int|
                    0 <= i < store.users_view().len() ==> (#[trigger] store.users_view()[i]).id
                        != userId as int,
            },
    {
        let m = store.users.len();
        let mut j: usize = 0;
        while j < m
            invariant
                j <= m,
                m == store.users@.len(),
                forall|k: int|
                    0 <= k < j ==> (#[trigger] store.users_view()[k]).id != userId as int,
            decreases m - j,
        {
            let row = &store.users[j];
            proof {
                assert(store.users_view()[j as int] == store.users@[j as int]@);
            }
            if row.id == userId {
                let p = PublicUser {
                    id: row.id,
                    email: row.email.clone(),
                    name: row.name.clone(),
                    lastname: row.lastname.clone(),
                    role: row.role,
                };
                return Ok(p);
            }
            j = j + 1;
        }
        Err(DatastoreError::NoUser())
    }

    /// Store a new account: the row takes a fresh id and the member role,
    /// and the reply echoes the request's public fields.  A taken address
    /// or username is refused.
    #[verifier::loop_isolation(false)]
    pub fn signup(&self, store: &mut Store, user: User) -> (r: Result<PublicUser, DatastoreError>)
        requires
            old(store).wf(),
            old(store).spec_version() == 5,
        ensures
            final(store).wf(),
            *final(store) == (Store {
                users: final(store).users,
                next_user_id: final(store).next_user_id,
                ..*old(store)
            }),
            self.wf(*old(store)) ==> self.wf(*final(store)),
            (exists|i: int|
                0 <= i < old(store).users_view().len() && ((#[trigger] old(store).users_view()[i]).email == user@.email || old(store).users_view()[i].username
                    == user@.username)) ==> (r matches Err(e) && e is InternalError) && *final(store) == *old(store),
            (forall|i: int|
                0 <= i < old(store).users_view().len() ==> (#[trigger] old(store).users_view()[i]).email != user@.email && old(store).users_view()[i].username
                    != user@.username) && old(store).next_user_id < i32::MAX ==> ({
                &&& r matches Ok(p) && p@ == crate::user::public_view_of(user@)
                &&& final(store).users_view() == old(store).users_view().push(
                    (UserView {
                        id: old(store).next_user_id as int,
                        role: 2,
                        ..user@
                    }),
                )
                &&& final(store).next_user_id == old(store).next_user_id + 1
            }),
    {
        let m = store.users.len();
        let mut j: usize = 0;
        while j < m
            invariant
                j <= m,
                m == store.users@.len(),
                forall|k: int|
                    0 <= k < j ==> (#[trigger] store.users_view()[k]).email != user@.email
                        && store.users_view()[k].username != user@.username,
            decreases m - j,
        {
            let row = &store.users[j];
            proof {
                assert(store.users_view()[j as int] == store.users@[j as int]@);
            }
            if crate::text::str_eq(row.email.as_str(), user.email.as_str()) || crate::text::str_eq(
                row.username.as_str(),
                user.username.as_str(),
            ) {
                return Err(
                    DatastoreError::InternalError("Could not insert: account taken".to_owned()),
                );
            }
            j = j + 1;
        }
        if store.next_user_id == i32::MAX {
            return Err(
                DatastoreError::InternalError(
                    "Could not insert: user id space exhausted".to_owned(),
                ),
            );
        }
        let ghost preusers = store.users_view();
        let row = User {
            id: store.next_user_id,
            email: user.email.clone(),
            username: user.username.clone(),
            name: user.name.clone(),
            lastname: user.lastname.clone(),
            role: 2,
            password: user.password.clone(),
        };
        store.users.push(row);
        store.next_user_id = store.next_user_id + 1;
        proof {
            assert(store.users_view() =~= preusers.push(
                (UserView { id: (store.next_user_id - 1) as int, role: 2, ..user@ }),
            ));
            assert forall|a: int, b: int| 0 <= a < b < store.users_view().len() implies (
            #[trigger] store.users_view()[a]).id != (#[trigger] store.users_view()[b]).id && store.users_view()[a].email
                != store.users_view()[b].email && store.users_view()[a].username
                != store.users_view()[b].username by {
                if b < preusers.len() {
                    assert(store.users_view()[a] == preusers[a]);
                    assert(store.users_view()[b] == preusers[b]);
                } else {
                    assert(store.users_view()[a] == preusers[a]);
                }
            }
        }
        Ok(
            PublicUser {
                id: user.id,
                email: user.email,
                name: user.name,
                lastname: user.lastname,
                role: user.role,
            },
        )
    }

    /// Every team a user owns, in table order.
    #[verifier::loop_isolation(false)]
    pub fn get_teams(&self, store: &Store, ownerId: i32) -> (r: Result<Vec<Team>, DatastoreError>)
        ensures
            r matches Ok(teams) && teams@.map_values(|t: Team| t@) == store.teams_view().filter(
                |t: TeamView| t.ownerId == ownerId as int,
            ),
    {
        let ghost pred = |t: TeamView| t.ownerId == ownerId as int;
        let ghost table = store.teams_view();
        let m = store.teams.len();
        let mut out: Vec<Team> = Vec::new();
        proof {
            crate::lemmas::lemma_filter_empty(table.take(0), pred);
            assert(table.take(0) =~= Seq::<TeamView>::empty());
            assert(out@.map_values(|t: Team| t@) =~= table.take(0).filter(pred));
        }
        let mut j: usize = 0;
        while j < m
            invariant
                j <= m,
                out@.map_values(|t: Team| t@) == table.take(j as int).filter(pred),
            decreases m - j,
        {
            let ghost pre = out@;
            proof {
                assert(table[j as int] == store.teams@[j as int]@);
                assert(table.take(j as int + 1) =~= table.take(j as int).push(table[j as int]));
                crate::lemmas::lemma_filter_push(table.take(j as int), pred, table[j as int]);
            }
            let row = &store.teams[j];
            if row.ownerId == ownerId {
                let kept_row = row.clone();
                out.push(kept_row);
                proof {
                    assert(pred(table[j as int]));
                    assert(out@.map_values(|t: Team| t@) =~= pre.map_values(|t: Team| t@).push(
                        table[j as int],
                    ));
                }
            } else {
                proof {
                    assert(!pred(table[j as int]));
                }
            }
            j = j + 1;
        }
        proof {
            assert(table.take(m as int) =~= table);
        }
        Ok(out)
    }

    /// Store a new team under its owner, assigning it the next id.
    #[verifier::loop_isolation(false)]
    pub fn add_team(&self, store: &mut Store, team: TeamRequestModel, ownerId: i32) -> (r: Result<
        Team,
        DatastoreError,
    >)
        requires
            old(store).wf(),
            old(store).spec_version() == 5,
        ensures
            final(store).wf(),
            *final(store) == (Store {
                teams: final(store).teams,
                next_team_id: final(store).next_team_id,
                ..*old(store)
            }),
            self.wf(*old(store)) ==> self.wf(*final(store)),
            old(store).next_team_id == i32::MAX ==> (r matches Err(e) && e is InternalError)
                && *final(store) == *old(store),
            old(store).next_team_id < i32::MAX ==> ({
                &&& r matches Ok(t) && t@ == (TeamView {
                    id: old(store).next_team_id as int,
                    name: team@.name,
                    description: team@.description,
                    ownerId: ownerId as int,
                })
                &&& final(store).teams_view() == old(store).teams_view().push(
                    (TeamView {
                        id: old(store).next_team_id as int,
                        name: team@.name,
                        description: team@.description,
                        ownerId: ownerId as int,
                    }),
                )
                &&& final(store).next_team_id == old(store).next_team_id + 1
            }),
    {
        if store.next_team_id == i32::MAX {
            return Err(
                DatastoreError::InternalError(
                    "Faild to insert data: team id space exhausted".to_owned(),
                ),
            );
        }
        let ghost preteams = store.teams_view();
        let created = Team {
            id: store.next_team_id,
            name: team.name,
            description: team.description,
            ownerId,
        };
        let echoed = created.clone();
        store.teams.push(created);
        store.next_team_id = store.next_team_id + 1;
        proof {
            assert(store.teams_view() =~= preteams.push(echoed@));
            assert forall|a: int, b: int| 0 <= a < b < store.teams_view().len() implies (
            #[trigger] store.teams_view()[a]).id != (#[trigger] store.teams_view()[b]).id by {
                if b < preteams.len() {
                    assert(store.teams_view()[a] == preteams[a]);
                    assert(store.teams_view()[b] == preteams[b]);
                } else {
                    assert(store.teams_view()[a] == preteams[a]);
                }
            }
        }
        Ok(echoed)
    }

    /// How many members a team has.
    #[verifier::loop_isolation(false)]
    pub fn get_team_members_count(&self, store: &Store, team_id: i32) -> (r: Result<
        i64,
        DatastoreError,
    >)
        ensures
            r matches Ok(count) && ({
                let n = store.teams_users_view().filter(
                    |tu: TeamUserRowView| tu.team_id == team_id as int,
                ).len() as int;
                count as int == if n > i64::MAX {
                    i64::MAX as int
                } else {
                    n
                }
            }),
    {
        let ghost pred = |tu: TeamUserRowView| tu.team_id == team_id as int;
        let ghost table = store.teams_users_view();
        let m = store.teams_users.len();
        let mut count: i64 = 0;
        proof {
            crate::lemmas::lemma_filter_empty(table.take(0), pred);
            assert(table.take(0) =~= Seq::<TeamUserRowView>::empty());
        }
        let mut j: usize = 0;
        while j < m
            invariant
                j <= m,
                0 <= count,
                count as int == ({
                    let n = table.take(j as int).filter(pred).len() as int;
                    if n > i64::MAX {
                        i64::MAX as int
                    } else {
                        n
                    }
                }),
            decreases m - j,
        {
            proof {
                assert(table[j as int] == store.teams_users@[j as int]@);
                assert(table.take(j as int + 1) =~= table.take(j as int).push(table[j as int]));
                crate::lemmas::lemma_filter_push(table.take(j as int), pred, table[j as int]);
            }
            let row = &store.teams_users[j];
            if row.team_id == team_id {
                proof {
                    assert(pred(table[j as int]));
                }
                if count < i64::MAX {
                    count = count + 1;
                }
            } else {
                proof {
                    assert(!pred(table[j as int]));
                }
            }
            j = j + 1;
        }
        proof {
            assert(table.take(m as int) =~= table);
        }
        Ok(count)
    }

    /// Look a team up by its id.
    #[verifier::loop_isolation(false)]
    pub fn get_team(&self, store: &Store, team_id: i32) -> (r: Result<Team, DatastoreError>)
        ensures
            match r {
                Ok(t) => exists|i: int|
                    0 <= i < store.teams_view().len() && (#[trigger] store.teams_view()[i]).id
                        == team_id as int && t@ == store.teams_view()[i],
                Err(e) => e is NoUser && forall|i: int|
                    0 <= i < store.teams_view().len() ==> (#[trigger] store.teams_view()[i]).id
                        != team_id as int,
            },
    {
        let m = store.teams.len();
        let mut j: usize = 0;
        while j < m
            invariant
                j <= m,
                m == store.teams@.len(),
                forall|k: int|
                    0 <= k < j ==> (#[trigger] store.teams_view()[k]).id != team_id as int,
            decreases m - j,
        {
            let row = &store.teams[j];
            proof {
                assert(store.teams_view()[j as int] == store.teams@[j as int]@);
            }
            if row.id == team_id {
                return Ok(row.clone());
            }
            j = j + 1;
        }
        Err(DatastoreError::NoUser())
    }

    /// Every account with the member role, public fields only.
    #[verifier::loop_isolation(false)]
    pub fn get_all_users(&self, store: &Store) -> (r: Result<Vec<PublicUser>, DatastoreError>)
        ensures
            r matches Ok(users) && users@.map_values(|p: PublicUser| p@) == store.users_view().filter(
                |u: UserView| u.role == 2,
            ).map_values(|u: UserView| crate::user::public_view_of(u)),
    {
        let ghost pred = |u: UserView| u.role == 2;
        let ghost table = store.users_view();
        let m = store.users.len();
        let mut out: Vec<PublicUser> = Vec::new();
        proof {
            crate::lemmas::lemma_filter_empty(table.take(0), pred);
            assert(table.take(0) =~= Seq::<UserView>::empty());
            assert(out@.map_values(|p: PublicUser| p@) =~= table.take(0).filter(pred).map_values(
                |u: UserView| crate::user::public_view_of(u),
            ));
        }
        let mut j: usize = 0;
        while j < m
            invariant
                j <= m,
                out@.map_values(|p: PublicUser| p@) == table.take(j as int).filter(pred).map_values(
                    |u: UserView| crate::user::public_view_of(u),
                ),
            decreases m - j,
        {
            let ghost pre = out@;
            proof {
                assert(table[j as int] == store.users@[j as int]@);
                assert(table.take(j as int + 1) =~= table.take(j as int).push(table[j as int]));
                crate::lemmas::lemma_filter_push(table.take(j as int), pred, table[j as int]);
            }
            let row = &store.users[j];
            if row.role == 2 {
                let p = PublicUser {
                    id: row.id,
                    email: row.email.clone(),
                    name: row.name.clone(),
                    lastname: row.lastname.clone(),
                    role: row.role,
                };
                out.push(p);
                proof {
                    assert(pred(table[j as int]));
                    assert(out@.map_values(|p: PublicUser| p@) =~= pre.map_values(
                        |p: PublicUser| p@,
                    ).push(crate::user::public_view_of(table[j as int])));
                    assert(out@.map_values(|p: PublicUser| p@) =~= table.take(
                        j as int + 1,
                    ).filter(pred).map_values(|u: UserView| crate::user::public_view_of(u)));
                }
            } else {
                proof {
                    assert(!pred(table[j as int]));
                    assert(out@.map_values(|p: PublicUser| p@) =~= table.take(
                        j as int + 1,
                    ).filter(pred).map_values(|u: UserView| crate::user::public_view_of(u)));
                }
            }
            j = j + 1;
        }
        proof {
            assert(table.take(m as int) =~= table);
        }
        Ok(out)
    }

    /// A team's members: each membership row joined with its account's
    /// public fields; a membership whose account is gone is passed over.
    #[verifier::loop_isolation(false)]
    pub fn get_team_members(&self, store: &Store, team_id: i32) -> (r: Result<
        Vec<Member>,
        DatastoreError,
    >)
        requires
            store.wf(),
        ensures
            r matches Ok(members) && members@.map_values(|mb: Member| mb@)
                == store.teams_users_view().filter(
                |tu: TeamUserRowView|
                    tu.team_id == team_id as int && spec_user_by_id(
                        store.users_view(),
                        tu.user_id,
                    ) is Some,
            ).map_values(
                |tu: TeamUserRowView|
                    member_of(tu, spec_user_by_id(store.users_view(), tu.user_id)->0),
            ),
    {
        let ghost pred = |tu: TeamUserRowView|
            tu.team_id == team_id as int && spec_user_by_id(store.users_view(), tu.user_id) is Some;
        let ghost mapper = |tu: TeamUserRowView|
            member_of(tu, spec_user_by_id(store.users_view(), tu.user_id)->0);
        let ghost table = store.teams_users_view();
        let m = store.teams_users.len();
        let un = store.users.len();
        let mut out: Vec<Member> = Vec::new();
        proof {
            crate::lemmas::lemma_filter_empty(table.take(0), pred);
            assert(table.take(0) =~= Seq::<TeamUserRowView>::empty());
            assert(out@.map_values(|mb: Member| mb@) =~= table.take(0).filter(pred).map_values(
                mapper,
            ));
        }
        let mut j: usize = 0;
        while j < m
            invariant
                j <= m,
                out@.map_values(|mb: Member| mb@) == table.take(j as int).filter(pred).map_values(
                    mapper,
                ),
            decreases m - j,
        {
            let ghost pre = out@;
            proof {
                assert(table[j as int] == store.teams_users@[j as int]@);
                assert(table.take(j as int + 1) =~= table.take(j as int).push(table[j as int]));
                crate::lemmas::lemma_filter_push(table.take(j as int), pred, table[j as int]);
            }
            let tu = &store.teams_users[j];
            if tu.team_id == team_id {
                // Find the member's account.
                let mut qi: usize = un;
                let mut q: usize = 0;
                while q < un
                    invariant
                        q <= un,
                        un == store.users@.len(),
                        qi == un ==> forall|k: int|
                            0 <= k < q ==> (#[trigger] store.users_view()[k]).id != tu@.user_id,
                        qi < un ==> store.users_view()[qi as int].id == tu@.user_id,
                        qi == un || qi < q,
                    decreases un - q,
                {
                    proof {
                        assert(store.users_view()[q as int] == store.users@[q as int]@);
                    }
                    if qi == un && store.users[q].id == tu.user_id {
                        qi = q;
                    }
                    q = q + 1;
                }
                if qi < un {
                    let u = &store.users[qi];
                    let mb = Member {
                        id: tu.id,
                        user_id: u.id,
                        name: u.name.clone(),
                        lastname: u.lastname.clone(),
                        email: u.email.clone(),
                    };
                    let ghost mbv = mb@;
                    out.push(mb);
                    proof {
                        assert(store.users_view()[qi as int] == store.users@[qi as int]@);
                        assert(spec_user_by_id(store.users_view(), tu@.user_id) is Some);
                        let w = choose|w: int|
                            0 <= w < store.users_view().len() && (
                            #[trigger] store.users_view()[w]).id == tu@.user_id;
                        assert(w == qi as int);
                        assert(pred(table[j as int]));
                        assert(mbv == mapper(table[j as int]));
                        assert(out@.map_values(|mb: Member| mb@) =~= pre.map_values(
                            |mb: Member| mb@,
                        ).push(mapper(table[j as int])));
                        assert(out@.map_values(|mb: Member| mb@) =~= table.take(
                            j as int + 1,
                        ).filter(pred).map_values(mapper));
                    }
                } else {
                    proof {
                        assert(spec_user_by_id(store.users_view(), tu@.user_id) is None);
                        assert(!pred(table[j as int]));
                        assert(out@.map_values(|mb: Member| mb@) =~= table.take(
                            j as int + 1,
                        ).filter(pred).map_values(mapper));
                    }
                }
            } else {
                proof {
                    assert(!pred(table[j as int]));
                    assert(out@.map_values(|mb: Member| mb@) =~= table.take(j as int + 1).filter(
                        pred,
                    ).map_values(mapper));
                }
            }
            j = j + 1;
        }
        proof {
            assert(table.take(m as int) =~= table);
        }
        Ok(out)
    }

    /// Enroll each listed account in the team, one membership row apiece.
    #[verifier::loop_isolation(false)]
    pub fn add_members(&self, store: &mut Store, team_id: i32, members: Vec<i32>) -> (r: Result<
        bool,
        DatastoreError,
    >)
        requires
            old(store).wf(),
            old(store).spec_version() == 5,
        ensures
            r == Ok::<bool, DatastoreError>(true),
            final(store).wf(),
            *final(store) == (Store {
                teams_users: final(store).teams_users,
                next_membership_id: final(store).next_membership_id,
                ..*old(store)
            }),
            self.wf(*old(store)) ==> self.wf(*final(store)),
            old(store).next_membership_id + members@.len() <= i32::MAX ==> ({
                &&& final(store).teams_users_view() == old(store).teams_users_view() + Seq::new(
                    members@.len() as nat,
                    |k: int|
                        TeamUserRowView {
                            id: old(store).next_membership_id + k,
                            team_id: team_id as int,
                            user_id: members@[k] as int,
                        },
                )
                &&& final(store).next_membership_id == old(store).next_membership_id
                    + members@.len()
            }),
    {
        let n = members.len();
        let ghost pretable = store.teams_users_view();
        let ghost prenext = store.next_membership_id as int;
        let mut k: usize = 0;
        while k < n
            invariant
                k <= n,
                n == members@.len(),
                *store == (Store {
                    teams_users: store.teams_users,
                    next_membership_id: store.next_membership_id,
                    ..*old(store)
                }),
                store.wf(),
                prenext + k >= store.next_membership_id as int || true,
                prenext + n <= i32::MAX ==> store.next_membership_id as int == prenext + k
                    && store.teams_users_view() == pretable + Seq::new(
                    k as nat,
                    |x: int|
                        TeamUserRowView {
                            id: prenext + x,
                            team_id: team_id as int,
                            user_id: members@[x] as int,
                        },
                ),
            decreases n - k,
        {
            if store.next_membership_id < i32::MAX {
                let ghost pretu = store.teams_users_view();
                let row = TeamUserRow {
                    id: store.next_membership_id,
                    team_id,
                    user_id: members[k],
                };
                store.teams_users.push(row);
                store.next_membership_id = store.next_membership_id + 1;
                proof {
                    assert(store.teams_users_view() =~= pretu.push(
                        (TeamUserRowView {
                            id: (store.next_membership_id - 1) as int,
                            team_id: team_id as int,
                            user_id: members@[k as int] as int,
                        }),
                    ));
                    assert forall|a: int, b: int|
                        0 <= a < b < store.teams_users_view().len() implies (
                    #[trigger] store.teams_users_view()[a]).id
                        != (#[trigger] store.teams_users_view()[b]).id by {
                        if b < pretu.len() {
                            assert(store.teams_users_view()[a] == pretu[a]);
                            assert(store.teams_users_view()[b] == pretu[b]);
                        } else {
                            assert(store.teams_users_view()[a] == pretu[a]);
                        }
                    }
                    if prenext + n <= i32::MAX {
                        assert(store.teams_users_view() =~= pretable + Seq::new(
                            (k + 1) as nat,
                            |x: int|
                                TeamUserRowView {
                                    id: prenext + x,
                                    team_id: team_id as int,
                                    user_id: members@[x] as int,
                                },
                        ));
                    }
                }
            }
            k = k + 1;
        }
        Ok(true)
    }

    /// Strike one membership row by its own id; the team argument plays no
    /// part in the deletion.
    #[verifier::loop_isolation(false)]
    #[allow(unused_variables)]
    pub fn remove_member(&self, store: &mut Store, team_id: i32, member_id: i32) -> (r: Result<
        bool,
        DatastoreError,
    >)
        requires
            old(store).wf(),
        ensures
            r == Ok::<bool, DatastoreError>(true),
            final(store).wf(),
            *final(store) == (Store { teams_users: final(store).teams_users, ..*old(store) }),
            final(store).teams_users_view() == old(store).teams_users_view().filter(
                |tu: TeamUserRowView| tu.id != member_id as int,
            ),
            self.wf(*old(store)) ==> self.wf(*final(store)),
    {
        let ghost pred = |tu: TeamUserRowView| tu.id != member_id as int;
        let ghost table = store.teams_users_view();
        let m = store.teams_users.len();
        let mut kept: Vec<TeamUserRow> = Vec::new();
        proof {
            crate::lemmas::lemma_filter_empty(table.take(0), pred);
            assert(table.take(0) =~= Seq::<TeamUserRowView>::empty());
            assert(kept@.map_values(|tu: TeamUserRow| tu@) =~= table.take(0).filter(pred));
        }
        let mut j: usize = 0;
        while j < m
            invariant
                j <= m,
                kept@.map_values(|tu: TeamUserRow| tu@) == table.take(j as int).filter(pred),
            decreases m - j,
        {
            let ghost pre = kept@;
            proof {
                assert(table[j as int] == store.teams_users@[j as int]@);
                assert(table.take(j as int + 1) =~= table.take(j as int).push(table[j as int]));
                crate::lemmas::lemma_filter_push(table.take(j as int), pred, table[j as int]);
            }
            let row = &store.teams_users[j];
            if row.id != member_id {
                let kept_row = row.clone();
                kept.push(kept_row);
                proof {
                    assert(pred(table[j as int]));
                    assert(kept@.map_values(|tu: TeamUserRow| tu@) =~= pre.map_values(
                        |tu: TeamUserRow| tu@,
                    ).push(table[j as int]));
                }
            } else {
                proof {
                    assert(!pred(table[j as int]));
                }
            }
            j = j + 1;
        }
        proof {
            assert(table.take(m as int) =~= table);
        }
        store.teams_users = kept;
        proof {
            crate::lemmas::lemma_filter_elements(table, pred);
            crate::lemmas::lemma_filter_distinct_by(table, pred, |tu: TeamUserRowView| tu.id);
            assert forall|a: int, b: int| 0 <= a < b < store.teams_users_view().len() implies (
            #[trigger] store.teams_users_view()[a]).id
                != (#[trigger] store.teams_users_view()[b]).id by {}
            assert forall|a: int| 0 <= a < store.teams_users_view().len() implies (
            #[trigger] store.teams_users_view()[a]).id < store.next_membership_id by {
                let x = choose|x: int|
                    0 <= x < table.len() && table[x] == store.teams_users_view()[a];
            }
        }
        Ok(true)
    }

    /// Every team an account is enrolled in, as member-side listings; a
    /// membership whose team is gone is passed over.
    #[verifier::loop_isolation(false)]
    pub fn get_user_teams(&self, store: &Store, user_id: i32) -> (r: Result<
        Vec<TeamUserModel>,
        DatastoreError,
    >)
        requires
            store.wf(),
        ensures
            r matches Ok(listings) && listings@.map_values(|tm: TeamUserModel| tm@)
                == store.teams_users_view().filter(
                |tu: TeamUserRowView|
                    tu.user_id == user_id as int && spec_team_by_id(
                        store.teams_view(),
                        tu.team_id,
                    ) is Some,
            ).map_values(
                |tu: TeamUserRowView|
                    team_listing_of(spec_team_by_id(store.teams_view(), tu.team_id)->0),
            ),
    {
        let ghost pred = |tu: TeamUserRowView|
            tu.user_id == user_id as int && spec_team_by_id(store.teams_view(), tu.team_id) is Some;
        let ghost mapper = |tu: TeamUserRowView|
            team_listing_of(spec_team_by_id(store.teams_view(), tu.team_id)->0);
        let ghost table = store.teams_users_view();
        let m = store.teams_users.len();
        let tn = store.teams.len();
        let mut out: Vec<TeamUserModel> = Vec::new();
        proof {
            crate::lemmas::lemma_filter_empty(table.take(0), pred);
            assert(table.take(0) =~= Seq::<TeamUserRowView>::empty());
            assert(out@.map_values(|tm: TeamUserModel| tm@) =~= table.take(0).filter(
                pred,
            ).map_values(mapper));
        }
        let mut j: usize = 0;
        while j < m
            invariant
                j <= m,
                out@.map_values(|tm: TeamUserModel| tm@) == table.take(j as int).filter(
                    pred,
                ).map_values(mapper),
            decreases m - j,
        {
            let ghost pre = out@;
            proof {
                assert(table[j as int] == store.teams_users@[j as int]@);
                assert(table.take(j as int + 1) =~= table.take(j as int).push(table[j as int]));
                crate::lemmas::lemma_filter_push(table.take(j as int), pred, table[j as int]);
            }
            let tu = &store.teams_users[j];
            if tu.user_id == user_id {
                let mut qi: usize = tn;
                let mut q: usize = 0;
                while q < tn
                    invariant
                        q <= tn,
                        tn == store.teams@.len(),
                        qi == tn ==> forall|k: int|
                            0 <= k < q ==> (#[trigger] store.teams_view()[k]).id != tu@.team_id,
                        qi < tn ==> store.teams_view()[qi as int].id == tu@.team_id,
                        qi == tn || qi < q,
                    decreases tn - q,
                {
                    proof {
                        assert(store.teams_view()[q as int] == store.teams@[q as int]@);
                    }
                    if qi == tn && store.teams[q].id == tu.team_id {
                        qi = q;
                    }
                    q = q + 1;
                }
                if qi < tn {
                    let t = &store.teams[qi];
                    let tm = TeamUserModel {
                        id: t.id,
                        name: t.name.clone(),
                        description: t.description.clone(),
                    };
                    let ghost tmv = tm@;
                    out.push(tm);
                    proof {
                        assert(store.teams_view()[qi as int] == store.teams@[qi as int]@);
                        assert(spec_team_by_id(store.teams_view(), tu@.team_id) is Some);
                        let w = choose|w: int|
                            0 <= w < store.teams_view().len() && (
                            #[trigger] store.teams_view()[w]).id == tu@.team_id;
                        assert(w == qi as int);
                        assert(pred(table[j as int]));
                        assert(tmv == mapper(table[j as int]));
                        assert(out@.map_values(|tm: TeamUserModel| tm@) =~= pre.map_values(
                            |tm: TeamUserModel| tm@,
                        ).push(mapper(table[j as int])));
                        assert(out@.map_values(|tm: TeamUserModel| tm@) =~= table.take(
                            j as int + 1,
                        ).filter(pred).map_values(mapper));
                    }
                } else {
                    proof {
                        assert(spec_team_by_id(store.teams_view(), tu@.team_id) is None);
                        assert(!pred(table[j as int]));
                        assert(out@.map_values(|tm: TeamUserModel| tm@) =~= table.take(
                            j as int + 1,
                        ).filter(pred).map_values(mapper));
                    }
                }
            } else {
                proof {
                    assert(!pred(table[j as int]));
                    assert(out@.map_values(|tm: TeamUserModel| tm@) =~= table.take(
                        j as int + 1,
                    ).filter(pred).map_values(mapper));
                }
            }
            j = j + 1;
        }
        proof {
            assert(table.take(m as int) =~= table);
        }
        Ok(out)
    }

    /// Overwrite the allow-list of every configuration row of the team.
    #[verifier::loop_isolation(false)]
    pub fn update_configuration(&self, store: &mut Store, team_id: i32, apps: String) -> (r: Result<
        bool,
        DatastoreError,
    >)
        requires
            old(store).wf(),
        ensures
            r == Ok::<bool, DatastoreError>(true),
            final(store).wf(),
            *final(store) == (Store {
                team_configurations: final(store).team_configurations,
                ..*old(store)
            }),
            final(store).team_configurations_view().len() == old(store).team_configurations_view().len(),
            forall|j: int|
                0 <= j < old(store).team_configurations_view().len() ==> #[trigger] final(store).team_configurations_view()[j] == (if old(store).team_configurations_view()[j].team_id == team_id as int {
                    TeamConfigurationRowView {
                        apps: apps@,
                        ..old(store).team_configurations_view()[j]
                    }
                } else {
                    old(store).team_configurations_view()[j]
                }),
            self.wf(*old(store)) ==> self.wf(*final(store)),
    {
        let ghost table = store.team_configurations_view();
        let m = store.team_configurations.len();
        let mut j: usize = 0;
        while j < m
            invariant
                j <= m,
                m == store.team_configurations@.len(),
                *store == (Store {
                    team_configurations: store.team_configurations,
                    ..*old(store)
                }),
                table == old(store).team_configurations_view(),
                forall|k: int|
                    0 <= k < j ==> #[trigger] store.team_configurations_view()[k] == (if table[k].team_id
                        == team_id as int {
                        TeamConfigurationRowView { apps: apps@, ..table[k] }
                    } else {
                        table[k]
                    }),
                forall|k: int|
                    j <= k < m ==> #[trigger] store.team_configurations_view()[k] == table[k],
            decreases m - j,
        {
            proof {
                assert(store.team_configurations_view()[j as int]
                    == store.team_configurations@[j as int]@);
            }
            if store.team_configurations[j].team_id == team_id {
                let ghost pre = store.team_configurations@;
                let updated = TeamConfigurationRow {
                    id: store.team_configurations[j].id,
                    team_id: store.team_configurations[j].team_id,
                    apps: apps.clone(),
                };
                store.team_configurations[j] = updated;
                proof {
                    assert forall|k: int| 0 <= k < m && k != j as int implies
                        #[trigger] store.team_configurations_view()[k] == pre.map_values(
                        |row: TeamConfigurationRow| row@,
                    )[k] by {
                        assert(store.team_configurations@[k] == pre[k]);
                    }
                }
            }
            j = j + 1;
        }
        proof {
            assert forall|a: int, b: int|
                0 <= a < b < store.team_configurations_view().len() implies (
            #[trigger] store.team_configurations_view()[a]).id
                != (#[trigger] store.team_configurations_view()[b]).id by {
                assert(store.team_configurations_view()[a].id == table[a].id);
                assert(store.team_configurations_view()[b].id == table[b].id);
            }
            assert forall|a: int| 0 <= a < store.team_configurations_view().len() implies (
            #[trigger] store.team_configurations_view()[a]).id
                < store.next_configuration_id by {
                assert(store.team_configurations_view()[a].id == table[a].id);
            }
        }
        Ok(true)
    }

    /// Store a configuration row for the team, assigning it the next id.
    pub fn add_configuration(&self, store: &mut Store, team_id: i32, apps: String) -> (r: Result<
        bool,
        DatastoreError,
    >)
        requires
            old(store).wf(),
            old(store).spec_version() == 5,
        ensures
            final(store).wf(),
            *final(store) == (Store {
                team_configurations: final(store).team_configurations,
                next_configuration_id: final(store).next_configuration_id,
                ..*old(store)
            }),
            self.wf(*old(store)) ==> self.wf(*final(store)),
            old(store).next_configuration_id == i32::MAX ==> (r matches Err(e)
                && e is InternalError) && *final(store) == *old(store),
            old(store).next_configuration_id < i32::MAX ==> ({
                &&& r == Ok::<bool, DatastoreError>(true)
                &&& final(store).team_configurations_view() == old(store).team_configurations_view().push(
                    (TeamConfigurationRowView {
                        id: old(store).next_configuration_id as int,
                        team_id: team_id as int,
                        apps: apps@,
                    }),
                )
                &&& final(store).next_configuration_id == old(store).next_configuration_id + 1
            }),
    {
        if store.next_configuration_id == i32::MAX {
            return Err(
                DatastoreError::InternalError(
                    "Faild to insert data: configuration id space exhausted".to_owned(),
                ),
            );
        }
        let ghost pretable = store.team_configurations_view();
        let row = TeamConfigurationRow { id: store.next_configuration_id, team_id, apps };
        store.team_configurations.push(row);
        store.next_configuration_id = store.next_configuration_id + 1;
        proof {
            assert(store.team_configurations_view() =~= pretable.push(
                (TeamConfigurationRowView {
                    id: (store.next_configuration_id - 1) as int,
                    team_id: team_id as int,
                    apps: store.team_configurations@[pretable.len() as int]@.apps,
                }),
            ));
            assert forall|a: int, b: int|
                0 <= a < b < store.team_configurations_view().len() implies (
            #[trigger] store.team_configurations_view()[a]).id
                != (#[trigger] store.team_configurations_view()[b]).id by {
                if b < pretable.len() {
                    assert(store.team_configurations_view()[a] == pretable[a]);
                    assert(store.team_configurations_view()[b] == pretable[b]);
                } else {
                    assert(store.team_configurations_view()[a] == pretable[a]);
                }
            }
        }
        Ok(true)
    }

    /// A team's configuration: the first stored row, its allow-list split
    /// out of its comma-separated form; a team without one is an error.
    #[verifier::loop_isolation(false)]
    pub fn get_configuration(&self, store: &Store, team_id: i32) -> (r: Result<
        TeamConfiguration,
        DatastoreError,
    >)
        ensures
            match r {
                Ok(cfg) => exists|i: int|
                    {
                        &&& 0 <= i < store.team_configurations_view().len()
                        &&& (#[trigger] store.team_configurations_view()[i]).team_id
                            == team_id as int
                        &&& (forall|k: int|
                            0 <= k < i ==> (#[trigger] store.team_configurations_view()[k]).team_id
                                != team_id as int)
                        &&& cfg@.id == store.team_configurations_view()[i].id
                        &&& cfg@.team_id == store.team_configurations_view()[i].team_id
                        &&& cfg@.apps == (if store.team_configurations_view()[i].apps.len() > 0 {
                            crate::text::spec_split_commas(
                                store.team_configurations_view()[i].apps,
                            )
                        } else {
                            Seq::<Seq<char>>::empty()
                        })
                    },
                Err(e) => e is InternalError && forall|i: int|
                    0 <= i < store.team_configurations_view().len() ==> (
                    #[trigger] store.team_configurations_view()[i]).team_id != team_id as int,
            },
    {
        let m = store.team_configurations.len();
        let mut j: usize = 0;
        while j < m
            invariant
                j <= m,
                m == store.team_configurations@.len(),
                forall|k: int|
                    0 <= k < j ==> (#[trigger] store.team_configurations_view()[k]).team_id
                        != team_id as int,
            decreases m - j,
        {
            let row = &store.team_configurations[j];
            proof {
                assert(store.team_configurations_view()[j as int]
                    == store.team_configurations@[j as int]@);
            }
            if row.team_id == team_id {
                let apps_len = row.apps.as_str().unicode_len();
                let apps: Vec<String> = if apps_len > 0 {
                    crate::text::split_commas(row.apps.as_str())
                } else {
                    Vec::new()
                };
                let cfg = TeamConfiguration { id: row.id, team_id: row.team_id, apps };
                proof {
                    assert(cfg@.apps =~= (if store.team_configurations_view()[j as int].apps.len()
                        > 0 {
                        crate::text::spec_split_commas(
                            store.team_configurations_view()[j as int].apps,
                        )
                    } else {
                        Seq::<Seq<char>>::empty()
                    }));
                }
                return Ok(cfg);
            }
            j = j + 1;
        }
        Err(
            DatastoreError::InternalError(
                "Failed to prepare get_value SQL statement: no configuration".to_owned(),
            ),
        )
    }

    /// The cache position of a bucket id, if any entry carries it.
    fn find_bucket_index(&self, bucket_id: i64) -> (r: Option<usize>)
        ensures
            match r {
                Some(i) => i < self.cache_view().len() && self.cache_view()[i as int].bid
                    == bucket_id as int,
                None => !cache_has_bucket(self.cache_view(), bucket_id as int),
            },
    {
        let n = self.buckets_cache.len();
        let mut i: usize = 0;
        while i < n
            invariant
                n == self.buckets_cache@.len(),
                i <= n,
                forall|k: int| 0 <= k < i ==> (#[trigger] self.cache_view()[k]).bid != bucket_id as int,
            decreases n - i,
        {
            if self.buckets_cache[i].bid == bucket_id {
                proof {
                    assert(self.cache_view()[i as int] == self.buckets_cache@[i as int]@);
                }
                return Some(i);
            }
            i = i + 1;
        }
        None
    }

    /// Delete a bucket: all of its events, then its row, then its cache
    /// entry.  An id that is not cached fails with no-such-bucket and leaves
    /// the store untouched.
    #[verifier::loop_isolation(false)]
    pub fn delete_bucket(&mut self, store: &mut Store, bucket_id: i64) -> (r: Result<
        (),
        DatastoreError,
    >)
        requires
            old(self).wf(*old(store)),
        ensures
            delete_bucket_ensures(
                *old(self),
                *old(store),
                *final(self),
                *final(store),
                bucket_id as int,
                r,
            ),
    {
        let found = self.find_bucket_index(bucket_id);
        let ci = match found {
            Some(ci) => ci,
            None => {
                return Err(DatastoreError::NoSuchBucket(crate::text::i64_string(bucket_id)));
            },
        };
        proof {
            assert(cache_has_bucket(self.cache_view(), bucket_id as int));
        }
        let ghost epred = |e: EventRowView| e.bucketrow != bucket_id as int;
        let ghost oldcache = self.cache_view();
        let ghost oldrows = store.buckets_view();
        let ghost oldevents = store.events_view();
        let m = store.events.len();
        let mut kept: Vec<EventRow> = Vec::new();
        proof {
            crate::lemmas::lemma_filter_empty(oldevents.take(0), epred);
            assert(oldevents.take(0) =~= Seq::<EventRowView>::empty());
            assert(kept@.map_values(|e: EventRow| e@) =~= oldevents.take(0).filter(epred));
        }
        let mut j: usize = 0;
        while j < m
            invariant
                j <= m,
                kept@.map_values(|e: EventRow| e@) == oldevents.take(j as int).filter(epred),
            decreases m - j,
        {
            let ghost pre = kept@;
            proof {
                assert(oldevents[j as int] == store.events@[j as int]@);
                assert(oldevents.take(j as int + 1) =~= oldevents.take(j as int).push(
                    oldevents[j as int],
                ));
                crate::lemmas::lemma_filter_push(oldevents.take(j as int), epred, oldevents[j as int]);
            }
            let ev = &store.events[j];
            if ev.bucketrow != bucket_id {
                let kept_row = ev.clone();
                kept.push(kept_row);
                proof {
                    assert(epred(oldevents[j as int]));
                    assert(kept@.map_values(|e: EventRow| e@) =~= pre.map_values(
                        |e: EventRow| e@,
                    ).push(oldevents[j as int]));
                }
            } else {
                proof {
                    assert(!epred(oldevents[j as int]));
                }
            }
            j = j + 1;
        }
        proof {
            assert(oldevents.take(m as int) =~= oldevents);
        }
        store.events = kept;
        store.buckets.remove(ci);
        self.buckets_cache.remove(ci);
        proof {
            let newrows = store.buckets_view();
            let newcache = self.cache_view();
            let newevents = store.events_view();
            old(store).buckets@.remove_ensures(ci as int);
            assert forall|k: int| 0 <= k < newrows.len() implies #[trigger] newrows[k]
                == oldrows.remove(ci as int)[k] by {
                oldrows.remove_ensures(ci as int);
                if k < ci as int {
                    assert(store.buckets@[k] == old(store).buckets@[k]);
                } else {
                    assert(store.buckets@[k] == old(store).buckets@[k + 1]);
                }
            }
            oldrows.remove_ensures(ci as int);
            assert(newrows =~= oldrows.remove(ci as int));
            old(self).buckets_cache@.remove_ensures(ci as int);
            assert forall|k: int| 0 <= k < newcache.len() implies #[trigger] newcache[k]
                == oldcache.remove(ci as int)[k] by {
                oldcache.remove_ensures(ci as int);
                if k < ci as int {
                    assert(self.buckets_cache@[k] == old(self).buckets_cache@[k]);
                } else {
                    assert(self.buckets_cache@[k] == old(self).buckets_cache@[k + 1]);
                }
            }
            oldcache.remove_ensures(ci as int);
            assert(newcache =~= oldcache.remove(ci as int));
            // Every surviving event row occurs among the old rows.
            crate::lemmas::lemma_filter_elements(oldevents, epred);
            // The removed row is the one carrying the deleted id.
            assert(oldrows[ci as int].id == bucket_id as int);
            // Bucket table: uniqueness and bounds through the index shift.
            assert forall|i: int, k: int| 0 <= i < k < newrows.len() implies (
            #[trigger] newrows[i]).id != (#[trigger] newrows[k]).id && !(newrows[i].user_id
                == newrows[k].user_id && newrows[i]._type == newrows[k]._type) by {
                let oi = if i < ci as int {
                    i
                } else {
                    i + 1
                };
                let ok = if k < ci as int {
                    k
                } else {
                    k + 1
                };
                assert(newrows[i] == oldrows[oi]);
                assert(newrows[k] == oldrows[ok]);
            }
            assert forall|i: int| 0 <= i < newrows.len() implies 1 <= (#[trigger] newrows[i]).id
                < store.next_bucket_id by {
                let oi = if i < ci as int {
                    i
                } else {
                    i + 1
                };
                assert(newrows[i] == oldrows[oi]);
            }
            // Event table conditions carry over from containment in the old rows.
            assert forall|i: int| 0 <= i < newevents.len() implies oldevents.contains(
                #[trigger] newevents[i],
            ) && epred(newevents[i]) by {}
            crate::lemmas::lemma_filter_distinct_by(
                oldevents,
                epred,
                |e: EventRowView| e.id,
            );
            assert forall|i: int, k: int| 0 <= i < k < newevents.len() implies (
            #[trigger] newevents[i]).id != (#[trigger] newevents[k]).id by {}
            assert forall|i: int| 0 <= i < newevents.len() implies (
            #[trigger] newevents[i]).starttime_ns <= newevents[i].endtime_ns
                && newevents[i].endtime_ns - newevents[i].starttime_ns <= i64::MAX
                && newevents[i].id < store.next_event_id by {
                let k = choose|k: int|
                    0 <= k < oldevents.len() && oldevents[k] == newevents[i];
                assert(oldevents[k].starttime_ns <= oldevents[k].endtime_ns);
                assert(oldevents[k].endtime_ns - oldevents[k].starttime_ns <= i64::MAX);
            }
            // Surviving events still reference surviving buckets.
            assert forall|i: int| 0 <= i < newevents.len() implies crate::store::buckets_have_id(
                newrows,
                (#[trigger] newevents[i]).bucketrow,
            ) by {
                let k = choose|k: int|
                    0 <= k < oldevents.len() && oldevents[k] == newevents[i];
                assert(crate::store::buckets_have_id(oldrows, oldevents[k].bucketrow));
                let bi = choose|bi: int|
                    0 <= bi < oldrows.len() && (#[trigger] oldrows[bi]).id
                        == oldevents[k].bucketrow;
                assert(bi != ci as int);
                let ni = if bi < ci as int {
                    bi
                } else {
                    bi - 1
                };
                assert(newrows[ni] == oldrows[bi]);
            }
            // The cache still mirrors the table and still bounds the events.
            assert forall|i: int| 0 <= i < newcache.len() implies cache_entry_matches_row(
                #[trigger] newcache[i],
                newrows[i],
            ) by {
                let oi = if i < ci as int {
                    i
                } else {
                    i + 1
                };
                assert(newcache[i] == oldcache[oi]);
                assert(newrows[i] == oldrows[oi]);
            }
            assert forall|i: int| 0 <= i < newcache.len() implies metadata_bounds(
                (#[trigger] newcache[i]).metadata,
                newevents,
                newcache[i].bid,
            ) by {
                let oi = if i < ci as int {
                    i
                } else {
                    i + 1
                };
                assert(newcache[i] == oldcache[oi]);
                assert(metadata_bounds(oldcache[oi].metadata, oldevents, oldcache[oi].bid));
                assert forall|j2: int|
                    0 <= j2 < newevents.len() && (#[trigger] newevents[j2]).bucketrow
                        == newcache[i].bid implies newcache[i].metadata.start is Some
                    && newcache[i].metadata.start->0 <= newevents[j2].starttime_ns
                    && newcache[i].metadata.end is Some && newevents[j2].endtime_ns
                    <= newcache[i].metadata.end->0 by {
                    let k = choose|k: int|
                        0 <= k < oldevents.len() && oldevents[k] == newevents[j2];
                }
            }
        }
        Ok(())
    }
    /// Create a bucket with an explicit creation stamp for an absent
    /// `created` field.  Creation is idempotent by identity: a bucket with
    /// the same owner and type already in the store only reports its id.
    /// Inline events of the request are inserted right after the bucket.
    #[verifier::loop_isolation(false)]
    pub fn create_bucket_at(&mut self, store: &mut Store, bucket: Bucket, now_ns: i64) -> (r:
        Result<i64, DatastoreError>)
        requires
            old(self).wf(*old(store)),
            old(store).spec_version() == 5,
        ensures
            final(self).wf(*final(store)),
            final(self).first_init == old(self).first_init,
            final(self).db_version == old(self).db_version,
            final(store).spec_version() == old(store).spec_version(),
            bucket_identity_exists(
                old(store).buckets_view(),
                bucket@.user_id,
                bucket@._type,
            ) ==> *final(store) == *old(store) && *final(self) == *old(self) && (r matches Ok(id)
                && exists|i: int|
                0 <= i < old(store).buckets_view().len() && (#[trigger] old(store).buckets_view()[i]).user_id == bucket@.user_id && old(store).buckets_view()[i]._type
                    == bucket@._type && old(store).buckets_view()[i].id == id as int),
            !bucket_identity_exists(old(store).buckets_view(), bucket@.user_id, bucket@._type)
                && old(store).next_bucket_id == i64::MAX ==> *final(store) == *old(store)
                && *final(self) == *old(self) && (r matches Err(e) && e is InternalError),
            !bucket_identity_exists(old(store).buckets_view(), bucket@.user_id, bucket@._type)
                && old(store).next_bucket_id < i64::MAX ==> ({
                let bid = old(store).next_bucket_id as int;
                let stamp = spec_created_ns(bucket@, now_ns as int);
                let entry = created_bucket_entry(bucket@, bid, stamp);
                &&& final(store).buckets_view() == old(store).buckets_view().push(
                    created_bucket_row(bucket@, bid, stamp),
                )
                &&& final(store).next_bucket_id == old(store).next_bucket_id + 1
                &&& *final(store) == (Store {
                    buckets: final(store).buckets,
                    events: final(store).events,
                    next_bucket_id: final(store).next_bucket_id,
                    next_event_id: final(store).next_event_id,
                    ..*old(store)
                })
                &&& match bucket@.events {
                    None => {
                        &&& r matches Ok(id) && id as int == bid
                        &&& final(store).events_view() == old(store).events_view()
                        &&& final(store).next_event_id == old(store).next_event_id
                        &&& final(self).cache_view() == old(self).cache_view().push(entry)
                    },
                    Some(evs) => {
                        let stf = spec_insert_fold(
                            EventInsertState {
                                table: old(store).events_view(),
                                next_id: old(store).next_event_id as int,
                                md: entry.metadata,
                                out: Seq::<EventView>::empty(),
                                failed: false,
                                err: Seq::<char>::empty(),
                            },
                            evs,
                            bid,
                        );
                        &&& (r is Ok) == !stf.failed
                        &&& (r matches Ok(id) ==> id as int == bid)
                        &&& (r matches Err(e) ==> (e matches DatastoreError::InternalError(m)
                            && m@ == stf.err))
                        &&& final(store).events_view() == stf.table
                        &&& final(store).next_event_id as int == stf.next_id
                        &&& final(self).cache_view() == old(self).cache_view().push(
                            (BucketView { metadata: stf.md, ..entry }),
                        )
                    },
                }
            }),
    {
        let created_ns: i64 = match bucket.created {
            Some(c) => c,
            None => now_ns,
        };
        let probe = bucket.clone();
        let previous_bucket_id = match self.get_bucket_from_database(store, probe) {
            Ok(id) => id,
            Err(_) => -1i64,
        };
        if previous_bucket_id != -1 {
            proof {
                if !bucket_identity_exists(
                    store.buckets_view(),
                    bucket@.user_id,
                    bucket@._type,
                ) {
                    assert(false);
                }
            }
            return Ok(previous_bucket_id);
        }
        proof {
            if bucket_identity_exists(store.buckets_view(), bucket@.user_id, bucket@._type) {
                let i = choose|i: int|
                    0 <= i < store.buckets_view().len() && (#[trigger] store.buckets_view()[i]).user_id
                        == bucket@.user_id && store.buckets_view()[i]._type == bucket@._type;
                assert(store.buckets_view()[i].id >= 1);
                assert(false);
            }
        }
        if store.next_bucket_id == i64::MAX {
            return Err(
                DatastoreError::InternalError(
                    "Failed to execute create_bucket: bucket id space exhausted".to_owned(),
                ),
            );
        }
        let rowid = store.next_bucket_id;
        let row = BucketRow {
            id: rowid,
            _type: bucket._type.clone(),
            created_ns,
            data: bucket.data.clone(),
            user_id: bucket.user_id,
        };
        let ghost prerows = store.buckets_view();
        let ghost preevents = store.events_view();
        let ghost precache = self.cache_view();
        store.buckets.push(row);
        store.next_bucket_id = rowid + 1;
        let mut cached = bucket.clone();
        let events_opt = cached.events;
        cached.events = None;
        cached.bid = rowid;
        cached.created = Some(created_ns);
        // Cached bounds are derived, never taken from the request.
        cached.metadata = BucketMetadata { start: None, end: None };
        self.buckets_cache.push(cached);
        proof {
            assert(store.buckets_view() =~= prerows.push(
                created_bucket_row(bucket@, rowid as int, created_ns as int),
            ));
            assert(self.cache_view() =~= precache.push(
                created_bucket_entry(bucket@, rowid as int, created_ns as int),
            ));
            let newrows = store.buckets_view();
            let newcache = self.cache_view();
            assert forall|i: int, j: int| 0 <= i < j < newrows.len() implies (
            #[trigger] newrows[i]).id != (#[trigger] newrows[j]).id && !(newrows[i].user_id
                == newrows[j].user_id && newrows[i]._type == newrows[j]._type) by {
                if j < prerows.len() {
                    assert(newrows[i] == prerows[i]);
                    assert(newrows[j] == prerows[j]);
                } else {
                    assert(newrows[i] == prerows[i]);
                    assert(newrows[j] == created_bucket_row(
                        bucket@,
                        rowid as int,
                        created_ns as int,
                    ));
                }
            }
            assert forall|i: int| 0 <= i < newrows.len() implies 1 <= (#[trigger] newrows[i]).id
                < store.next_bucket_id by {
                if i < prerows.len() {
                    assert(newrows[i] == prerows[i]);
                } else {
                    assert(newrows[i] == created_bucket_row(
                        bucket@,
                        rowid as int,
                        created_ns as int,
                    ));
                }
            }
            assert forall|j: int| 0 <= j < store.events_view().len() implies crate::store::buckets_have_id(
                newrows,
                (#[trigger] store.events_view()[j]).bucketrow,
            ) by {
                assert(crate::store::buckets_have_id(prerows, store.events_view()[j].bucketrow));
                let bi = choose|bi: int|
                    0 <= bi < prerows.len() && (#[trigger] prerows[bi]).id
                        == store.events_view()[j].bucketrow;
                assert(newrows[bi] == prerows[bi]);
            }
            assert forall|i: int| 0 <= i < newcache.len() implies cache_entry_matches_row(
                #[trigger] newcache[i],
                newrows[i],
            ) && metadata_bounds(newcache[i].metadata, store.events_view(), newcache[i].bid) by {
                if i < precache.len() {
                    assert(newcache[i] == precache[i]);
                    assert(newrows[i] == prerows[i]);
                } else {
                    assert forall|j: int|
                        0 <= j < store.events_view().len() && (#[trigger] store.events_view()[j]).bucketrow
                            == newcache[i].bid implies false by {
                        assert(crate::store::buckets_have_id(
                            prerows,
                            store.events_view()[j].bucketrow,
                        ));
                        let bi = choose|bi: int|
                            0 <= bi < prerows.len() && (#[trigger] prerows[bi]).id
                                == store.events_view()[j].bucketrow;
                        assert(prerows[bi].id < rowid as int);
                    }
                }
            }
            assert(self.wf(*store));
        }
        match events_opt {
            Some(events) => {
                let ghost preself = *self;
                let ghost prestore = *store;
                let res = self.insert_events(store, rowid, events);
                proof {
                    assert(cache_has_bucket(preself.cache_view(), rowid as int)) by {
                        assert(preself.cache_view()[precache.len() as int].bid == rowid as int);
                    }
                    let wci = choose|wci: int|
                        0 <= wci < preself.cache_view().len() && (
                        #[trigger] preself.cache_view()[wci]).bid == rowid as int && ({
                            let stf = spec_insert_fold(
                                insert_start_state(preself, prestore, wci),
                                events@.map_values(|e: Event| e@),
                                rowid as int,
                            );
                            &&& (res is Ok) == !stf.failed
                            &&& store.events_view() == stf.table
                            &&& store.next_event_id as int == stf.next_id
                            &&& self.cache_view() == preself.cache_view().update(
                                wci,
                                (BucketView {
                                    metadata: stf.md,
                                    ..preself.cache_view()[wci]
                                }),
                            )
                            &&& (res matches Ok(out) ==> out@.map_values(|e: Event| e@)
                                == stf.out)
                            &&& (res matches Err(e) ==> e is InternalError)
                        });
                    if wci != precache.len() as int {
                        assert(preself.cache_view()[wci] == precache[wci]);
                        assert(precache[wci].bid == prerows[wci].id);
                        assert(prerows[wci].id < rowid as int);
                        assert(false);
                    }
                    assert(self.cache_view() =~= precache.push(
                        (BucketView {
                            metadata: spec_insert_fold(
                                insert_start_state(preself, prestore, wci),
                                events@.map_values(|e: Event| e@),
                                rowid as int,
                            ).md,
                            ..created_bucket_entry(bucket@, rowid as int, created_ns as int)
                        }),
                    ));
                }
                match res {
                    Ok(_) => Ok(rowid),
                    Err(e) => Err(e),
                }
            },
            None => Ok(rowid),
        }
    }

    /// Create a bucket, stamping an absent `created` field with the wall
    /// clock.
    pub fn create_bucket(&mut self, store: &mut Store, bucket: Bucket) -> (r: Result<
        i64,
        DatastoreError,
    >)
        requires
            old(self).wf(*old(store)),
            old(store).spec_version() == 5,
        ensures
            create_bucket_ensures(
                *old(self),
                *old(store),
                *final(self),
                *final(store),
                bucket@,
                r,
            ),
    {
        let now_ns = crate::clock::now_timestamp_ns();
        let r = self.create_bucket_at(store, bucket, now_ns);
        proof {
            if !bucket_identity_exists(old(store).buckets_view(), bucket@.user_id, bucket@._type)
                && old(store).next_bucket_id < i64::MAX {
                let stamp = spec_created_ns(bucket@, now_ns as int);
                assert(created_bucket_row(
                    bucket@,
                    old(store).next_bucket_id as int,
                    stamp,
                ) == created_bucket_row(bucket@, old(store).next_bucket_id as int, stamp));
            }
        }
        r
    }

    /// Stretch a bucket's cached bounds to cover one event, writing the
    /// bucket back into the cache when either bound moved.
    fn update_endtime(&mut self, bucket: &mut Bucket, event: &Event)
        requires
            event.wf(),
        ensures
            final(bucket)@ == updated_bucket(old(bucket)@, event@),
            final(self).first_init == old(self).first_init,
            final(self).db_version == old(self).db_version,
            final(bucket)@.metadata == old(bucket)@.metadata ==> *final(self) == *old(self),
            final(bucket)@.metadata != old(bucket)@.metadata && cache_has_bucket(
                old(self).cache_view(),
                old(bucket)@.bid,
            ) ==> exists|ci: int|
                0 <= ci < old(self).cache_view().len() && (#[trigger] old(self).cache_view()[ci]).bid == old(bucket)@.bid && final(self).cache_view() == old(self).cache_view().update(ci, final(bucket)@),
            final(bucket)@.metadata != old(bucket)@.metadata && !cache_has_bucket(
                old(self).cache_view(),
                old(bucket)@.bid,
            ) ==> final(self).cache_view() == old(self).cache_view().push(final(bucket)@),
    {
        let mut update = false;
        match bucket.metadata.start {
            None => {
                bucket.metadata.start = Some(event.timestamp_ns);
                update = true;
            },
            Some(current_start) => {
                if current_start > event.timestamp_ns {
                    bucket.metadata.start = Some(event.timestamp_ns);
                    update = true;
                }
            },
        }
        let event_endtime = event.calculate_endtime();
        match bucket.metadata.end {
            None => {
                bucket.metadata.end = Some(event_endtime);
                update = true;
            },
            Some(current_end) => {
                if current_end < event_endtime {
                    bucket.metadata.end = Some(event_endtime);
                    update = true;
                }
            },
        }
        proof {
            assert(bucket@ == updated_bucket(old(bucket)@, event@));
            assert(update == (bucket@.metadata != old(bucket)@.metadata));
        }
        if update {
            let found = self.find_bucket_index(bucket.bid);
            match found {
                Some(ci) => {
                    let ghost precache = self.cache_view();
                    let written = bucket.clone();
                    self.buckets_cache[ci] = written;
                    proof {
                        assert(self.cache_view() =~= precache.update(ci as int, bucket@));
                    }
                },
                None => {
                    let ghost precache = self.cache_view();
                    let written = bucket.clone();
                    self.buckets_cache.push(written);
                    proof {
                        assert(self.cache_view() =~= precache.push(bucket@));
                    }
                },
            }
        }
    }

    /// Insert a batch of events into a bucket: each event takes its own id
    /// or a fresh one, displaces any row already carrying that id, and
    /// stretches the bucket's cached bounds; events inserted before a
    /// failure stay inserted.
    #[verifier::loop_isolation(false)]
    pub fn insert_events(&mut self, store: &mut Store, bucket_id: i64, events: Vec<Event>) -> (r:
        Result<Vec<Event>, DatastoreError>)
        requires
            old(self).wf(*old(store)),
        ensures
            insert_events_ensures(
                *old(self),
                *old(store),
                *final(self),
                *final(store),
                bucket_id as int,
                events@.map_values(|e: Event| e@),
                r,
            ),
    {
        let found = self.find_bucket_index(bucket_id);
        let ci = match found {
            Some(ci) => ci,
            None => {
                return Err(DatastoreError::NoSuchBucket(crate::text::i64_string(bucket_id)));
            },
        };
        let mut bucket = self.buckets_cache[ci].clone();
        let ghost evs = events@.map_values(|e: Event| e@);
        let ghost st0 = insert_start_state(*old(self), *old(store), ci as int);
        let ghost oldentry = old(self).cache_view()[ci as int];
        proof {
            assert(self.cache_view()[ci as int] == self.buckets_cache@[ci as int]@);
            assert(bucket@ == oldentry);
            assert(bucket@.events is None);
            assert(self.cache_view() =~= old(self).cache_view().update(ci as int, bucket@));
        }
        let n = events.len();
        let mut out: Vec<Event> = Vec::new();
        let mut k: usize = 0;
        while k < n
            invariant
                k <= n,
                bucket.bid == bucket_id,
                ({
                    let st = spec_insert_fold(st0, evs.take(k as int), bucket_id as int);
                    &&& !st.failed
                    &&& store.events_view() == st.table
                    &&& store.next_event_id as int == st.next_id
                    &&& bucket@ == (BucketView { metadata: st.md, ..oldentry })
                    &&& out@.map_values(|e: Event| e@) == st.out
                }),
                self.wf(*store),
                self.cache_view() == old(self).cache_view().update(ci as int, bucket@),
                *store == (Store {
                    events: store.events,
                    next_event_id: store.next_event_id,
                    ..*old(store)
                }),
                self.first_init == old(self).first_init,
                self.db_version == old(self).db_version,
            decreases n - k,
        {
            let ghost st = spec_insert_fold(st0, evs.take(k as int), bucket_id as int);
            proof {
                assert(evs.take(k as int + 1) =~= evs.take(k as int).push(evs[k as int]));
                lemma_insert_fold_push(st0, evs.take(k as int), evs[k as int], bucket_id as int);
                assert(events@[k as int]@ == evs[k as int]);
                assert(self.cache_view()[ci as int] == bucket@);
                assert(metadata_bounds(bucket@.metadata, store.events_view(), bucket@.bid));
                assert(store.buckets_view()[ci as int].id == bucket_id as int);
                assert(crate::store::buckets_have_id(store.buckets_view(), bucket_id as int));
                lemma_insert_step_wf(st, evs[k as int], bucket_id as int, store.buckets_view());
            }
            let ghost st2 = spec_insert_step(st, evs[k as int], bucket_id as int);
            let ev = &events[k];
            if ev.duration_ns < 0 || ev.timestamp_ns > i64::MAX - ev.duration_ns {
                proof {
                    assert(!event_insertable(evs[k as int], st.next_id));
                    assert(st2.failed);
                    lemma_insert_fold_failed(st2, evs.skip(k as int + 1), bucket_id as int);
                    lemma_insert_fold_split(st0, evs, k as int + 1, bucket_id as int);
                }
                return Err(
                    DatastoreError::InternalError(
                        "Failed to convert duration to nanoseconds".to_owned(),
                    ),
                );
            }
            let id: i64 = match ev.id {
                Some(given) => {
                    if given == i64::MAX {
                        proof {
                            assert(!event_insertable(evs[k as int], st.next_id));
                            assert(st2.failed);
                            lemma_insert_fold_failed(st2, evs.skip(k as int + 1), bucket_id as int);
                            lemma_insert_fold_split(st0, evs, k as int + 1, bucket_id as int);
                        }
                        let mut msg = "Failed to insert event with start ".to_owned();
                        msg.append(crate::text::i64_string(ev.timestamp_ns).as_str());
                        msg.append(" ns: event id space exhausted");
                        proof {
                            assert(msg@ == spec_insert_failure_message(
                                evs[k as int],
                                st.next_id,
                            ));
                        }
                        return Err(DatastoreError::InternalError(msg));
                    }
                    remove_event_row(store, given);
                    given
                },
                None => {
                    if store.next_event_id == i64::MAX {
                        proof {
                            assert(!event_insertable(evs[k as int], st.next_id));
                            assert(st2.failed);
                            lemma_insert_fold_failed(st2, evs.skip(k as int + 1), bucket_id as int);
                            lemma_insert_fold_split(st0, evs, k as int + 1, bucket_id as int);
                        }
                        let mut msg = "Failed to insert event with start ".to_owned();
                        msg.append(crate::text::i64_string(ev.timestamp_ns).as_str());
                        msg.append(" ns: event id space exhausted");
                        proof {
                            assert(msg@ == spec_insert_failure_message(
                                evs[k as int],
                                st.next_id,
                            ));
                        }
                        return Err(DatastoreError::InternalError(msg));
                    }
                    let fresh = store.next_event_id;
                    proof {
                        assert forall|x: int| 0 <= x < store.events_view().len() implies (|r:
                        EventRowView| r.id != fresh as int)(#[trigger] store.events_view()[x]) by {
                            assert(store.events_view()[x].id < store.next_event_id);
                        }
                        crate::lemmas::lemma_filter_all_true(
                            store.events_view(),
                            |r: EventRowView| r.id != fresh as int,
                        );
                    }
                    fresh
                },
            };
            let endtime_ns = ev.timestamp_ns + ev.duration_ns;
            let row = EventRow {
                id,
                bucketrow: bucket.bid,
                starttime_ns: ev.timestamp_ns,
                endtime_ns,
                data: ev.data.clone(),
                team_id: ev.team_id,
            };
            let ghost prerows = store.events@;
            store.events.push(row);
            proof {
                assert(store.events_view() =~= prerows.map_values(|r: EventRow| r@).push(
                    event_row_of(evs[k as int], bucket_id as int, id as int),
                ));
            }
            if id >= store.next_event_id {
                store.next_event_id = id + 1;
            }
            let mut ev2 = ev.clone();
            ev2.id = Some(id);
            let ghost precache = self.cache_view();
            let ghost prebucket = bucket@;
            self.update_endtime(&mut bucket, &ev2);
            proof {
                assert(precache[ci as int] == prebucket);
                assert(cache_has_bucket(precache, prebucket.bid));
                if bucket@.metadata != prebucket.metadata {
                    let wci = choose|wci: int|
                        0 <= wci < precache.len() && (#[trigger] precache[wci]).bid
                            == prebucket.bid && self.cache_view() == precache.update(
                            wci,
                            bucket@,
                        );
                    if wci != ci as int {
                        assert(precache[wci] == old(self).cache_view()[wci]);
                        assert(old(self).cache_view()[wci].bid == old(store).buckets_view()[wci].id);
                        assert(old(self).cache_view()[ci as int].bid == old(store).buckets_view()[ci as int].id);
                        assert(false);
                    }
                    assert(self.cache_view() =~= old(self).cache_view().update(
                        ci as int,
                        bucket@,
                    ));
                } else {
                    assert(bucket@ == prebucket);
                    assert(self.cache_view() =~= old(self).cache_view().update(
                        ci as int,
                        bucket@,
                    ));
                }
            }
            out.push(ev2);
            proof {
                assert(out@.map_values(|e: Event| e@) =~= st.out.push(
                    (EventView { id: Some(id as int), ..evs[k as int] }),
                ));
                assert(store.events_view() =~= st2.table);
                assert(bucket@ == (BucketView { metadata: st2.md, ..oldentry }));
            }
            k = k + 1;
        }
        proof {
            assert(evs.take(n as int) =~= evs);
        }
        Ok(out)
    }
}

/// The bucket as it stands after its cached bounds were stretched to cover
/// one event.
pub open spec fn updated_bucket(b: BucketView, ev: EventView) -> BucketView {
    BucketView { metadata: spec_extend_metadata(b.metadata, ev.timestamp_ns, ev.endtime_ns()), ..b }
}

/// The state a batch insert starts from: the store's event table and id
/// counter, the cached bounds of the target bucket, and nothing produced.
pub open spec fn insert_start_state(
    ds: DatastoreInstance,
    store: Store,
    ci: int,
) -> EventInsertState {
    EventInsertState {
        table: store.events_view(),
        next_id: store.next_event_id as int,
        md: ds.cache_view()[ci].metadata,
        out: Seq::<EventView>::empty(),
        failed: false,
        err: Seq::<char>::empty(),
    }
}

/// A failed batch stays exactly as it is through any further events.
pub proof fn lemma_insert_fold_failed(st: EventInsertState, evs: Seq<EventView>, bid: int)
    requires
        st.failed,
    ensures
        spec_insert_fold(st, evs, bid) == st,
    decreases evs.len(),
{
    if evs.len() > 0 {
        lemma_insert_fold_failed(st, evs.skip(1), bid);
    }
}

/// A batch insert decomposes at any point: folding the whole input equals
/// folding a prefix, then the rest.
pub proof fn lemma_insert_fold_split(st: EventInsertState, evs: Seq<EventView>, k: int, bid: int)
    requires
        0 <= k <= evs.len(),
    ensures
        spec_insert_fold(st, evs, bid) == spec_insert_fold(
            spec_insert_fold(st, evs.take(k), bid),
            evs.skip(k),
            bid,
        ),
    decreases k,
{
    if k == 0 {
        assert(evs.take(0) =~= Seq::<EventView>::empty());
        assert(evs.skip(0) =~= evs);
    } else {
        let prefix = evs.take(k);
        assert(prefix.take(k - 1) =~= evs.take(k - 1));
        assert(prefix[k - 1] == evs[k - 1]);
        assert(evs.take(k - 1).push(evs[k - 1]) =~= evs.take(k));
        lemma_insert_fold_split(st, evs, k - 1, bid);
        lemma_insert_fold_push(st, evs.take(k - 1), evs[k - 1], bid);
        lemma_insert_fold_skip_head(
            spec_insert_fold(st, evs.take(k - 1), bid),
            evs,
            k - 1,
            bid,
        );
    }
}

/// Folding from position `k` processes the event at `k`, then the rest.
pub proof fn lemma_insert_fold_skip_head(st: EventInsertState, evs: Seq<EventView>, k: int, bid: int)
    requires
        0 <= k < evs.len(),
    ensures
        spec_insert_fold(st, evs.skip(k), bid) == spec_insert_fold(
            spec_insert_step(st, evs[k], bid),
            evs.skip(k + 1),
            bid,
        ),
{
    assert(evs.skip(k)[0] == evs[k]);
    assert(evs.skip(k).skip(1) =~= evs.skip(k + 1));
}

/// One insert step keeps the event table well formed, keeps every event row
/// referencing a live bucket, keeps the target bucket's bounds covering its
/// events, and touches no other bucket's events.
pub proof fn lemma_insert_step_wf(
    st: EventInsertState,
    ev: EventView,
    bid: int,
    buckets: Seq<BucketRowView>,
)
    requires
        event_table_wf(st.table, st.next_id),
        crate::store::events_reference_buckets(st.table, buckets),
        crate::store::buckets_have_id(buckets, bid),
        metadata_bounds(st.md, st.table, bid),
    ensures
        ({
            let st2 = spec_insert_step(st, ev, bid);
            &&& event_table_wf(st2.table, st2.next_id)
            &&& crate::store::events_reference_buckets(st2.table, buckets)
            &&& metadata_bounds(st2.md, st2.table, bid)
            &&& forall|md2: BucketMetadataView, bid2: int|
                bid2 != bid && #[trigger] metadata_bounds(md2, st.table, bid2) ==> metadata_bounds(
                    md2,
                    st2.table,
                    bid2,
                )
        }),
{
    let st2 = spec_insert_step(st, ev, bid);
    if !st.failed && event_insertable(ev, st.next_id) {
        let id = match ev.id {
            Some(id) => id,
            None => st.next_id,
        };
        let pred = |r: EventRowView| r.id != id;
        let kept = st.table.filter(pred);
        let row = event_row_of(ev, bid, id);
        crate::lemmas::lemma_filter_elements(st.table, pred);
        crate::lemmas::lemma_filter_distinct_by(st.table, pred, |r: EventRowView| r.id);
        assert forall|i: int| 0 <= i < kept.len() implies exists|x: int|
            0 <= x < st.table.len() && st.table[x] == #[trigger] kept[i] by {
            assert(st.table.contains(kept[i]));
        }
        assert(event_table_wf(st2.table, st2.next_id)) by {
            assert forall|i: int, j: int|
                0 <= i < j < st2.table.len() implies (#[trigger] st2.table[i]).id != (
            #[trigger] st2.table[j]).id by {
                if j < kept.len() {
                    assert(st2.table[i] == kept[i]);
                    assert(st2.table[j] == kept[j]);
                } else {
                    assert(st2.table[j] == row);
                    assert(st2.table[i] == kept[i]);
                    assert(pred(kept[i]));
                }
            }
            assert forall|i: int| 0 <= i < st2.table.len() implies (
            #[trigger] st2.table[i]).starttime_ns <= st2.table[i].endtime_ns
                && st2.table[i].endtime_ns - st2.table[i].starttime_ns <= i64::MAX
                && st2.table[i].id < st2.next_id by {
                if i < kept.len() {
                    assert(st2.table[i] == kept[i]);
                    let x = choose|x: int| 0 <= x < st.table.len() && st.table[x] == kept[i];
                    assert(st.table[x].starttime_ns <= st.table[x].endtime_ns);
                    assert(st.table[x].endtime_ns - st.table[x].starttime_ns <= i64::MAX);
                } else {
                    assert(st2.table[i] == row);
                }
            }
        }
        assert(crate::store::events_reference_buckets(st2.table, buckets)) by {
            assert forall|i: int| 0 <= i < st2.table.len() implies crate::store::buckets_have_id(
                buckets,
                (#[trigger] st2.table[i]).bucketrow,
            ) by {
                if i < kept.len() {
                    assert(st2.table[i] == kept[i]);
                    let x = choose|x: int| 0 <= x < st.table.len() && st.table[x] == kept[i];
                    assert(crate::store::buckets_have_id(buckets, st.table[x].bucketrow));
                } else {
                    assert(st2.table[i] == row);
                }
            }
        }
        assert(metadata_bounds(st2.md, st2.table, bid)) by {
            assert forall|j: int|
                0 <= j < st2.table.len() && (#[trigger] st2.table[j]).bucketrow
                    == bid implies st2.md.start is Some && st2.md.start->0
                <= st2.table[j].starttime_ns && st2.md.end is Some && st2.table[j].endtime_ns
                <= st2.md.end->0 by {
                if j < kept.len() {
                    assert(st2.table[j] == kept[j]);
                    let x = choose|x: int| 0 <= x < st.table.len() && st.table[x] == kept[j];
                    assert(st.table[x].bucketrow == bid);
                } else {
                    assert(st2.table[j] == row);
                }
            }
        }
        assert forall|md2: BucketMetadataView, bid2: int|
            bid2 != bid && #[trigger] metadata_bounds(md2, st.table, bid2) implies metadata_bounds(
                md2,
                st2.table,
                bid2,
            ) by {
            assert forall|j: int|
                0 <= j < st2.table.len() && (#[trigger] st2.table[j]).bucketrow
                    == bid2 implies md2.start is Some && md2.start->0 <= st2.table[j].starttime_ns
                && md2.end is Some && st2.table[j].endtime_ns <= md2.end->0 by {
                if j < kept.len() {
                    assert(st2.table[j] == kept[j]);
                    let x = choose|x: int| 0 <= x < st.table.len() && st.table[x] == kept[j];
                    assert(st.table[x].bucketrow == bid2);
                } else {
                    assert(st2.table[j] == row);
                }
            }
        }
    }
}

/// Drop the event row carrying the given id, if any row does; every other
/// part of the store stays as it is.
#[verifier::loop_isolation(false)]
fn remove_event_row(store: &mut Store, id: i64)
    ensures
        final(store).events_view() == old(store).events_view().filter(
            |r: EventRowView| r.id != id as int,
        ),
        *final(store) == (Store { events: final(store).events, ..*old(store) }),
{
    let ghost pred = |r: EventRowView| r.id != id as int;
    let ghost oldevents = old(store).events_view();
    let m = store.events.len();
    let mut kept: Vec<EventRow> = Vec::new();
    proof {
        crate::lemmas::lemma_filter_empty(oldevents.take(0), pred);
        assert(oldevents.take(0) =~= Seq::<EventRowView>::empty());
        assert(kept@.map_values(|e: EventRow| e@) =~= oldevents.take(0).filter(pred));
    }
    let mut j: usize = 0;
    while j < m
        invariant
            j <= m,
            kept@.map_values(|e: EventRow| e@) == oldevents.take(j as int).filter(pred),
        decreases m - j,
    {
        let ghost pre = kept@;
        proof {
            assert(oldevents[j as int] == store.events@[j as int]@);
            assert(oldevents.take(j as int + 1) =~= oldevents.take(j as int).push(
                oldevents[j as int],
            ));
            crate::lemmas::lemma_filter_push(oldevents.take(j as int), pred, oldevents[j as int]);
        }
        let ev = &store.events[j];
        if ev.id != id {
            let kept_row = ev.clone();
            kept.push(kept_row);
            proof {
                assert(pred(oldevents[j as int]));
                assert(kept@.map_values(|e: EventRow| e@) =~= pre.map_values(|e: EventRow| e@).push(
                    oldevents[j as int],
                ));
            }
        } else {
            proof {
                assert(!pred(oldevents[j as int]));
            }
        }
        j = j + 1;
    }
    proof {
        assert(oldevents.take(m as int) =~= oldevents);
    }
    store.events = kept;
}

/// One slot of the per-worker last-heartbeat cache: the most recent event
/// of a bucket, or a hole left by an invalidation.
pub struct LastHeartbeat {
    pub bucket_id: i64,
    pub event: Option<Event>,
}

/// The mathematical content of a last-heartbeat slot.
pub ghost struct LastHeartbeatView {
    pub bucket_id: int,
    pub event: Option<EventView>,
}

impl View for LastHeartbeat {
    type V = LastHeartbeatView;

    open spec fn view(&self) -> LastHeartbeatView {
        LastHeartbeatView {
            bucket_id: self.bucket_id as int,
            event: match self.event {
                Some(ev) => Some(ev@),
                None => None,
            },
        }
    }
}

/// The last-heartbeat cache holds at most one slot per bucket.
pub open spec fn hb_unique(entries: Seq<LastHeartbeatView>) -> bool {
    forall|i: int, j: int|
        0 <= i < j < entries.len() ==> (#[trigger] entries[i]).bucket_id
            != (#[trigger] entries[j]).bucket_id
}

/// Every event the last-heartbeat cache holds is representable.
pub open spec fn hb_cache_wf(entries: Seq<LastHeartbeatView>) -> bool {
    forall|i: int|
        0 <= i < entries.len() ==> ((#[trigger] entries[i]).event matches Some(ev) ==> 0
            <= ev.duration_ns && ev.endtime_ns() <= i64::MAX)
}

/// Some slot of the last-heartbeat cache belongs to the bucket.
pub open spec fn hb_found(entries: Seq<LastHeartbeatView>, bid: int) -> bool {
    exists|i: int| 0 <= i < entries.len() && (#[trigger] entries[i]).bucket_id == bid
}

/// The view of a whole last-heartbeat cache.
pub open spec fn hb_entries_view(entries: Seq<LastHeartbeat>) -> Seq<LastHeartbeatView> {
    entries.map_values(|s: LastHeartbeat| s@)
}

/// The bucket's slot content, when the cache holds one.
pub open spec fn hb_slot_of(entries: Seq<LastHeartbeatView>, bid: int) -> Option<
    Option<EventView>,
> {
    if hb_found(entries, bid) {
        let i = choose|i: int| 0 <= i < entries.len() && (#[trigger] entries[i]).bucket_id == bid;
        Some(entries[i].event)
    } else {
        None
    }
}

/// The cache with the bucket's slot taken out, where it held one.
pub open spec fn hb_removed(
    entries: Seq<LastHeartbeatView>,
    bid: int,
    post: Seq<LastHeartbeatView>,
) -> bool {
    if hb_found(entries, bid) {
        exists|p: int|
            0 <= p < entries.len() && (#[trigger] entries[p]).bucket_id == bid && post
                == entries.remove(p)
    } else {
        post == entries
    }
}

/// The event a bucket's last-heartbeat slot holds, where the cache holds a
/// filled slot for it.
pub open spec fn hb_slot_event(entries: Seq<LastHeartbeatView>, bid: int) -> Option<EventView> {
    match hb_slot_of(entries, bid) {
        Some(slot) => slot,
        None => None,
    }
}

/// What recording a heartbeat against a resolved last event does to the
/// store, and what it answers: a merge rewrites the bucket's last rows in
/// place and answers the merged event; anything else inserts the heartbeat
/// as a new event and answers it as sent.
pub open spec fn merge_or_insert_outcome(
    pre_self: DatastoreInstance,
    pre_store: Store,
    post_store: Store,
    bid: int,
    hb: EventView,
    pulse: int,
    le: EventView,
    r: Result<Event, DatastoreError>,
) -> bool {
    if spec_merges(le, hb, pulse) {
        &&& r matches Ok(ev) && ev@ == spec_merged(le, hb)
        &&& replace_effect(pre_store, post_store, bid, spec_merged(le, hb))
    } else {
        exists|ci: int|
            0 <= ci < pre_self.cache_view().len() && (#[trigger] pre_self.cache_view()[ci]).bid
                == bid && ({
                let st1 = spec_insert_step(insert_start_state(pre_self, pre_store, ci), hb, bid);
                &&& (r is Ok) == !st1.failed
                &&& (r matches Err(e) ==> (e matches DatastoreError::InternalError(m) && m@
                    == st1.err))
                &&& post_store.events_view() == st1.table
                &&& post_store.next_event_id as int == st1.next_id
                &&& (r matches Ok(ev) ==> ev@ == hb)
            })
    }
}

/// A stored row of the bucket that a whole-range query reports first: it
/// overlaps the epoch-to-end-of-time window and no such row starts later.
pub open spec fn is_latest_stored_row(
    events: Seq<EventRowView>,
    bid: int,
    rv: EventRowView,
) -> bool {
    let selected = window_matches(events, bid, 0, i64::MAX as int, None);
    &&& selected.contains(rv)
    &&& forall|k: int|
        0 <= k < selected.len() ==> (#[trigger] selected[k]).starttime_ns <= rv.starttime_ns
}

/// What rewriting a bucket's last events does to a store: every row of the
/// bucket tied for the greatest end time takes the event's span and
/// payload; everything else stays.
pub open spec fn replace_effect(pre: Store, post: Store, bid: int, ev: EventView) -> bool {
    &&& post == (Store { events: post.events, ..pre })
    &&& post.events_view().len() == pre.events_view().len()
    &&& forall|j: int|
        0 <= j < pre.events_view().len() ==> #[trigger] post.events_view()[j] == (if pre.events_view()[j].bucketrow
            == bid && row_has_max_end(pre.events_view(), bid, j) {
            replaced_row(pre.events_view()[j], ev)
        } else {
            pre.events_view()[j]
        })
}

/// The user carrying an id, where the table holds one.
pub open spec fn spec_user_by_id(users: Seq<UserView>, id: int) -> Option<UserView> {
    if exists|i: int| 0 <= i < users.len() && (#[trigger] users[i]).id == id {
        let i = choose|i: int| 0 <= i < users.len() && (#[trigger] users[i]).id == id;
        Some(users[i])
    } else {
        None
    }
}

/// The team carrying an id, where the table holds one.
pub open spec fn spec_team_by_id(teams: Seq<TeamView>, id: int) -> Option<TeamView> {
    if exists|i: int| 0 <= i < teams.len() && (#[trigger] teams[i]).id == id {
        let i = choose|i: int| 0 <= i < teams.len() && (#[trigger] teams[i]).id == id;
        Some(teams[i])
    } else {
        None
    }
}

/// The joined row a membership reads back as, given its user.
pub open spec fn member_of(tu: TeamUserRowView, u: UserView) -> MemberView {
    MemberView { id: tu.id, user_id: u.id, name: u.name, lastname: u.lastname, email: u.email }
}

/// The member-side listing a membership's team reads back as.
pub open spec fn team_listing_of(t: TeamView) -> TeamUserModelView {
    TeamUserModelView { id: t.id, name: t.name, description: t.description }
}

/// A key of the settings namespace: one starting with `settings.`.
pub open spec fn is_settings_key(key: Seq<char>) -> bool {
    key.len() >= 9 && key.subrange(0, 9) == "settings."@
}

/// Whether a key starts with the settings prefix.
fn has_settings_prefix(key: &str) -> (r: bool)
    ensures
        r == is_settings_key(key@),
{
    let prefix = "settings.";
    proof {
        reveal_strlit("settings.");
    }
    let klen = key.unicode_len();
    if klen < 9 {
        return false;
    }
    let mut i: usize = 0;
    while i < 9
        invariant
            i <= 9,
            klen == key@.len(),
            klen >= 9,
            prefix@ == "settings."@,
            prefix@.len() == 9,
            forall|k: int| 0 <= k < i ==> key@[k] == prefix@[k],
        decreases 9 - i,
    {
        if key.get_char(i) != prefix.get_char(i) {
            proof {
                assert(key@.subrange(0, 9) != "settings."@) by {
                    if key@.subrange(0, 9) == "settings."@ {
                        assert(key@.subrange(0, 9)[i as int] == key@[i as int]);
                        assert(false);
                    }
                }
            }
            return false;
        }
        i = i + 1;
    }
    proof {
        assert(key@.subrange(0, 9) =~= "settings."@);
    }
    true
}

/// Whether a row ends no earlier than every row of its bucket: the rows a
/// heartbeat replacement rewrites.
pub open spec fn row_has_max_end(rows: Seq<EventRowView>, bid: int, j: int) -> bool {
    &&& rows[j].bucketrow == bid
    &&& forall|k: int|
        0 <= k < rows.len() && (#[trigger] rows[k]).bucketrow == bid ==> rows[k].endtime_ns
            <= rows[j].endtime_ns
}

/// A row rewritten to an event's span and payload, keeping its id and tag.
pub open spec fn replaced_row(r: EventRowView, ev: EventView) -> EventRowView {
    EventRowView {
        starttime_ns: ev.timestamp_ns,
        endtime_ns: ev.timestamp_ns + ev.duration_ns,
        data: ev.data,
        ..r
    }
}

/// The refusal a version mismatch gets: it names the stored version and
/// the supported one.
pub open spec fn version_mismatch_message(v: int) -> Seq<char> {
    "Tried to open a database with an incompatible database version! Database has version "@
        + crate::text::spec_i64_string(v) + " while the supported version is "@
        + crate::text::spec_i64_string(5)
}

/// The creation stamp a bucket request settles on: its own, or the clock's.
pub open spec fn spec_created_ns(b: BucketView, now_ns: int) -> int {
    match b.created {
        Some(c) => c,
        None => now_ns,
    }
}

/// The row a fresh bucket is persisted as.
pub open spec fn created_bucket_row(b: BucketView, bid: int, created_ns: int) -> BucketRowView {
    BucketRowView {
        id: bid,
        _type: b._type,
        created_ns: created_ns,
        data: b.data,
        user_id: b.user_id,
    }
}

/// The cache entry a fresh bucket gets: the request, its id and stamp
/// settled, with no inline events and with empty derived bounds, whatever
/// bounds the request claimed.
pub open spec fn created_bucket_entry(b: BucketView, bid: int, created_ns: int) -> BucketView {
    BucketView {
        bid: bid,
        created: Some(created_ns),
        events: None,
        metadata: BucketMetadataView { start: None, end: None },
        ..b
    }
}

/// The event a stored row reads back as: unclipped, with the stored team
/// tag reported as one.
pub open spec fn event_of_row(r: EventRowView) -> EventView {
    EventView {
        id: Some(r.id),
        timestamp_ns: r.starttime_ns,
        duration_ns: r.endtime_ns - r.starttime_ns,
        data: r.data,
        team_id: 1,
    }
}

/// An optional team tag, as a mathematical value.
pub open spec fn opt_team_view(team: Option<i32>) -> Option<int> {
    match team {
        Some(t) => Some(t as int),
        None => None,
    }
}

/// The start of a query window; an absent bound reads as the epoch.
pub open spec fn spec_window_start(starttime_opt: Option<i64>) -> int {
    match starttime_opt {
        Some(s) => s as int,
        None => 0,
    }
}

/// The end of a query window; an absent bound reads as the end of time.
pub open spec fn spec_window_end(endtime_opt: Option<i64>) -> int {
    match endtime_opt {
        Some(e) => e as int,
        None => i64::MAX as int,
    }
}

/// The rows one window query selects: the bucket's rows overlapping the
/// window, and where a team tag is given, carrying that tag.
pub open spec fn window_pred(bid: int, s: int, e: int, team: Option<int>) -> spec_fn(
    EventRowView,
) -> bool {
    |r: EventRowView|
        r.bucketrow == bid && r.endtime_ns >= s && r.starttime_ns <= e && (team matches Some(t)
            ==> r.team_id == t)
}

/// The selected rows of a window query, in table order.
pub open spec fn window_matches(
    events: Seq<EventRowView>,
    bid: int,
    s: int,
    e: int,
    team: Option<int>,
) -> Seq<EventRowView> {
    events.filter(window_pred(bid, s, e, team))
}

/// Rows ordered by start time, newest first.
pub open spec fn sorted_desc(rows: Seq<EventRowView>) -> bool {
    forall|i: int, j: int|
        0 <= i < j < rows.len() ==> (#[trigger] rows[i]).starttime_ns
            >= (#[trigger] rows[j]).starttime_ns
}

/// A selected row reported against the query window: its start and end
/// truncated to the window, and the team tag reported as one.
pub open spec fn clip_row(r: EventRowView, s: int, e: int) -> EventView {
    let cs = if r.starttime_ns < s {
        s
    } else {
        r.starttime_ns
    };
    let ce = if r.endtime_ns > e {
        e
    } else {
        r.endtime_ns
    };
    EventView { id: Some(r.id), timestamp_ns: cs, duration_ns: ce - cs, data: r.data, team_id: 1 }
}

/// The clipping of one row against a window, as a function value.
pub open spec fn clip_mapper(s: int, e: int) -> spec_fn(EventRowView) -> EventView {
    |r: EventRowView| clip_row(r, s, e)
}

/// How many rows a query hands back: all selected rows, capped by the limit.
pub open spec fn query_limit(limit: Option<u64>, n: int) -> int {
    match limit {
        Some(l) => if (l as int) < n {
            l as int
        } else {
            n
        },
        None => n,
    }
}

/// What a window query returns: as many events as the limit leaves of the
/// selected rows ordered newest first, each clipped to the window, so that
/// no reported event starts before the window or ends past it.
pub open spec fn events_query_post(
    events: Seq<EventRowView>,
    bid: int,
    s: int,
    e: int,
    limit: Option<u64>,
    team: Option<int>,
    out: Seq<EventView>,
) -> bool {
    let selected = window_matches(events, bid, s, e, team);
    let k = query_limit(limit, selected.len() as int);
    &&& out.len() == k
    &&& exists|perm: Seq<EventRowView>|
        #![auto]
        perm.to_multiset() == selected.to_multiset() && sorted_desc(perm) && out == perm.take(
            k,
        ).map_values(clip_mapper(s, e))
    &&& forall|i: int|
        0 <= i < out.len() ==> s <= (#[trigger] out[i]).timestamp_ns && 0 <= out[i].duration_ns
            && out[i].timestamp_ns + out[i].duration_ns <= e
    &&& forall|i: int, j: int|
        0 <= i < j < out.len() ==> (#[trigger] out[i]).timestamp_ns
            >= (#[trigger] out[j]).timestamp_ns
}

/// Run one window query against the event table: select the bucket's rows
/// overlapping the window, order them newest first, cap them at the limit,
/// and clip each to the window.
#[verifier::loop_isolation(false)]
fn collect_window_events(
    store: &Store,
    bucket_id: i64,
    starttime_ns: i64,
    endtime_ns: i64,
    limit_opt: Option<u64>,
    team_filter: Option<i32>,
) -> (r: Vec<Event>)
    requires
        crate::store::event_table_wf(store.events_view(), store.next_event_id as int),
        starttime_ns <= endtime_ns,
    ensures
        events_query_post(
            store.events_view(),
            bucket_id as int,
            starttime_ns as int,
            endtime_ns as int,
            limit_opt,
            opt_team_view(team_filter),
            r@.map_values(|ev: Event| ev@),
        ),
{
    let ghost pred = window_pred(
        bucket_id as int,
        starttime_ns as int,
        endtime_ns as int,
        opt_team_view(team_filter),
    );
    let ghost table = store.events_view();
    let m = store.events.len();
    let mut matched: Vec<EventRow> = Vec::new();
    proof {
        crate::lemmas::lemma_filter_empty(table.take(0), pred);
        assert(table.take(0) =~= Seq::<EventRowView>::empty());
        assert(matched@.map_values(|row: EventRow| row@) =~= table.take(0).filter(pred));
    }
    let mut j: usize = 0;
    while j < m
        invariant
            j <= m,
            matched@.map_values(|row: EventRow| row@) == table.take(j as int).filter(pred),
        decreases m - j,
    {
        let ghost pre = matched@;
        proof {
            assert(table[j as int] == store.events@[j as int]@);
            assert(table.take(j as int + 1) =~= table.take(j as int).push(table[j as int]));
            crate::lemmas::lemma_filter_push(table.take(j as int), pred, table[j as int]);
        }
        let row = &store.events[j];
        let team_ok = match team_filter {
            Some(t) => row.team_id == t,
            None => true,
        };
        if row.bucketrow == bucket_id && row.endtime_ns >= starttime_ns && row.starttime_ns
            <= endtime_ns && team_ok {
            let kept_row = row.clone();
            matched.push(kept_row);
            proof {
                assert(pred(table[j as int]));
                assert(matched@.map_values(|row: EventRow| row@) =~= pre.map_values(
                    |row: EventRow| row@,
                ).push(table[j as int]));
            }
        } else {
            proof {
                assert(!pred(table[j as int]));
            }
        }
        j = j + 1;
    }
    proof {
        assert(table.take(m as int) =~= table);
        crate::lemmas::lemma_filter_elements(table, pred);
    }
    let ghost selected = table.filter(pred);
    // Order the selection newest first.
    let mut sorted_rows: Vec<EventRow> = Vec::new();
    let n = matched.len();
    let mut i: usize = 0;
    proof {
        assert(sorted_rows@.map_values(|row: EventRow| row@).to_multiset() =~= selected.take(
            0,
        ).to_multiset()) by {
            assert(selected.take(0) =~= Seq::<EventRowView>::empty());
            assert(sorted_rows@.map_values(|row: EventRow| row@) =~= Seq::<
                EventRowView,
            >::empty());
        }
    }
    while i < n
        invariant
            i <= n,
            n == matched@.len(),
            sorted_rows@.map_values(|row: EventRow| row@).to_multiset() == selected.take(
                i as int,
            ).to_multiset(),
            sorted_desc(sorted_rows@.map_values(|row: EventRow| row@)),
            forall|q: int|
                0 <= q < sorted_rows@.len() ==> pred((#[trigger] sorted_rows@[q])@) && sorted_rows@[q]@.starttime_ns
                    <= sorted_rows@[q]@.endtime_ns && sorted_rows@[q]@.endtime_ns
                    - sorted_rows@[q]@.starttime_ns <= i64::MAX,
        decreases n - i,
    {
        let ghost sview = sorted_rows@.map_values(|row: EventRow| row@);
        proof {
            assert(matched@[i as int]@ == selected[i as int]);
            assert(pred(selected[i as int]));
            assert(selected.take(i as int + 1) =~= selected.take(i as int).push(
                selected[i as int],
            ));
            selected.take(i as int).to_multiset_ensures();
        }
        let row = matched[i].clone();
        let ghost rowv = selected[i as int];
        proof {
            assert(row@ == rowv);
        }
        let slen = sorted_rows.len();
        let mut p: usize = 0;
        while p < slen && sorted_rows[p].starttime_ns >= row.starttime_ns
            invariant
                p <= slen,
                slen == sorted_rows@.len(),
                row@ == rowv,
                forall|q: int|
                    0 <= q < p ==> (#[trigger] sorted_rows@[q])@.starttime_ns
                        >= rowv.starttime_ns,
            decreases slen - p,
        {
            proof {
                assert(sorted_rows@.map_values(|rw: EventRow| rw@)[p as int]
                    == sorted_rows@[p as int]@);
            }
            p = p + 1;
        }
        proof {
            if p < slen {
                assert(sorted_rows@.map_values(|rw: EventRow| rw@)[p as int]
                    == sorted_rows@[p as int]@);
                assert(sorted_rows@.map_values(|rw: EventRow| rw@)[p as int].starttime_ns
                    < rowv.starttime_ns);
            }
        }
        let ghost pre_inner = sorted_rows@;
        let ghost prevview = sorted_rows@.map_values(|rw: EventRow| rw@);
        let ghost rowsnap = row;
        sorted_rows.insert(p, row);
        proof {
            prevview.insert_ensures(p as int, rowv);
            pre_inner.insert_ensures(p as int, rowsnap);
            assert(sorted_rows@ == pre_inner.insert(p as int, rowsnap));
            assert(sorted_rows@[p as int] == rowsnap);
            assert(rowsnap@ == rowv);
            assert forall|q: int| 0 <= q < sorted_rows@.len() implies sorted_rows@.map_values(
                |rw: EventRow| rw@,
            )[q] == #[trigger] prevview.insert(p as int, rowv)[q] by {
                if q < p as int {
                    assert(sorted_rows@[q] == pre_inner[q]);
                    assert(prevview[q] == pre_inner[q]@);
                } else if q == p as int {
                    assert(sorted_rows@.map_values(|rw: EventRow| rw@)[q] == sorted_rows@[q]@);
                } else {
                    assert(sorted_rows@[q] == pre_inner[q - 1]);
                    assert(prevview[q - 1] == pre_inner[q - 1]@);
                }
            }
            assert(sorted_rows@.map_values(|rw: EventRow| rw@) =~= prevview.insert(
                p as int,
                rowv,
            ));
            vstd::seq_lib::to_multiset_insert(prevview, p as int, rowv);
            assert(sorted_desc(sorted_rows@.map_values(|rw: EventRow| rw@))) by {
                let nv = prevview.insert(p as int, rowv);
                assert forall|a: int, b: int|
                    0 <= a < b < nv.len() implies (#[trigger] nv[a]).starttime_ns
                    >= (#[trigger] nv[b]).starttime_ns by {
                    if b < p as int {
                    } else if a < p as int && b == p as int {
                        assert(nv[a] == prevview[a]);
                    } else if a < p as int && b > p as int {
                        assert(nv[a] == prevview[a]);
                        assert(nv[b] == prevview[b - 1]);
                        if (p as int) <= b - 1 && (p as int) < prevview.len() {
                            assert(prevview[p as int].starttime_ns < rowv.starttime_ns);
                        }
                    } else if a == p as int {
                        assert(nv[b] == prevview[b - 1]);
                        assert(p as int <= b - 1 < prevview.len());
                        assert(prevview[p as int].starttime_ns < rowv.starttime_ns);
                    } else {
                        assert(nv[a] == prevview[a - 1]);
                        assert(nv[b] == prevview[b - 1]);
                    }
                }
            }
        }
        i = i + 1;
    }
    proof {
        assert(selected.take(n as int) =~= selected);
    }
    let ghost perm = sorted_rows@.map_values(|row: EventRow| row@);
    // Cap at the limit.
    let k: usize = match limit_opt {
        Some(l) => if l < sorted_rows.len() as u64 {
            l as usize
        } else {
            sorted_rows.len()
        },
        None => sorted_rows.len(),
    };
    proof {
        perm.to_multiset_ensures();
        selected.to_multiset_ensures();
        assert(perm.len() == selected.len());
        assert(k as int == query_limit(limit_opt, selected.len() as int));
    }
    sorted_rows.truncate(k);
    proof {
        assert(sorted_rows@.map_values(|row: EventRow| row@) =~= perm.take(k as int));
    }
    // Clip each surviving row to the window.
    let outn = sorted_rows.len();
    let mut out: Vec<Event> = Vec::new();
    proof {
        assert(out@.map_values(|ev: Event| ev@) =~= perm.take(k as int).take(0).map_values(
            |r: EventRowView| clip_row(r, starttime_ns as int, endtime_ns as int),
        ));
    }
    let mut q: usize = 0;
    while q < outn
        invariant
            q <= outn,
            outn == sorted_rows@.len(),
            sorted_rows@.map_values(|row: EventRow| row@) == perm.take(k as int),
            k as int <= perm.len(),
            out@.map_values(|ev: Event| ev@) == perm.take(k as int).take(q as int).map_values(
                |r: EventRowView| clip_row(r, starttime_ns as int, endtime_ns as int),
            ),
        decreases outn - q,
    {
        let ghost preout = out@;
        let row = &sorted_rows[q];
        proof {
            assert(sorted_rows@.map_values(|rw: EventRow| rw@)[q as int] == row@);
            assert(perm.take(k as int)[q as int] == perm[q as int]);
            assert(pred(perm[q as int]));
            assert(row@.starttime_ns <= row@.endtime_ns);
            assert(row@.endtime_ns - row@.starttime_ns <= i64::MAX);
        }
        let cs: i64 = if row.starttime_ns < starttime_ns {
            starttime_ns
        } else {
            row.starttime_ns
        };
        let ce: i64 = if row.endtime_ns > endtime_ns {
            endtime_ns
        } else {
            row.endtime_ns
        };
        let ev = Event {
            id: Some(row.id),
            timestamp_ns: cs,
            duration_ns: ce - cs,
            data: row.data.clone(),
            team_id: 1,
        };
        proof {
            assert(ev@ == clip_row(row@, starttime_ns as int, endtime_ns as int));
        }
        out.push(ev);
        proof {
            assert(perm.take(k as int).take(q as int + 1) =~= perm.take(k as int).take(
                q as int,
            ).push(perm[q as int]));
            assert(out@.map_values(|ev: Event| ev@) =~= preout.map_values(|ev: Event| ev@).push(
                clip_row(perm[q as int], starttime_ns as int, endtime_ns as int),
            ));
        }
        q = q + 1;
    }
    proof {
        assert(perm.take(k as int).take(outn as int) =~= perm.take(k as int));
        let outview = out@.map_values(|ev: Event| ev@);
        assert(outview =~= perm.take(k as int).map_values(
            clip_mapper(starttime_ns as int, endtime_ns as int),
        ));
        assert forall|x: int| 0 <= x < outview.len() implies starttime_ns as int <= (
        #[trigger] outview[x]).timestamp_ns && 0 <= outview[x].duration_ns
            && outview[x].timestamp_ns + outview[x].duration_ns <= endtime_ns as int by {
            assert(outview[x] == clip_row(
                perm.take(k as int)[x],
                starttime_ns as int,
                endtime_ns as int,
            ));
            assert(perm.take(k as int)[x] == perm[x]);
            assert(pred(perm[x]));
        }
        assert forall|a: int, b: int| 0 <= a < b < outview.len() implies (
        #[trigger] outview[a]).timestamp_ns >= (#[trigger] outview[b]).timestamp_ns by {
            assert(outview[a] == clip_row(perm[a], starttime_ns as int, endtime_ns as int));
            assert(outview[b] == clip_row(perm[b], starttime_ns as int, endtime_ns as int));
            assert(perm[a].starttime_ns >= perm[b].starttime_ns);
        }
    }
    out
}

/// Everything a bucket creation promises, over explicit pre and post
/// states: the idempotent identity case, the exhausted id space, and the
/// fresh row with its stamp and inline events.
pub open spec fn create_bucket_ensures(
    pre_self: DatastoreInstance,
    pre_store: Store,
    post_self: DatastoreInstance,
    post_store: Store,
    bucket: BucketView,
    r: Result<i64, DatastoreError>,
) -> bool {
    &&& (post_self.wf(post_store))
    &&& (post_self.first_init == pre_self.first_init)
    &&& (post_self.db_version == pre_self.db_version)
    &&& (post_store.spec_version() == pre_store.spec_version())
    &&& (bucket_identity_exists(
                pre_store.buckets_view(),
                bucket.user_id,
                bucket._type,
            ) ==> post_store == pre_store && post_self == pre_self && (r matches Ok(id)
                && exists|i: int|
                0 <= i < pre_store.buckets_view().len() && (#[trigger] pre_store.buckets_view()[i]).user_id == bucket.user_id && pre_store.buckets_view()[i]._type
                    == bucket._type && pre_store.buckets_view()[i].id == id as int))
    &&& (!bucket_identity_exists(pre_store.buckets_view(), bucket.user_id, bucket._type)
                && pre_store.next_bucket_id == i64::MAX ==> post_store == pre_store
                && post_self == pre_self && (r matches Err(e) && e is InternalError))
    &&& (!bucket_identity_exists(pre_store.buckets_view(), bucket.user_id, bucket._type)
                && pre_store.next_bucket_id < i64::MAX ==> (exists|stamp: int|
                #![trigger created_bucket_row(bucket, pre_store.next_bucket_id as int, stamp)]
                ({
                    let bid = pre_store.next_bucket_id as int;
                    let entry = created_bucket_entry(bucket, bid, stamp);
                    &&& (bucket.created matches Some(c) ==> stamp == c)
                    &&& post_store.buckets_view() == pre_store.buckets_view().push(
                        created_bucket_row(bucket, bid, stamp),
                    )
                    &&& post_store.next_bucket_id == pre_store.next_bucket_id + 1
                    &&& post_store == (Store {
                        buckets: post_store.buckets,
                        events: post_store.events,
                        next_bucket_id: post_store.next_bucket_id,
                        next_event_id: post_store.next_event_id,
                        ..pre_store
                    })
                    &&& match bucket.events {
                        None => {
                            &&& r matches Ok(id) && id as int == bid
                            &&& post_store.events_view() == pre_store.events_view()
                            &&& post_store.next_event_id == pre_store.next_event_id
                            &&& post_self.cache_view() == pre_self.cache_view().push(entry)
                        },
                        Some(evs) => {
                            let stf = spec_insert_fold(
                                EventInsertState {
                                    table: pre_store.events_view(),
                                    next_id: pre_store.next_event_id as int,
                                    md: entry.metadata,
                                    out: Seq::<EventView>::empty(),
                                    failed: false,
                                    err: Seq::<char>::empty(),
                                },
                                evs,
                                bid,
                            );
                            &&& (r is Ok) == !stf.failed
                            &&& (r matches Ok(id) ==> id as int == bid)
                            &&& (r matches Err(e) ==> (e matches DatastoreError::InternalError(
                                m,
                            ) && m@ == stf.err))
                            &&& post_store.events_view() == stf.table
                            &&& post_store.next_event_id as int == stf.next_id
                            &&& post_self.cache_view() == pre_self.cache_view().push(
                                (BucketView { metadata: stf.md, ..entry }),
                            )
                        },
                    }
                })))
}

/// Everything a bucket deletion promises, over explicit pre and post
/// states: the cascade on success, and an untouched store on a miss.
pub open spec fn delete_bucket_ensures(
    pre_self: DatastoreInstance,
    pre_store: Store,
    post_self: DatastoreInstance,
    post_store: Store,
    bucket_id: int,
    r: Result<(), DatastoreError>,
) -> bool {
    &&& (match r {
                Ok(()) => {
                    &&& post_self.wf(post_store)
                    &&& exists|ci: int|
                        0 <= ci < pre_self.cache_view().len() && (#[trigger] pre_self.cache_view()[ci]).bid == bucket_id && post_store.buckets_view()
                            == pre_store.buckets_view().remove(ci) && post_self.cache_view()
                            == pre_self.cache_view().remove(ci)
                    &&& post_store.events_view() == pre_store.events_view().filter(
                        |e: EventRowView| e.bucketrow != bucket_id,
                    )
                    &&& post_store.key_values_view() == pre_store.key_values_view()
                    &&& post_store.users_view() == pre_store.users_view()
                    &&& post_store.teams_view() == pre_store.teams_view()
                    &&& post_store.teams_users_view() == pre_store.teams_users_view()
                    &&& post_store.team_configurations_view() == pre_store.team_configurations_view()
                    &&& post_store.spec_version() == pre_store.spec_version()
                },
                Err(e) => {
                    &&& e is NoSuchBucket
                    &&& post_store == pre_store
                    &&& post_self == pre_self
                },
            })
    &&& ((r is Err) == !cache_has_bucket(pre_self.cache_view(), bucket_id))
    &&& (post_self.first_init == pre_self.first_init)
    &&& (post_self.db_version == pre_self.db_version)
}

/// Everything a batch insert promises, over explicit pre and post states:
/// the insert fold drives the table, the counter, the cached bounds and
/// the reply.
pub open spec fn insert_events_ensures(
    pre_self: DatastoreInstance,
    pre_store: Store,
    post_self: DatastoreInstance,
    post_store: Store,
    bucket_id: int,
    events: Seq<EventView>,
    r: Result<Vec<Event>, DatastoreError>,
) -> bool {
    &&& (post_self.wf(post_store))
    &&& (post_self.first_init == pre_self.first_init)
    &&& (post_self.db_version == pre_self.db_version)
    &&& (post_store == (Store {
                events: post_store.events,
                next_event_id: post_store.next_event_id,
                ..pre_store
            }))
    &&& (!cache_has_bucket(pre_self.cache_view(), bucket_id) ==> (r matches Err(e)
                && e is NoSuchBucket) && post_store == pre_store && post_self == pre_self)
    &&& (cache_has_bucket(pre_self.cache_view(), bucket_id) ==> exists|ci: int|
                {
                    &&& 0 <= ci < pre_self.cache_view().len()
                    &&& (#[trigger] pre_self.cache_view()[ci]).bid == bucket_id
                    &&& {
                        let stf = spec_insert_fold(
                            insert_start_state(pre_self, pre_store, ci),
                            events,
                            bucket_id,
                        );
                        &&& (r is Ok) == !stf.failed
                        &&& post_store.events_view() == stf.table
                        &&& post_store.next_event_id as int == stf.next_id
                        &&& post_self.cache_view() == pre_self.cache_view().update(
                            ci,
                            (BucketView {
                                metadata: stf.md,
                                ..pre_self.cache_view()[ci]
                            }),
                        )
                        &&& (r matches Ok(out) ==> out@.map_values(|e: Event| e@) == stf.out)
                        &&& (r matches Err(e) ==> (e matches DatastoreError::InternalError(m) && m@ == stf.err))
                    }
                })
}

/// Everything a heartbeat promises, over explicit pre and post states: the
/// cached-slot path, the first-event path, and the storage-resolved path,
/// each with its slot update.
pub open spec fn heartbeat_ensures(
    pre_self: DatastoreInstance,
    pre_store: Store,
    post_self: DatastoreInstance,
    post_store: Store,
    bucket_id: int,
    hb: EventView,
    pulsetime_ns: int,
    pre_lh: Seq<LastHeartbeatView>,
    post_lh: Seq<LastHeartbeatView>,
    r: Result<Event, DatastoreError>,
) -> bool {
    &&& (post_self.wf(post_store))
    &&& (post_self.first_init == pre_self.first_init)
    &&& (post_self.db_version == pre_self.db_version)
    &&& (post_store.spec_version() == pre_store.spec_version())
    &&& (hb_unique(post_lh))
    &&& (hb_cache_wf(post_lh))
    &&& (((r matches Err(e) && e is NoSuchBucket) <==> !cache_has_bucket(
                pre_self.cache_view(),
                bucket_id,
            )))
    &&& (!cache_has_bucket(pre_self.cache_view(), bucket_id) ==> post_store == pre_store && post_self == pre_self && post_lh == pre_lh)
    &&& (cache_has_bucket(pre_self.cache_view(), bucket_id) && !(0
                <= hb.duration_ns && hb.endtime_ns() <= i64::MAX) ==> (r matches Err(
                e,
            ) && e matches DatastoreError::InternalError(m) && m@
                == "Failed to convert duration to nanoseconds"@) && post_store == pre_store
                && post_self == pre_self && post_lh == pre_lh)
    &&& (cache_has_bucket(pre_self.cache_view(), bucket_id) && 0
                <= hb.duration_ns && hb.endtime_ns() <= i64::MAX && hb_slot_event(
                pre_lh,
                bucket_id,
            ) is Some ==> ({
                let lhv = pre_lh;
                let le = hb_slot_event(lhv, bucket_id)->0;
                if spec_merges(le, hb, pulsetime_ns) && le.timestamp_ns + i64::MAX
                    < hb.endtime_ns() {
                    (r matches Err(e) && e matches DatastoreError::InternalError(m) && m@
                        == "Failed to convert duration to nanoseconds"@) && post_store == pre_store
                        && post_self == pre_self && post_lh == pre_lh
                } else {
                    ({
                        &&& merge_or_insert_outcome(
                            pre_self,
                            pre_store,
                            post_store,
                            bucket_id,
                            hb,
                            pulsetime_ns,
                            le,
                            r,
                        )
                        &&& (r matches Ok(ev) ==> (exists|mid: Seq<LastHeartbeatView>|
                            hb_removed(lhv, bucket_id, mid) && post_lh == mid.push(
                                (LastHeartbeatView {
                                    bucket_id: bucket_id,
                                    event: Some(ev@),
                                }),
                            )))
                    })
                }
            }))
    &&& (cache_has_bucket(pre_self.cache_view(), bucket_id) && 0
                <= hb.duration_ns && hb.endtime_ns() <= i64::MAX && hb_slot_event(
                pre_lh,
                bucket_id,
            ) is None && window_matches(
                pre_store.events_view(),
                bucket_id,
                0,
                i64::MAX as int,
                None,
            ).len() == 0 ==> ({
                let lhv = pre_lh;
                &&& exists|ci: int|
                    0 <= ci < pre_self.cache_view().len() && (#[trigger] pre_self.cache_view()[ci]).bid
                        == bucket_id && ({
                        let st1 = spec_insert_step(
                            insert_start_state(pre_self, pre_store, ci),
                            hb,
                            bucket_id,
                        );
                        &&& (r is Ok) == !st1.failed
                        &&& (r matches Err(e) ==> (e matches DatastoreError::InternalError(m)
                            && m@ == st1.err))
                        &&& post_store.events_view() == st1.table
                        &&& post_store.next_event_id as int == st1.next_id
                        &&& (r matches Ok(ev) ==> ev@ == hb)
                    })
                &&& exists|mid: Seq<LastHeartbeatView>|
                    hb_removed(lhv, bucket_id, mid) && post_lh == mid
            }))
    &&& (cache_has_bucket(pre_self.cache_view(), bucket_id) && 0
                <= hb.duration_ns && hb.endtime_ns() <= i64::MAX && hb_slot_event(
                pre_lh,
                bucket_id,
            ) is None && window_matches(
                pre_store.events_view(),
                bucket_id,
                0,
                i64::MAX as int,
                None,
            ).len() > 0 ==> (exists|rv: EventRowView|
                #![trigger is_latest_stored_row(pre_store.events_view(), bucket_id, rv)]
                ({
                    let lhv = pre_lh;
                    &&& is_latest_stored_row(pre_store.events_view(), bucket_id, rv)
                    &&& merge_or_insert_outcome(
                        pre_self,
                        pre_store,
                        post_store,
                        bucket_id,
                        hb,
                        pulsetime_ns,
                        clip_row(rv, 0, i64::MAX as int),
                        r,
                    )
                    &&& (r matches Ok(ev) ==> (exists|mid: Seq<LastHeartbeatView>|
                        hb_removed(lhv, bucket_id, mid) && post_lh == mid.push(
                            (LastHeartbeatView {
                                bucket_id: bucket_id,
                                event: Some(ev@),
                            }),
                        )))
                })))
    &&& (r matches Ok(ev) ==> (0 <= ev@.duration_ns && ev@.endtime_ns() <= i64::MAX))
}

/// Some bucket row carries the given owner and type.
pub open spec fn bucket_identity_exists(
    rows: Seq<BucketRowView>,
    user_id: int,
    _type: Seq<char>,
) -> bool {
    exists|i: int|
        0 <= i < rows.len() && (#[trigger] rows[i]).user_id == user_id && rows[i]._type == _type
}

} // verus!
