//! The persisted state of one datastore, laid out as the conceptual schema:
//! bucket, event and key-value tables, user/team tables, the schema version,
//! and the id counters the store assigns rows from.

use vstd::prelude::*;

use crate::data::DataEntryView;
use crate::data::DataMap;
use crate::team::Team;
use crate::team::TeamView;
use crate::user::User;
use crate::user::UserView;

verus! {

/// One row of the bucket table.
pub struct BucketRow {
    pub id: i64,
    pub _type: String,
    pub created_ns: i64,
    pub data: DataMap,
    pub user_id: i32,
}

/// The mathematical content of a bucket row.
pub ghost struct BucketRowView {
    pub id: int,
    pub _type: Seq<char>,
    pub created_ns: int,
    pub data: Seq<DataEntryView>,
    pub user_id: int,
}

impl View for BucketRow {
    type V = BucketRowView;

    open spec fn view(&self) -> BucketRowView {
        BucketRowView {
            id: self.id as int,
            _type: self._type@,
            created_ns: self.created_ns as int,
            data: self.data@,
            user_id: self.user_id as int,
        }
    }
}

impl Clone for BucketRow {
    fn clone(&self) -> (r: Self)
        ensures
            r@ == self@,
    {
        BucketRow {
            id: self.id,
            _type: self._type.clone(),
            created_ns: self.created_ns,
            data: self.data.clone(),
            user_id: self.user_id,
        }
    }
}

/// One row of the event table.  `endtime_ns` is stored denormalized as
/// `starttime_ns` plus the event's duration.
pub struct EventRow {
    pub id: i64,
    pub bucketrow: i64,
    pub starttime_ns: i64,
    pub endtime_ns: i64,
    pub data: DataMap,
    pub team_id: i32,
}

/// The mathematical content of an event row.
pub ghost struct EventRowView {
    pub id: int,
    pub bucketrow: int,
    pub starttime_ns: int,
    pub endtime_ns: int,
    pub data: Seq<DataEntryView>,
    pub team_id: int,
}

impl View for EventRow {
    type V = EventRowView;

    open spec fn view(&self) -> EventRowView {
        EventRowView {
            id: self.id as int,
            bucketrow: self.bucketrow as int,
            starttime_ns: self.starttime_ns as int,
            endtime_ns: self.endtime_ns as int,
            data: self.data@,
            team_id: self.team_id as int,
        }
    }
}

impl Clone for EventRow {
    fn clone(&self) -> (r: Self)
        ensures
            r@ == self@,
    {
        EventRow {
            id: self.id,
            bucketrow: self.bucketrow,
            starttime_ns: self.starttime_ns,
            endtime_ns: self.endtime_ns,
            data: self.data.clone(),
            team_id: self.team_id,
        }
    }
}

/// One row of the key-value table.
#[derive(Debug)]
pub struct KeyValueRow {
    pub key: String,
    pub value: String,
    pub last_modified: i64,
}

/// The mathematical content of a key-value row.
pub ghost struct KeyValueRowView {
    pub key: Seq<char>,
    pub value: Seq<char>,
    pub last_modified: int,
}

impl View for KeyValueRow {
    type V = KeyValueRowView;

    open spec fn view(&self) -> KeyValueRowView {
        KeyValueRowView {
            key: self.key@,
            value: self.value@,
            last_modified: self.last_modified as int,
        }
    }
}

impl Clone for KeyValueRow {
    fn clone(&self) -> (r: Self)
        ensures
            r@ == self@,
    {
        KeyValueRow {
            key: self.key.clone(),
            value: self.value.clone(),
            last_modified: self.last_modified,
        }
    }
}

/// One row of the team-membership table.
pub struct TeamUserRow {
    pub id: i32,
    pub team_id: i32,
    pub user_id: i32,
}

/// The mathematical content of a membership row.
pub ghost struct TeamUserRowView {
    pub id: int,
    pub team_id: int,
    pub user_id: int,
}

impl View for TeamUserRow {
    type V = TeamUserRowView;

    open spec fn view(&self) -> TeamUserRowView {
        TeamUserRowView {
            id: self.id as int,
            team_id: self.team_id as int,
            user_id: self.user_id as int,
        }
    }
}

impl Clone for TeamUserRow {
    fn clone(&self) -> (r: Self)
        ensures
            r@ == self@,
    {
        TeamUserRow { id: self.id, team_id: self.team_id, user_id: self.user_id }
    }
}

/// One row of the team-configuration table; `apps` holds the allow-list as
/// comma-separated text, exactly as persisted.
pub struct TeamConfigurationRow {
    pub id: i32,
    pub team_id: i32,
    pub apps: String,
}

/// The mathematical content of a configuration row.
pub ghost struct TeamConfigurationRowView {
    pub id: int,
    pub team_id: int,
    pub apps: Seq<char>,
}

impl View for TeamConfigurationRow {
    type V = TeamConfigurationRowView;

    open spec fn view(&self) -> TeamConfigurationRowView {
        TeamConfigurationRowView {
            id: self.id as int,
            team_id: self.team_id as int,
            apps: self.apps@,
        }
    }
}

impl Clone for TeamConfigurationRow {
    fn clone(&self) -> (r: Self)
        ensures
            r@ == self@,
    {
        TeamConfigurationRow { id: self.id, team_id: self.team_id, apps: self.apps.clone() }
    }
}

/// Which tables and columns the store's schema holds at its current version.
#[derive(Clone, Copy, PartialEq, Eq, Structural)]
pub struct Schema {
    pub buckets_table: bool,
    pub events_table: bool,
    pub bucket_data_column: bool,
    pub bucket_data_deprecated_column: bool,
    pub key_value_table: bool,
    pub users_table: bool,
    pub teams_table: bool,
    pub teams_users_table: bool,
    pub team_configuration_table: bool,
    pub bucket_user_id_column: bool,
    pub event_team_id_column: bool,
}

impl Schema {
    /// The schema that each version's migration steps leave behind.
    pub open spec fn spec_at_version(version: int) -> Schema {
        Schema {
            buckets_table: version >= 1,
            events_table: version >= 1,
            bucket_data_column: version >= 2,
            bucket_data_deprecated_column: version >= 3,
            key_value_table: version >= 4,
            users_table: version >= 5,
            teams_table: version >= 5,
            teams_users_table: version >= 5,
            team_configuration_table: version >= 5,
            bucket_user_id_column: version >= 5,
            event_team_id_column: version >= 5,
        }
    }
}

/// The bucket table is well formed: ids unique and below the counter, at
/// most one bucket per (`user_id`, `_type`) pair, and the counter positive.
pub open spec fn bucket_table_wf(rows: Seq<BucketRowView>, next_id: int) -> bool {
    &&& forall|i: int, j: int|
        0 <= i < j < rows.len() ==> (#[trigger] rows[i]).id != (#[trigger] rows[j]).id
    &&& forall|i: int, j: int|
        0 <= i < j < rows.len() ==> !((#[trigger] rows[i]).user_id == (#[trigger] rows[j]).user_id
            && rows[i]._type == rows[j]._type)
    &&& forall|i: int| 0 <= i < rows.len() ==> 1 <= (#[trigger] rows[i]).id < next_id
    &&& 1 <= next_id
}

/// The event table is well formed: ids unique and below the counter, and
/// every row spans a non-negative range whose length a duration can hold.
pub open spec fn event_table_wf(rows: Seq<EventRowView>, next_id: int) -> bool {
    &&& forall|i: int, j: int|
        0 <= i < j < rows.len() ==> (#[trigger] rows[i]).id != (#[trigger] rows[j]).id
    &&& forall|i: int|
        0 <= i < rows.len() ==> (#[trigger] rows[i]).starttime_ns <= rows[i].endtime_ns
            && rows[i].endtime_ns - rows[i].starttime_ns <= i64::MAX
    &&& forall|i: int| 0 <= i < rows.len() ==> (#[trigger] rows[i]).id < next_id
    &&& 1 <= next_id
}

/// The key-value table is well formed: keys are unique.
pub open spec fn key_value_table_wf(rows: Seq<KeyValueRowView>) -> bool {
    forall|i: int, j: int|
        0 <= i < j < rows.len() ==> (#[trigger] rows[i]).key != (#[trigger] rows[j]).key
}

/// The user table is well formed: ids, emails and usernames are all unique,
/// and ids stay below the counter.
pub open spec fn user_table_wf(rows: Seq<UserView>, next_id: int) -> bool {
    &&& forall|i: int, j: int|
        0 <= i < j < rows.len() ==> (#[trigger] rows[i]).id != (#[trigger] rows[j]).id
    &&& forall|i: int, j: int|
        0 <= i < j < rows.len() ==> (#[trigger] rows[i]).email != (#[trigger] rows[j]).email
    &&& forall|i: int, j: int|
        0 <= i < j < rows.len() ==> (#[trigger] rows[i]).username != (#[trigger] rows[j]).username
    &&& forall|i: int| 0 <= i < rows.len() ==> (#[trigger] rows[i]).id < next_id
    &&& 1 <= next_id
}

/// The team table is well formed: ids unique and below the counter.
pub open spec fn team_table_wf(rows: Seq<TeamView>, next_id: int) -> bool {
    &&& forall|i: int, j: int|
        0 <= i < j < rows.len() ==> (#[trigger] rows[i]).id != (#[trigger] rows[j]).id
    &&& forall|i: int| 0 <= i < rows.len() ==> (#[trigger] rows[i]).id < next_id
    &&& 1 <= next_id
}

/// The membership table is well formed: ids unique and below the counter.
pub open spec fn membership_table_wf(rows: Seq<TeamUserRowView>, next_id: int) -> bool {
    &&& forall|i: int, j: int|
        0 <= i < j < rows.len() ==> (#[trigger] rows[i]).id != (#[trigger] rows[j]).id
    &&& forall|i: int| 0 <= i < rows.len() ==> (#[trigger] rows[i]).id < next_id
    &&& 1 <= next_id
}

/// Some bucket row carries the given id.
pub open spec fn buckets_have_id(rows: Seq<BucketRowView>, bid: int) -> bool {
    exists|i: int| 0 <= i < rows.len() && (#[trigger] rows[i]).id == bid
}

/// Every event row belongs to a bucket row that is still present.
pub open spec fn events_reference_buckets(
    events: Seq<EventRowView>,
    buckets: Seq<BucketRowView>,
) -> bool {
    forall|j: int|
        0 <= j < events.len() ==> buckets_have_id(buckets, (#[trigger] events[j]).bucketrow)
}

/// The configuration table is well formed: ids unique and below the counter.
pub open spec fn configuration_table_wf(rows: Seq<TeamConfigurationRowView>, next_id: int) -> bool {
    &&& forall|i: int, j: int|
        0 <= i < j < rows.len() ==> (#[trigger] rows[i]).id != (#[trigger] rows[j]).id
    &&& forall|i: int| 0 <= i < rows.len() ==> (#[trigger] rows[i]).id < next_id
    &&& 1 <= next_id
}


/// Whether the ids are pairwise distinct and each lies in `[lo, next)`.
#[verifier::loop_isolation(false)]
fn ids_unique_in_range(ids: &Vec<i64>, lo: i64, next: i64) -> (r: bool)
    ensures
        r == ({
            &&& forall|a: int, b: int| 0 <= a < b < ids@.len() ==> ids@[a] != ids@[b]
            &&& forall|a: int| 0 <= a < ids@.len() ==> lo <= #[trigger] ids@[a] < next
        }),
{
    let n = ids.len();
    let mut i: usize = 0;
    while i < n
        invariant
            i <= n,
            n == ids@.len(),
            forall|a: int, b: int| 0 <= a < b < ids@.len() && a < i ==> ids@[a] != ids@[b],
            forall|a: int| 0 <= a < i ==> lo <= #[trigger] ids@[a] < next,
        decreases n - i,
    {
        if !(lo <= ids[i] && ids[i] < next) {
            proof {
                if forall|a: int| 0 <= a < ids@.len() ==> lo <= #[trigger] ids@[a] < next {
                    assert(lo <= ids@[i as int] < next);
                    assert(false);
                }
            }
            return false;
        }
        let mut j: usize = i + 1;
        while j < n
            invariant
                i < n,
                i < j,
                j <= n,
                forall|b: int| i < b < j ==> ids@[i as int] != ids@[b],
            decreases n - j,
        {
            if ids[i] == ids[j] {
                proof {
                    if forall|a: int, b: int|
                        0 <= a < b < ids@.len() ==> #[trigger] ids@[a] != #[trigger] ids@[b] {
                        assert(ids@[i as int] != ids@[j as int]);
                        assert(false);
                    }
                }
                return false;
            }
            j = j + 1;
        }
        i = i + 1;
    }
    true
}

/// Whether the strings are pairwise distinct.
#[verifier::loop_isolation(false)]
fn strings_unique(keys: &Vec<String>) -> (r: bool)
    ensures
        r == (forall|a: int, b: int|
            0 <= a < b < keys@.len() ==> (#[trigger] keys@[a])@ != (#[trigger] keys@[b])@),
{
    let n = keys.len();
    let mut i: usize = 0;
    while i < n
        invariant
            i <= n,
            n == keys@.len(),
            forall|a: int, b: int|
                0 <= a < b < keys@.len() && a < i ==> (#[trigger] keys@[a])@ != (
                #[trigger] keys@[b])@,
        decreases n - i,
    {
        let mut j: usize = i + 1;
        while j < n
            invariant
                i < n,
                i < j,
                j <= n,
                forall|b: int| i < b < j ==> keys@[i as int]@ != (#[trigger] keys@[b])@,
            decreases n - j,
        {
            if crate::text::str_eq(keys[i].as_str(), keys[j].as_str()) {
                proof {
                    if forall|a: int, b: int|
                        0 <= a < b < keys@.len() ==> (#[trigger] keys@[a])@ != (
                        #[trigger] keys@[b])@ {
                        assert(keys@[i as int]@ != keys@[j as int]@);
                        assert(false);
                    }
                }
                return false;
            }
            j = j + 1;
        }
        i = i + 1;
    }
    true
}

/// The schema any given version leaves behind, built at run time.
fn schema_at_version(version: i32) -> (s: Schema)
    ensures
        s == Schema::spec_at_version(version as int),
{
    Schema {
        buckets_table: version >= 1,
        events_table: version >= 1,
        bucket_data_column: version >= 2,
        bucket_data_deprecated_column: version >= 3,
        key_value_table: version >= 4,
        users_table: version >= 5,
        teams_table: version >= 5,
        teams_users_table: version >= 5,
        team_configuration_table: version >= 5,
        bucket_user_id_column: version >= 5,
        event_team_id_column: version >= 5,
    }
}

/// One datastore's persisted state.
pub struct Store {
    pub version: i32,
    pub schema: Schema,
    pub buckets: Vec<BucketRow>,
    pub events: Vec<EventRow>,
    pub key_values: Vec<KeyValueRow>,
    pub users: Vec<User>,
    pub teams: Vec<Team>,
    pub teams_users: Vec<TeamUserRow>,
    pub team_configurations: Vec<TeamConfigurationRow>,
    pub next_bucket_id: i64,
    pub next_event_id: i64,
    pub next_user_id: i32,
    pub next_team_id: i32,
    pub next_membership_id: i32,
    pub next_configuration_id: i32,
}

impl Store {
    /// The bucket table, as a sequence of row contents.
    pub open spec fn buckets_view(&self) -> Seq<BucketRowView> {
        self.buckets@.map_values(|r: BucketRow| r@)
    }

    /// The event table, as a sequence of row contents.
    pub open spec fn events_view(&self) -> Seq<EventRowView> {
        self.events@.map_values(|r: EventRow| r@)
    }

    /// The key-value table, as a sequence of row contents.
    pub open spec fn key_values_view(&self) -> Seq<KeyValueRowView> {
        self.key_values@.map_values(|r: KeyValueRow| r@)
    }

    /// The user table, as a sequence of row contents.
    pub open spec fn users_view(&self) -> Seq<UserView> {
        self.users@.map_values(|r: User| r@)
    }

    /// The team table, as a sequence of row contents.
    pub open spec fn teams_view(&self) -> Seq<TeamView> {
        self.teams@.map_values(|r: Team| r@)
    }

    /// The membership table, as a sequence of row contents.
    pub open spec fn teams_users_view(&self) -> Seq<TeamUserRowView> {
        self.teams_users@.map_values(|r: TeamUserRow| r@)
    }

    /// The configuration table, as a sequence of row contents.
    pub open spec fn team_configurations_view(&self) -> Seq<TeamConfigurationRowView> {
        self.team_configurations@.map_values(|r: TeamConfigurationRow| r@)
    }

    /// The schema version the store is at.
    pub open spec fn spec_version(&self) -> int {
        self.version as int
    }

    /// The schema version the store is at.
    pub fn db_version(&self) -> (r: i32)
        ensures
            r == self.spec_version(),
    {
        self.version
    }

    /// The store's structural invariant: each table is well formed and the
    /// schema matches the version, with absent tables empty.
    pub open spec fn wf(&self) -> bool {
        &&& 0 <= self.spec_version() <= 5
        &&& self.schema == Schema::spec_at_version(self.spec_version())
        &&& bucket_table_wf(self.buckets_view(), self.next_bucket_id as int)
        &&& event_table_wf(self.events_view(), self.next_event_id as int)
        &&& key_value_table_wf(self.key_values_view())
        &&& user_table_wf(self.users_view(), self.next_user_id as int)
        &&& team_table_wf(self.teams_view(), self.next_team_id as int)
        &&& membership_table_wf(self.teams_users_view(), self.next_membership_id as int)
        &&& configuration_table_wf(
            self.team_configurations_view(),
            self.next_configuration_id as int,
        )
        &&& events_reference_buckets(self.events_view(), self.buckets_view())
        &&& !self.schema.buckets_table ==> self.buckets_view().len() == 0
        &&& !self.schema.events_table ==> self.events_view().len() == 0
        &&& !self.schema.key_value_table ==> self.key_values_view().len() == 0
        &&& !self.schema.users_table ==> self.users_view().len() == 0
        &&& !self.schema.teams_table ==> self.teams_view().len() == 0
        &&& !self.schema.teams_users_table ==> self.teams_users_view().len() == 0
        &&& !self.schema.team_configuration_table ==> self.team_configurations_view().len() == 0
    }

    /// A store is empty when it holds no rows at all.
    pub open spec fn spec_is_empty(&self) -> bool {
        &&& self.buckets_view().len() == 0
        &&& self.events_view().len() == 0
        &&& self.key_values_view().len() == 0
        &&& self.users_view().len() == 0
        &&& self.teams_view().len() == 0
        &&& self.teams_users_view().len() == 0
        &&& self.team_configurations_view().len() == 0
    }


    /// Decide the structural invariant at run time: the check a store read
    /// back from disk must pass before anything may rely on it.
    #[verifier::loop_isolation(false)]
    #[verifier::rlimit(100)]
    pub fn check_wf(&self) -> (r: bool)
        ensures
            r == self.wf(),
    {
        // The version and the schema flags it dictates.
        if self.version < 0 || self.version > 5 {
            return false;
        }
        let expected = schema_at_version(self.version);
        if !(self.schema == expected) {
            return false;
        }
        // Every id counter starts at one.
        if self.next_bucket_id < 1 || self.next_event_id < 1 || self.next_user_id < 1
            || self.next_team_id < 1 || self.next_membership_id < 1
            || self.next_configuration_id < 1 {
            return false;
        }
        // Bucket ids.
        let mut bucket_ids: Vec<i64> = Vec::new();
        let bn = self.buckets.len();
        let mut i: usize = 0;
        while i < bn
            invariant
                i <= bn,
                bn == self.buckets@.len(),
                bucket_ids@.len() == i,
                forall|t: int| 0 <= t < i ==> #[trigger] bucket_ids@[t] == self.buckets@[t].id,
            decreases bn - i,
        {
            bucket_ids.push(self.buckets[i].id);
            i = i + 1;
        }
        proof {
            assert forall|t: int| 0 <= t < self.buckets_view().len() implies (
            #[trigger] self.buckets_view()[t]).id == bucket_ids@[t] as int by {
                assert(self.buckets_view()[t] == self.buckets@[t]@);
            }
        }
        if !ids_unique_in_range(&bucket_ids, 1, self.next_bucket_id) {
            proof {
                if self.wf() {
                    assert forall|a: int, b: int|
                        0 <= a < b < bucket_ids@.len() implies #[trigger] bucket_ids@[a]
                        != #[trigger] bucket_ids@[b] by {
                        assert(self.buckets_view()[a].id != self.buckets_view()[b].id);
                    }
                    assert forall|a: int| 0 <= a < bucket_ids@.len() implies 1
                        <= #[trigger] bucket_ids@[a] < self.next_bucket_id by {
                        assert(1 <= self.buckets_view()[a].id < self.next_bucket_id as int);
                    }
                    assert(false);
                }
            }
            return false;
        }
        // Bucket identities.
        let mut i: usize = 0;
        while i < bn
            invariant
                i <= bn,
                bn == self.buckets@.len(),
                forall|a: int, b: int|
                    0 <= a < b < bn && a < i ==> !((#[trigger] self.buckets_view()[a]).user_id
                        == (#[trigger] self.buckets_view()[b]).user_id
                        && self.buckets_view()[a]._type == self.buckets_view()[b]._type),
            decreases bn - i,
        {
            let mut j: usize = i + 1;
            while j < bn
                invariant
                    i < j,
                    j <= bn,
                    i < bn,
                    bn == self.buckets@.len(),
                    forall|b: int|
                        i < b < j ==> !(self.buckets_view()[i as int].user_id
                            == (#[trigger] self.buckets_view()[b]).user_id
                            && self.buckets_view()[i as int]._type
                            == self.buckets_view()[b]._type),
                decreases bn - j,
            {
                proof {
                    assert(self.buckets_view()[i as int] == self.buckets@[i as int]@);
                    assert(self.buckets_view()[j as int] == self.buckets@[j as int]@);
                }
                if self.buckets[i].user_id == self.buckets[j].user_id && crate::text::str_eq(
                    self.buckets[i]._type.as_str(),
                    self.buckets[j]._type.as_str(),
                ) {
                    proof {
                        if self.wf() {
                            assert(!(self.buckets_view()[i as int].user_id
                                == self.buckets_view()[j as int].user_id
                                && self.buckets_view()[i as int]._type
                                == self.buckets_view()[j as int]._type));
                            assert(false);
                        }
                    }
                    return false;
                }
                j = j + 1;
            }
            i = i + 1;
        }
        // Event ids, spans, and bucket references.
        let mut event_ids: Vec<i64> = Vec::new();
        let en = self.events.len();
        let mut i: usize = 0;
        while i < en
            invariant
                i <= en,
                en == self.events@.len(),
                event_ids@.len() == i,
                forall|t: int| 0 <= t < i ==> #[trigger] event_ids@[t] == self.events@[t].id,
            decreases en - i,
        {
            event_ids.push(self.events[i].id);
            i = i + 1;
        }
        proof {
            assert forall|t: int| 0 <= t < self.events_view().len() implies (
            #[trigger] self.events_view()[t]).id == event_ids@[t] as int by {
                assert(self.events_view()[t] == self.events@[t]@);
            }
        }
        if !ids_unique_in_range(&event_ids, i64::MIN, self.next_event_id) {
            proof {
                if self.wf() {
                    assert forall|a: int, b: int|
                        0 <= a < b < event_ids@.len() implies #[trigger] event_ids@[a]
                        != #[trigger] event_ids@[b] by {
                        assert(self.events_view()[a].id != self.events_view()[b].id);
                    }
                    assert forall|a: int| 0 <= a < event_ids@.len() implies i64::MIN
                        <= #[trigger] event_ids@[a] < self.next_event_id by {
                        assert(self.events_view()[a].id < self.next_event_id as int);
                    }
                    assert(false);
                }
            }
            return false;
        }
        let mut i: usize = 0;
        while i < en
            invariant
                i <= en,
                en == self.events@.len(),
                bn == self.buckets@.len(),
                forall|t: int|
                    0 <= t < i ==> (#[trigger] self.events_view()[t]).starttime_ns
                        <= self.events_view()[t].endtime_ns && self.events_view()[t].endtime_ns
                        - self.events_view()[t].starttime_ns <= i64::MAX,
                forall|t: int|
                    0 <= t < i ==> buckets_have_id(
                        self.buckets_view(),
                        (#[trigger] self.events_view()[t]).bucketrow,
                    ),
            decreases en - i,
        {
            let ev = &self.events[i];
            proof {
                assert(self.events_view()[i as int] == self.events@[i as int]@);
            }
            if ev.starttime_ns > ev.endtime_ns {
                proof {
                    if self.wf() {
                        assert(self.events_view()[i as int].starttime_ns
                            <= self.events_view()[i as int].endtime_ns);
                        assert(false);
                    }
                }
                return false;
            }
            if (ev.endtime_ns as i128) - (ev.starttime_ns as i128) > i64::MAX as i128 {
                proof {
                    if self.wf() {
                        assert(self.events_view()[i as int].endtime_ns
                            - self.events_view()[i as int].starttime_ns <= i64::MAX);
                        assert(false);
                    }
                }
                return false;
            }
            let mut q: usize = 0;
            let mut found: usize = bn;
            while q < bn
                invariant
                    q <= bn,
                    bn == self.buckets@.len(),
                    found == bn ==> forall|k: int|
                        0 <= k < q ==> (#[trigger] self.buckets_view()[k]).id
                            != self.events_view()[i as int].bucketrow,
                    found < bn ==> self.buckets_view()[found as int].id
                        == self.events_view()[i as int].bucketrow,
                    found == bn || found < q,
                decreases bn - q,
            {
                proof {
                    assert(self.buckets_view()[q as int] == self.buckets@[q as int]@);
                }
                if found == bn && self.buckets[q].id == ev.bucketrow {
                    found = q;
                }
                q = q + 1;
            }
            if found == bn {
                proof {
                    if self.wf() {
                        assert(buckets_have_id(
                            self.buckets_view(),
                            self.events_view()[i as int].bucketrow,
                        ));
                        let w = choose|w: int|
                            0 <= w < self.buckets_view().len() && (
                            #[trigger] self.buckets_view()[w]).id
                                == self.events_view()[i as int].bucketrow;
                        assert(false);
                    }
                }
                return false;
            }
            proof {
                assert(self.buckets_view()[found as int].id
                    == self.events_view()[i as int].bucketrow);
                assert(buckets_have_id(
                    self.buckets_view(),
                    self.events_view()[i as int].bucketrow,
                ));
            }
            i = i + 1;
        }
        // Key-value keys.
        let mut kv_keys: Vec<String> = Vec::new();
        let kn = self.key_values.len();
        let mut i: usize = 0;
        while i < kn
            invariant
                i <= kn,
                kn == self.key_values@.len(),
                kv_keys@.len() == i,
                forall|t: int| 0 <= t < i ==> (#[trigger] kv_keys@[t])@ == self.key_values@[t].key@,
            decreases kn - i,
        {
            kv_keys.push(self.key_values[i].key.clone());
            i = i + 1;
        }
        proof {
            assert forall|t: int| 0 <= t < self.key_values_view().len() implies (
            #[trigger] self.key_values_view()[t]).key == kv_keys@[t]@ by {
                assert(self.key_values_view()[t] == self.key_values@[t]@);
            }
        }
        if !strings_unique(&kv_keys) {
            proof {
                if self.wf() {
                    assert forall|a: int, b: int|
                        0 <= a < b < kv_keys@.len() implies (#[trigger] kv_keys@[a])@ != (
                    #[trigger] kv_keys@[b])@ by {
                        assert(self.key_values_view()[a].key != self.key_values_view()[b].key);
                    }
                    assert(false);
                }
            }
            return false;
        }
        // User ids, addresses and usernames.
        let mut user_ids: Vec<i64> = Vec::new();
        let mut emails: Vec<String> = Vec::new();
        let mut usernames: Vec<String> = Vec::new();
        let un = self.users.len();
        let mut i: usize = 0;
        while i < un
            invariant
                i <= un,
                un == self.users@.len(),
                user_ids@.len() == i,
                emails@.len() == i,
                usernames@.len() == i,
                forall|t: int| 0 <= t < i ==> #[trigger] user_ids@[t] == self.users@[t].id as i64,
                forall|t: int| 0 <= t < i ==> (#[trigger] emails@[t])@ == self.users@[t].email@,
                forall|t: int|
                    0 <= t < i ==> (#[trigger] usernames@[t])@ == self.users@[t].username@,
            decreases un - i,
        {
            user_ids.push(self.users[i].id as i64);
            emails.push(self.users[i].email.clone());
            usernames.push(self.users[i].username.clone());
            i = i + 1;
        }
        proof {
            assert forall|t: int| 0 <= t < self.users_view().len() implies (
            #[trigger] self.users_view()[t]).id == user_ids@[t] as int && self.users_view()[t].email
                == emails@[t]@ && self.users_view()[t].username == usernames@[t]@ by {
                assert(self.users_view()[t] == self.users@[t]@);
            }
        }
        if !ids_unique_in_range(&user_ids, i64::MIN, self.next_user_id as i64) {
            proof {
                if self.wf() {
                    assert forall|a: int, b: int|
                        0 <= a < b < user_ids@.len() implies #[trigger] user_ids@[a]
                        != #[trigger] user_ids@[b] by {
                        assert(self.users_view()[a].id != self.users_view()[b].id);
                    }
                    assert forall|a: int| 0 <= a < user_ids@.len() implies i64::MIN
                        <= #[trigger] user_ids@[a] < self.next_user_id as i64 by {
                        assert(self.users_view()[a].id < self.next_user_id as int);
                    }
                    assert(false);
                }
            }
            return false;
        }
        if !strings_unique(&emails) {
            proof {
                if self.wf() {
                    assert forall|a: int, b: int|
                        0 <= a < b < emails@.len() implies (#[trigger] emails@[a])@ != (
                    #[trigger] emails@[b])@ by {
                        assert(self.users_view()[a].email != self.users_view()[b].email);
                    }
                    assert(false);
                }
            }
            return false;
        }
        if !strings_unique(&usernames) {
            proof {
                if self.wf() {
                    assert forall|a: int, b: int|
                        0 <= a < b < usernames@.len() implies (#[trigger] usernames@[a])@ != (
                    #[trigger] usernames@[b])@ by {
                        assert(self.users_view()[a].username != self.users_view()[b].username);
                    }
                    assert(false);
                }
            }
            return false;
        }
        // Team, membership and configuration ids.
        let mut team_ids: Vec<i64> = Vec::new();
        let tn = self.teams.len();
        let mut i: usize = 0;
        while i < tn
            invariant
                i <= tn,
                tn == self.teams@.len(),
                team_ids@.len() == i,
                forall|t: int| 0 <= t < i ==> #[trigger] team_ids@[t] == self.teams@[t].id as i64,
            decreases tn - i,
        {
            team_ids.push(self.teams[i].id as i64);
            i = i + 1;
        }
        proof {
            assert forall|t: int| 0 <= t < self.teams_view().len() implies (
            #[trigger] self.teams_view()[t]).id == team_ids@[t] as int by {
                assert(self.teams_view()[t] == self.teams@[t]@);
            }
        }
        if !ids_unique_in_range(&team_ids, i64::MIN, self.next_team_id as i64) {
            proof {
                if self.wf() {
                    assert forall|a: int, b: int|
                        0 <= a < b < team_ids@.len() implies #[trigger] team_ids@[a]
                        != #[trigger] team_ids@[b] by {
                        assert(self.teams_view()[a].id != self.teams_view()[b].id);
                    }
                    assert forall|a: int| 0 <= a < team_ids@.len() implies i64::MIN
                        <= #[trigger] team_ids@[a] < self.next_team_id as i64 by {
                        assert(self.teams_view()[a].id < self.next_team_id as int);
                    }
                    assert(false);
                }
            }
            return false;
        }
        let mut membership_ids: Vec<i64> = Vec::new();
        let mn = self.teams_users.len();
        let mut i: usize = 0;
        while i < mn
            invariant
                i <= mn,
                mn == self.teams_users@.len(),
                membership_ids@.len() == i,
                forall|t: int|
                    0 <= t < i ==> #[trigger] membership_ids@[t] == self.teams_users@[t].id as i64,
            decreases mn - i,
        {
            membership_ids.push(self.teams_users[i].id as i64);
            i = i + 1;
        }
        proof {
            assert forall|t: int| 0 <= t < self.teams_users_view().len() implies (
            #[trigger] self.teams_users_view()[t]).id == membership_ids@[t] as int by {
                assert(self.teams_users_view()[t] == self.teams_users@[t]@);
            }
        }
        if !ids_unique_in_range(&membership_ids, i64::MIN, self.next_membership_id as i64) {
            proof {
                if self.wf() {
                    assert forall|a: int, b: int|
                        0 <= a < b < membership_ids@.len() implies #[trigger] membership_ids@[a]
                        != #[trigger] membership_ids@[b] by {
                        assert(self.teams_users_view()[a].id != self.teams_users_view()[b].id);
                    }
                    assert forall|a: int| 0 <= a < membership_ids@.len() implies i64::MIN
                        <= #[trigger] membership_ids@[a] < self.next_membership_id as i64 by {
                        assert(self.teams_users_view()[a].id < self.next_membership_id as int);
                    }
                    assert(false);
                }
            }
            return false;
        }
        let mut configuration_ids: Vec<i64> = Vec::new();
        let cn = self.team_configurations.len();
        let mut i: usize = 0;
        while i < cn
            invariant
                i <= cn,
                cn == self.team_configurations@.len(),
                configuration_ids@.len() == i,
                forall|t: int|
                    0 <= t < i ==> #[trigger] configuration_ids@[t]
                        == self.team_configurations@[t].id as i64,
            decreases cn - i,
        {
            configuration_ids.push(self.team_configurations[i].id as i64);
            i = i + 1;
        }
        proof {
            assert forall|t: int| 0 <= t < self.team_configurations_view().len() implies (
            #[trigger] self.team_configurations_view()[t]).id == configuration_ids@[t] as int by {
                assert(self.team_configurations_view()[t] == self.team_configurations@[t]@);
            }
        }
        if !ids_unique_in_range(&configuration_ids, i64::MIN, self.next_configuration_id as i64) {
            proof {
                if self.wf() {
                    assert forall|a: int, b: int|
                        0 <= a < b < configuration_ids@.len() implies
                        #[trigger] configuration_ids@[a] != #[trigger] configuration_ids@[b] by {
                        assert(self.team_configurations_view()[a].id
                            != self.team_configurations_view()[b].id);
                    }
                    assert forall|a: int| 0 <= a < configuration_ids@.len() implies i64::MIN
                        <= #[trigger] configuration_ids@[a]
                        < self.next_configuration_id as i64 by {
                        assert(self.team_configurations_view()[a].id
                            < self.next_configuration_id as int);
                    }
                    assert(false);
                }
            }
            return false;
        }
        // Absent tables are empty.
        if !self.schema.buckets_table && self.buckets.len() != 0 {
            return false;
        }
        if !self.schema.events_table && self.events.len() != 0 {
            return false;
        }
        if !self.schema.key_value_table && self.key_values.len() != 0 {
            return false;
        }
        if !self.schema.users_table && self.users.len() != 0 {
            return false;
        }
        if !self.schema.teams_table && self.teams.len() != 0 {
            return false;
        }
        if !self.schema.teams_users_table && self.teams_users.len() != 0 {
            return false;
        }
        if !self.schema.team_configuration_table && self.team_configurations.len() != 0 {
            return false;
        }
        proof {
            assert(bucket_table_wf(self.buckets_view(), self.next_bucket_id as int)) by {
                assert forall|a: int, b: int|
                    0 <= a < b < self.buckets_view().len() implies (
                #[trigger] self.buckets_view()[a]).id != (#[trigger] self.buckets_view()[b]).id by {
                    assert(bucket_ids@[a] != bucket_ids@[b]);
                }
                assert forall|a: int| 0 <= a < self.buckets_view().len() implies 1 <= (
                #[trigger] self.buckets_view()[a]).id < self.next_bucket_id as int by {
                    assert(1 <= bucket_ids@[a] < self.next_bucket_id);
                }
            }
            assert(event_table_wf(self.events_view(), self.next_event_id as int)) by {
                assert forall|a: int, b: int|
                    0 <= a < b < self.events_view().len() implies (
                #[trigger] self.events_view()[a]).id != (#[trigger] self.events_view()[b]).id by {
                    assert(event_ids@[a] != event_ids@[b]);
                }
                assert forall|a: int| 0 <= a < self.events_view().len() implies (
                #[trigger] self.events_view()[a]).id < self.next_event_id as int by {
                    assert(event_ids@[a] < self.next_event_id);
                }
            }
            assert(key_value_table_wf(self.key_values_view())) by {
                assert forall|a: int, b: int|
                    0 <= a < b < self.key_values_view().len() implies (
                #[trigger] self.key_values_view()[a]).key
                    != (#[trigger] self.key_values_view()[b]).key by {
                    assert(kv_keys@[a]@ != kv_keys@[b]@);
                }
            }
            assert(user_table_wf(self.users_view(), self.next_user_id as int)) by {
                assert forall|a: int, b: int|
                    0 <= a < b < self.users_view().len() implies (
                #[trigger] self.users_view()[a]).id != (#[trigger] self.users_view()[b]).id
                    && self.users_view()[a].email != self.users_view()[b].email
                    && self.users_view()[a].username != self.users_view()[b].username by {
                    assert(user_ids@[a] != user_ids@[b]);
                    assert(emails@[a]@ != emails@[b]@);
                    assert(usernames@[a]@ != usernames@[b]@);
                }
                assert forall|a: int| 0 <= a < self.users_view().len() implies (
                #[trigger] self.users_view()[a]).id < self.next_user_id as int by {
                    assert(user_ids@[a] < self.next_user_id as i64);
                }
            }
            assert(team_table_wf(self.teams_view(), self.next_team_id as int)) by {
                assert forall|a: int, b: int|
                    0 <= a < b < self.teams_view().len() implies (
                #[trigger] self.teams_view()[a]).id != (#[trigger] self.teams_view()[b]).id by {
                    assert(team_ids@[a] != team_ids@[b]);
                }
                assert forall|a: int| 0 <= a < self.teams_view().len() implies (
                #[trigger] self.teams_view()[a]).id < self.next_team_id as int by {
                    assert(team_ids@[a] < self.next_team_id as i64);
                }
            }
            assert(membership_table_wf(
                self.teams_users_view(),
                self.next_membership_id as int,
            )) by {
                assert forall|a: int, b: int|
                    0 <= a < b < self.teams_users_view().len() implies (
                #[trigger] self.teams_users_view()[a]).id
                    != (#[trigger] self.teams_users_view()[b]).id by {
                    assert(membership_ids@[a] != membership_ids@[b]);
                }
                assert forall|a: int| 0 <= a < self.teams_users_view().len() implies (
                #[trigger] self.teams_users_view()[a]).id < self.next_membership_id as int by {
                    assert(membership_ids@[a] < self.next_membership_id as i64);
                }
            }
            assert(configuration_table_wf(
                self.team_configurations_view(),
                self.next_configuration_id as int,
            )) by {
                assert forall|a: int, b: int|
                    0 <= a < b < self.team_configurations_view().len() implies (
                #[trigger] self.team_configurations_view()[a]).id
                    != (#[trigger] self.team_configurations_view()[b]).id by {
                    assert(configuration_ids@[a] != configuration_ids@[b]);
                }
                assert forall|a: int|
                    0 <= a < self.team_configurations_view().len() implies (
                #[trigger] self.team_configurations_view()[a]).id
                    < self.next_configuration_id as int by {
                    assert(configuration_ids@[a] < self.next_configuration_id as i64);
                }
            }
            assert(self.schema == Schema::spec_at_version(self.spec_version()));
            assert(self.wf());
        }
        true
    }

    /// A freshly created store: schema version 0, nothing in it.
    pub fn new() -> (r: Store)
        ensures
            r.wf(),
            r.spec_version() == 0,
            r.spec_is_empty(),
    {
        let r = Store {
            version: 0,
            schema: Schema {
                buckets_table: false,
                events_table: false,
                bucket_data_column: false,
                bucket_data_deprecated_column: false,
                key_value_table: false,
                users_table: false,
                teams_table: false,
                teams_users_table: false,
                team_configuration_table: false,
                bucket_user_id_column: false,
                event_team_id_column: false,
            },
            buckets: Vec::new(),
            events: Vec::new(),
            key_values: Vec::new(),
            users: Vec::new(),
            teams: Vec::new(),
            teams_users: Vec::new(),
            team_configurations: Vec::new(),
            next_bucket_id: 1,
            next_event_id: 1,
            next_user_id: 1,
            next_team_id: 1,
            next_membership_id: 1,
            next_configuration_id: 1,
        };
        proof {
            assert(r.schema == Schema::spec_at_version(0));
        }
        r
    }
}

} // verus!
