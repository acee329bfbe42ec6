//! The datastore worker: the one owner of a store, taking commands off a
//! queue, applying them through the repository, and deciding when the
//! ambient transaction is committed.

use vstd::prelude::*;

use crate::bucket::Bucket;
use crate::datastore::hb_cache_wf;
use crate::datastore::hb_entries_view;
use crate::datastore::hb_removed;
use crate::datastore::hb_unique;
use crate::datastore::DatastoreInstance;
use crate::datastore::LastHeartbeat;
use crate::datastore::LastHeartbeatView;
use crate::event::Event;
use crate::store::KeyValueRow;
use crate::store::Store;
use crate::team::Member;
use crate::team::Team;
use crate::team::TeamConfiguration;
use crate::team::TeamRequestModel;
use crate::team::TeamUserModel;
use crate::user::PublicUser;
use crate::user::User;
use crate::DatastoreError;

verus! {

/// How long a transaction may accumulate commands before it is committed.
pub const COMMIT_INTERVAL_NS: i64 = 15_000_000_000;

/// How many uncommitted events force a commit.
pub const COMMIT_EVENT_THRESHOLD: usize = 100;

/// One answer of the worker, shaped after the command it answers.
pub enum Response {
    Empty(),
    User(User),
    PublicUser(PublicUser),
    Users(Vec<PublicUser>),
    Members(Vec<Member>),
    Teams(Vec<Team>),
    UserTeams(Vec<TeamUserModel>),
    Team(Team),
    TeamConfiguration(TeamConfiguration),
    Bucket(Bucket),
    BucketMap(Vec<Bucket>),
    Event(Event),
    EventList(Vec<Event>),
    Count(i64),
    KeyValue(String),
    KeyValues(Vec<KeyValueRow>),
}

/// One command of the request/response protocol.  Times are nanoseconds
/// since the epoch; the heartbeat's pulsetime is in nanoseconds too.
pub enum Command {
    CreateBucket(Bucket),
    DeleteBucket(i64),
    GetBucket(i64),
    GetBuckets(i32),
    InsertEvents(i64, Vec<Event>),
    Heartbeat(i64, Event, i64),
    GetEvent(i64, i64),
    GetEvents(i64, Option<i64>, Option<i64>, Option<u64>),
    GetUserEvents(i64, Option<i64>, Option<i64>, Option<u64>, Option<i32>),
    GetEventCount(i64, Option<i64>, Option<i64>),
    DeleteEventsById(i64, Vec<i64>),
    ForceCommit(),
    GetKeyValues(String),
    GetKeyValue(String),
    SetKeyValue(String, String),
    DeleteKeyValue(String),
    Close(),
    GetUser(i32),
    GetUserByEmail(String),
    AddUser(User),
    GetTeams(i32),
    AddTeam(TeamRequestModel, i32),
    GetTeamMembersCount(i32),
    GetTeam(i32),
    GetAllUsers(),
    GetMembersOfTeam(i32),
    AddMembers(i32, Vec<i32>),
    RemoveMember(i32, i32),
    GetUserTeams(i32),
    AddTeamConfiguration(i32, String),
    UpdateTeamConfiguration(i32, String),
    GetTeamConfiguration(i32),
}

/// The response shape each command is answered with.
pub open spec fn response_fits(request: Command, resp: Response) -> bool {
    match request {
        Command::CreateBucket(..) => resp is Count,
        Command::DeleteBucket(..) => resp is Empty,
        Command::GetBucket(..) => resp is Bucket,
        Command::GetBuckets(..) => resp is BucketMap,
        Command::InsertEvents(..) => resp is EventList,
        Command::Heartbeat(..) => resp is Event,
        Command::GetEvent(..) => resp is Event,
        Command::GetEvents(..) => resp is EventList,
        Command::GetUserEvents(..) => resp is EventList,
        Command::GetEventCount(..) => resp is Count,
        Command::DeleteEventsById(..) => resp is Empty,
        Command::ForceCommit() => resp is Empty,
        Command::GetKeyValues(..) => resp is KeyValues,
        Command::GetKeyValue(..) => resp is KeyValue,
        Command::SetKeyValue(..) => resp is Empty,
        Command::DeleteKeyValue(..) => resp is Empty,
        Command::Close() => resp is Empty,
        Command::GetUser(..) => resp is PublicUser,
        Command::GetUserByEmail(..) => resp is User,
        Command::AddUser(..) => resp is PublicUser,
        Command::GetTeams(..) => resp is Teams,
        Command::AddTeam(..) => resp is Empty,
        Command::GetTeamMembersCount(..) => resp is Count,
        Command::GetTeam(..) => resp is Team,
        Command::GetAllUsers() => resp is Users,
        Command::GetMembersOfTeam(..) => resp is Members,
        Command::AddMembers(..) => resp is Empty,
        Command::RemoveMember(..) => resp is Empty,
        Command::GetUserTeams(..) => resp is UserTeams,
        Command::AddTeamConfiguration(..) => resp is Empty,
        Command::UpdateTeamConfiguration(..) => resp is Empty,
        Command::GetTeamConfiguration(..) => resp is TeamConfiguration,
    }
}


/// Everything one command does: the repository call's own contract over the
/// worker's store and cache, the reply built from the call's result, a
/// repository error forwarded unchanged, and the fields the arm touches.
pub open spec fn handle_request_post(
    pre: DatastoreWorker,
    post: DatastoreWorker,
    request: Command,
    r: Result<Response, DatastoreError>,
) -> bool {
    match request {
        Command::CreateBucket(bucket) => {
            &&& post == (DatastoreWorker {
                ds: post.ds,
                store: post.store,
                commit: post.commit,
                ..pre
            })
            &&& exists|rr: Result<i64, DatastoreError>|
                #![auto]
                crate::datastore::create_bucket_ensures(
                    pre.ds,
                    pre.store,
                    post.ds,
                    post.store,
                    bucket@,
                    rr,
                ) && match rr {
                    Ok(id) => r == Ok::<Response, DatastoreError>(Response::Count(id)),
                    Err(e) => r == Err::<Response, DatastoreError>(e),
                }
        },
        Command::DeleteBucket(bucket_id) => {
            &&& post == (DatastoreWorker {
                ds: post.ds,
                store: post.store,
                commit: post.commit,
                ..pre
            })
            &&& exists|rr: Result<(), DatastoreError>|
                #![auto]
                crate::datastore::delete_bucket_ensures(
                    pre.ds,
                    pre.store,
                    post.ds,
                    post.store,
                    bucket_id as int,
                    rr,
                ) && match rr {
                    Ok(u) => r == Ok::<Response, DatastoreError>(Response::Empty()),
                    Err(e) => r == Err::<Response, DatastoreError>(e),
                }
        },
        Command::GetBucket(bucket_id) => {
            &&& post == pre
            &&& (r is Err) == !crate::datastore::cache_has_bucket(
                pre.ds.cache_view(),
                bucket_id as int,
            )
            &&& (r matches Err(e) ==> e is NoSuchBucket)
            &&& (r matches Ok(resp) ==> (resp matches Response::Bucket(b) && b@.bid
                == bucket_id as int && exists|i: int|
                0 <= i < pre.ds.cache_view().len() && #[trigger] pre.ds.cache_view()[i] == b@))
        },
        Command::GetBuckets(user_id) => {
            &&& post == pre
            &&& r is Ok
            &&& (r matches Ok(resp) ==> (resp matches Response::BucketMap(buckets)
                && buckets@.map_values(|b: Bucket| b@) == pre.ds.cache_view().filter(
                |b: crate::bucket::BucketView| b.user_id == user_id as int,
            )))
        },
        Command::InsertEvents(bucket_id, events) => {
            &&& post == (DatastoreWorker {
                ds: post.ds,
                store: post.store,
                uncommitted_events: post.uncommitted_events,
                last_heartbeat: post.last_heartbeat,
                ..pre
            })
            &&& ({
                let evs = events@.map_values(|e: Event| e@);
                exists|rr: Result<Vec<Event>, DatastoreError>|
                    #![trigger crate::datastore::insert_events_ensures(
                        pre.ds,
                        pre.store,
                        post.ds,
                        post.store,
                        bucket_id as int,
                        evs,
                        rr,
                    )]
                    crate::datastore::insert_events_ensures(
                        pre.ds,
                        pre.store,
                        post.ds,
                        post.store,
                        bucket_id as int,
                        evs,
                        rr,
                    ) && match rr {
                    Ok(out) => {
                        &&& r == Ok::<Response, DatastoreError>(Response::EventList(out))
                        &&& post.uncommitted_events as int == (if pre.uncommitted_events as int
                            + out@.len() > usize::MAX as int {
                            usize::MAX as int
                        } else {
                            pre.uncommitted_events as int + out@.len()
                        })
                        &&& exists|mid: Seq<LastHeartbeatView>|
                            #![auto]
                            hb_removed(
                                hb_entries_view(pre.last_heartbeat@),
                                bucket_id as int,
                                mid,
                            ) && hb_entries_view(post.last_heartbeat@) == mid.push(
                                (LastHeartbeatView {
                                    bucket_id: bucket_id as int,
                                    event: None,
                                }),
                            )
                    },
                    Err(e) => r == Err::<Response, DatastoreError>(e) && post.uncommitted_events
                        == pre.uncommitted_events && post.last_heartbeat@ == pre.last_heartbeat@,
                }
            })
        },
        Command::Heartbeat(bucket_id, event, pulsetime_ns) => {
            &&& post == (DatastoreWorker {
                ds: post.ds,
                store: post.store,
                uncommitted_events: post.uncommitted_events,
                last_heartbeat: post.last_heartbeat,
                ..pre
            })
            &&& exists|rr: Result<Event, DatastoreError>|
                #![auto]
                crate::datastore::heartbeat_ensures(
                    pre.ds,
                    pre.store,
                    post.ds,
                    post.store,
                    bucket_id as int,
                    event@,
                    pulsetime_ns as int,
                    hb_entries_view(pre.last_heartbeat@),
                    hb_entries_view(post.last_heartbeat@),
                    rr,
                ) && match rr {
                    Ok(ev) => r == Ok::<Response, DatastoreError>(Response::Event(ev))
                        && post.uncommitted_events as int == (if pre.uncommitted_events as int + 1
                        > usize::MAX as int {
                        usize::MAX as int
                    } else {
                        pre.uncommitted_events as int + 1
                    }),
                    Err(e) => r == Err::<Response, DatastoreError>(e) && post.uncommitted_events
                        == pre.uncommitted_events,
                }
        },
        Command::GetEvent(bucket_id, event_id) => {
            &&& post == pre
            &&& (!crate::datastore::cache_has_bucket(pre.ds.cache_view(), bucket_id as int) ==> (
            r matches Err(e) && e is NoSuchBucket))
            &&& (crate::datastore::cache_has_bucket(pre.ds.cache_view(), bucket_id as int)
                ==> match r {
                Ok(resp) => resp matches Response::Event(ev) && (exists|j: int|
                    0 <= j < pre.store.events_view().len() && (
                    #[trigger] pre.store.events_view()[j]).id == event_id as int
                        && pre.store.events_view()[j].bucketrow == bucket_id as int && ev@
                        == crate::datastore::event_of_row(pre.store.events_view()[j])),
                Err(e) => e is InternalError && (forall|j: int|
                    0 <= j < pre.store.events_view().len() ==> !((
                    #[trigger] pre.store.events_view()[j]).id == event_id as int
                        && pre.store.events_view()[j].bucketrow == bucket_id as int)),
            })
        },
        Command::GetEvents(bucket_id, starttime_opt, endtime_opt, limit_opt) => {
            &&& post == pre
            &&& (r is Err) == !crate::datastore::cache_has_bucket(
                pre.ds.cache_view(),
                bucket_id as int,
            )
            &&& (r matches Err(e) ==> e is NoSuchBucket)
            &&& (r matches Ok(resp) ==> (resp matches Response::EventList(out) && ({
                let s = crate::datastore::spec_window_start(starttime_opt);
                let e = crate::datastore::spec_window_end(endtime_opt);
                if s > e {
                    out@.len() == 0
                } else {
                    crate::datastore::events_query_post(
                        pre.store.events_view(),
                        bucket_id as int,
                        s,
                        e,
                        limit_opt,
                        None,
                        out@.map_values(|ev: Event| ev@),
                    )
                }
            })))
        },
        Command::GetUserEvents(bucket_id, starttime_opt, endtime_opt, limit_opt, team_id) => {
            &&& post == pre
            &&& (r is Err) == !crate::datastore::cache_has_bucket(
                pre.ds.cache_view(),
                bucket_id as int,
            )
            &&& (r matches Err(e) ==> e is NoSuchBucket)
            &&& (r matches Ok(resp) ==> (resp matches Response::EventList(out) && ({
                let s = crate::datastore::spec_window_start(starttime_opt);
                let e = crate::datastore::spec_window_end(endtime_opt);
                let team = match team_id {
                    Some(t) => t as int,
                    None => -1,
                };
                if s > e {
                    out@.len() == 0
                } else {
                    crate::datastore::events_query_post(
                        pre.store.events_view(),
                        bucket_id as int,
                        s,
                        e,
                        limit_opt,
                        Some(team),
                        out@.map_values(|ev: Event| ev@),
                    )
                }
            })))
        },
        Command::GetEventCount(bucket_id, starttime_opt, endtime_opt) => {
            &&& post == pre
            &&& (r is Err) == !crate::datastore::cache_has_bucket(
                pre.ds.cache_view(),
                bucket_id as int,
            )
            &&& (r matches Err(e) ==> e is NoSuchBucket)
            &&& (r matches Ok(resp) ==> (resp matches Response::Count(count) && ({
                let s = crate::datastore::spec_window_start(starttime_opt);
                let e = crate::datastore::spec_window_end(endtime_opt);
                if s >= e {
                    count == 0
                } else {
                    ({
                        let n = crate::datastore::window_matches(
                            pre.store.events_view(),
                            bucket_id as int,
                            s,
                            e,
                            None,
                        ).len() as int;
                        count as int == if n > i64::MAX as int {
                            i64::MAX as int
                        } else {
                            n
                        }
                    })
                }
            })))
        },
        Command::DeleteEventsById(bucket_id, event_ids) => {
            &&& post == (DatastoreWorker { store: post.store, ..pre })
            &&& (!crate::datastore::cache_has_bucket(pre.ds.cache_view(), bucket_id as int) ==> (
            r matches Err(e) && e is NoSuchBucket) && post.store == pre.store)
            &&& (crate::datastore::cache_has_bucket(pre.ds.cache_view(), bucket_id as int) ==> r
                == Ok::<Response, DatastoreError>(Response::Empty()) && post.store == (Store {
                events: post.store.events,
                ..pre.store
            }) && post.store.events_view() == pre.store.events_view().filter(
                |row: crate::store::EventRowView|
                    !(row.bucketrow == bucket_id as int && event_ids@.map_values(
                        |id: i64| id as int,
                    ).contains(row.id)),
            ))
        },
        Command::ForceCommit() => {
            &&& post == (DatastoreWorker { commit: true, ..pre })
            &&& r == Ok::<Response, DatastoreError>(Response::Empty())
        },
        Command::GetKeyValues(pattern) => {
            &&& post == pre
            &&& r is Ok
            &&& (r matches Ok(resp) ==> (resp matches Response::KeyValues(rows)
                && rows@.map_values(|row: KeyValueRow| row@) == pre.store.key_values_view().filter(
                |row: crate::store::KeyValueRowView|
                    crate::text::spec_like_match(pattern@, row.key)
                        && crate::datastore::is_settings_key(row.key),
            )))
        },
        Command::GetKeyValue(key) => {
            &&& post == pre
            &&& match r {
                Ok(resp) => resp matches Response::KeyValue(value) && (exists|i: int|
                    0 <= i < pre.store.key_values_view().len() && (
                    #[trigger] pre.store.key_values_view()[i]).key == key@
                        && pre.store.key_values_view()[i].value == value@),
                Err(e) => e is NoSuchKey && (forall|i: int|
                    0 <= i < pre.store.key_values_view().len() ==> (
                    #[trigger] pre.store.key_values_view()[i]).key != key@),
            }
        },
        Command::SetKeyValue(key, data) => {
            &&& post == (DatastoreWorker { store: post.store, ..pre })
            &&& r == Ok::<Response, DatastoreError>(Response::Empty())
            &&& post.store == (Store { key_values: post.store.key_values, ..pre.store })
            &&& exists|stamp: int|
                #![auto]
                post.store.key_values_view() == pre.store.key_values_view().filter(
                    |row: crate::store::KeyValueRowView| row.key != key@,
                ).push(
                    crate::store::KeyValueRowView {
                        key: key@,
                        value: data@,
                        last_modified: stamp,
                    },
                )
        },
        Command::DeleteKeyValue(key) => {
            &&& post == (DatastoreWorker { store: post.store, ..pre })
            &&& r == Ok::<Response, DatastoreError>(Response::Empty())
            &&& post.store == (Store { key_values: post.store.key_values, ..pre.store })
            &&& post.store.key_values_view() == pre.store.key_values_view().filter(
                |row: crate::store::KeyValueRowView| row.key != key@,
            )
        },
        Command::Close() => {
            &&& post == (DatastoreWorker { quit: true, ..pre })
            &&& r == Ok::<Response, DatastoreError>(Response::Empty())
        },
        Command::GetUser(user_id) => {
            &&& post == pre
            &&& match r {
                Ok(resp) => resp matches Response::PublicUser(p) && (exists|i: int|
                    0 <= i < pre.store.users_view().len() && (
                    #[trigger] pre.store.users_view()[i]).id == user_id as int && p@
                        == crate::user::public_view_of(pre.store.users_view()[i])),
                Err(e) => e is NoUser && (forall|i: int|
                    0 <= i < pre.store.users_view().len() ==> (
                    #[trigger] pre.store.users_view()[i]).id != user_id as int),
            }
        },
        Command::GetUserByEmail(email) => {
            &&& post == pre
            &&& match r {
                Ok(resp) => resp matches Response::User(u) && (exists|i: int|
                    0 <= i < pre.store.users_view().len() && (
                    #[trigger] pre.store.users_view()[i]).email == email@ && u@
                        == pre.store.users_view()[i]),
                Err(e) => e is NoUser && (forall|i: int|
                    0 <= i < pre.store.users_view().len() ==> (
                    #[trigger] pre.store.users_view()[i]).email != email@),
            }
        },
        Command::AddUser(user) => {
            &&& post == (DatastoreWorker { store: post.store, ..pre })
            &&& post.store == (Store {
                users: post.store.users,
                next_user_id: post.store.next_user_id,
                ..pre.store
            })
            &&& ((exists|i: int|
                0 <= i < pre.store.users_view().len() && ((
                #[trigger] pre.store.users_view()[i]).email == user@.email
                    || pre.store.users_view()[i].username == user@.username)) ==> (r matches Err(
                e,
            ) && e is InternalError) && post.store == pre.store)
            &&& ((forall|i: int|
                0 <= i < pre.store.users_view().len() ==> (
                #[trigger] pre.store.users_view()[i]).email != user@.email
                    && pre.store.users_view()[i].username != user@.username)
                && pre.store.next_user_id < i32::MAX ==> ({
                &&& (r matches Ok(resp) && resp matches Response::PublicUser(p) && p@
                    == crate::user::public_view_of(user@))
                &&& post.store.users_view() == pre.store.users_view().push(
                    (crate::user::UserView {
                        id: pre.store.next_user_id as int,
                        role: 2,
                        ..user@
                    }),
                )
                &&& post.store.next_user_id == pre.store.next_user_id + 1
            }))
        },
        Command::GetTeams(owner_id) => {
            &&& post == pre
            &&& r is Ok
            &&& (r matches Ok(resp) ==> (resp matches Response::Teams(teams)
                && teams@.map_values(|t: Team| t@) == pre.store.teams_view().filter(
                |t: crate::team::TeamView| t.ownerId == owner_id as int,
            )))
        },
        Command::AddTeam(team, owner_id) => {
            &&& post == (DatastoreWorker { store: post.store, ..pre })
            &&& post.store == (Store {
                teams: post.store.teams,
                next_team_id: post.store.next_team_id,
                ..pre.store
            })
            &&& (pre.store.next_team_id == i32::MAX ==> (r matches Err(e) && e is InternalError)
                && post.store == pre.store)
            &&& (pre.store.next_team_id < i32::MAX ==> ({
                &&& r == Ok::<Response, DatastoreError>(Response::Empty())
                &&& post.store.teams_view() == pre.store.teams_view().push(
                    (crate::team::TeamView {
                        id: pre.store.next_team_id as int,
                        name: team@.name,
                        description: team@.description,
                        ownerId: owner_id as int,
                    }),
                )
                &&& post.store.next_team_id == pre.store.next_team_id + 1
            }))
        },
        Command::GetTeamMembersCount(team_id) => {
            &&& post == pre
            &&& r is Ok
            &&& (r matches Ok(resp) ==> (resp matches Response::Count(count) && ({
                let n = pre.store.teams_users_view().filter(
                    |tu: crate::store::TeamUserRowView| tu.team_id == team_id as int,
                ).len() as int;
                count as int == if n > i64::MAX as int {
                    i64::MAX as int
                } else {
                    n
                }
            })))
        },
        Command::GetTeam(team_id) => {
            &&& post == pre
            &&& match r {
                Ok(resp) => resp matches Response::Team(t) && (exists|i: int|
                    0 <= i < pre.store.teams_view().len() && (
                    #[trigger] pre.store.teams_view()[i]).id == team_id as int && t@
                        == pre.store.teams_view()[i]),
                Err(e) => e is NoUser && (forall|i: int|
                    0 <= i < pre.store.teams_view().len() ==> (
                    #[trigger] pre.store.teams_view()[i]).id != team_id as int),
            }
        },
        Command::GetAllUsers() => {
            &&& post == pre
            &&& r is Ok
            &&& (r matches Ok(resp) ==> (resp matches Response::Users(users)
                && users@.map_values(|p: PublicUser| p@) == pre.store.users_view().filter(
                |u: crate::user::UserView| u.role == 2,
            ).map_values(|u: crate::user::UserView| crate::user::public_view_of(u))))
        },
        Command::GetMembersOfTeam(team_id) => {
            &&& post == pre
            &&& r is Ok
            &&& (r matches Ok(resp) ==> (resp matches Response::Members(members)
                && members@.map_values(|mb: Member| mb@) == pre.store.teams_users_view().filter(
                |tu: crate::store::TeamUserRowView|
                    tu.team_id == team_id as int && crate::datastore::spec_user_by_id(
                        pre.store.users_view(),
                        tu.user_id,
                    ) is Some,
            ).map_values(
                |tu: crate::store::TeamUserRowView|
                    crate::datastore::member_of(
                        tu,
                        crate::datastore::spec_user_by_id(pre.store.users_view(), tu.user_id)->0,
                    ),
            )))
        },
        Command::AddMembers(team_id, members) => {
            &&& post == (DatastoreWorker { store: post.store, ..pre })
            &&& post.store == (Store {
                teams_users: post.store.teams_users,
                next_membership_id: post.store.next_membership_id,
                ..pre.store
            })
            &&& r == Ok::<Response, DatastoreError>(Response::Empty())
            &&& (pre.store.next_membership_id + members@.len() <= i32::MAX ==> ({
                &&& post.store.teams_users_view() == pre.store.teams_users_view() + Seq::new(
                    members@.len() as nat,
                    |k: int|
                        crate::store::TeamUserRowView {
                            id: pre.store.next_membership_id + k,
                            team_id: team_id as int,
                            user_id: members@[k] as int,
                        },
                )
                &&& post.store.next_membership_id == pre.store.next_membership_id
                    + members@.len()
            }))
        },
        Command::RemoveMember(team_id, member_id) => {
            &&& post == (DatastoreWorker { store: post.store, ..pre })
            &&& post.store == (Store { teams_users: post.store.teams_users, ..pre.store })
            &&& r == Ok::<Response, DatastoreError>(Response::Empty())
            &&& post.store.teams_users_view() == pre.store.teams_users_view().filter(
                |tu: crate::store::TeamUserRowView| tu.id != member_id as int,
            )
        },
        Command::GetUserTeams(user_id) => {
            &&& post == pre
            &&& r is Ok
            &&& (r matches Ok(resp) ==> (resp matches Response::UserTeams(listings)
                && listings@.map_values(|tm: TeamUserModel| tm@)
                == pre.store.teams_users_view().filter(
                |tu: crate::store::TeamUserRowView|
                    tu.user_id == user_id as int && crate::datastore::spec_team_by_id(
                        pre.store.teams_view(),
                        tu.team_id,
                    ) is Some,
            ).map_values(
                |tu: crate::store::TeamUserRowView|
                    crate::datastore::team_listing_of(
                        crate::datastore::spec_team_by_id(pre.store.teams_view(), tu.team_id)->0,
                    ),
            )))
        },
        Command::AddTeamConfiguration(team_id, apps) => {
            &&& post == (DatastoreWorker { store: post.store, ..pre })
            &&& post.store == (Store {
                team_configurations: post.store.team_configurations,
                next_configuration_id: post.store.next_configuration_id,
                ..pre.store
            })
            &&& (pre.store.next_configuration_id == i32::MAX ==> (r matches Err(e)
                && e is InternalError) && post.store == pre.store)
            &&& (pre.store.next_configuration_id < i32::MAX ==> ({
                &&& r == Ok::<Response, DatastoreError>(Response::Empty())
                &&& post.store.team_configurations_view()
                    == pre.store.team_configurations_view().push(
                    (crate::store::TeamConfigurationRowView {
                        id: pre.store.next_configuration_id as int,
                        team_id: team_id as int,
                        apps: apps@,
                    }),
                )
                &&& post.store.next_configuration_id == pre.store.next_configuration_id + 1
            }))
        },
        Command::UpdateTeamConfiguration(team_id, apps) => {
            &&& post == (DatastoreWorker { store: post.store, ..pre })
            &&& post.store == (Store {
                team_configurations: post.store.team_configurations,
                ..pre.store
            })
            &&& r == Ok::<Response, DatastoreError>(Response::Empty())
            &&& post.store.team_configurations_view().len()
                == pre.store.team_configurations_view().len()
            &&& forall|j: int|
                0 <= j < pre.store.team_configurations_view().len()
                    ==> #[trigger] post.store.team_configurations_view()[j] == (if pre.store.team_configurations_view()[j].team_id
                    == team_id as int {
                    crate::store::TeamConfigurationRowView {
                        apps: apps@,
                        ..pre.store.team_configurations_view()[j]
                    }
                } else {
                    pre.store.team_configurations_view()[j]
                })
        },
        Command::GetTeamConfiguration(team_id) => {
            &&& post == pre
            &&& match r {
                Ok(resp) => resp matches Response::TeamConfiguration(cfg) && (exists|i: int|
                    {
                        &&& 0 <= i < pre.store.team_configurations_view().len()
                        &&& (#[trigger] pre.store.team_configurations_view()[i]).team_id
                            == team_id as int
                        &&& (forall|k: int|
                            0 <= k < i ==> (
                            #[trigger] pre.store.team_configurations_view()[k]).team_id
                                != team_id as int)
                        &&& cfg@.id == pre.store.team_configurations_view()[i].id
                        &&& cfg@.team_id == pre.store.team_configurations_view()[i].team_id
                        &&& cfg@.apps == (if pre.store.team_configurations_view()[i].apps.len()
                            > 0 {
                            crate::text::spec_split_commas(
                                pre.store.team_configurations_view()[i].apps,
                            )
                        } else {
                            Seq::<Seq<char>>::empty()
                        })
                    }),
                Err(e) => e is InternalError && (forall|i: int|
                    0 <= i < pre.store.team_configurations_view().len() ==> (
                    #[trigger] pre.store.team_configurations_view()[i]).team_id
                        != team_id as int),
            }
        },
    }
}

/// Whether a command only reads: it leaves the store as it is.
pub open spec fn is_read_command(request: Command) -> bool {
    match request {
        Command::GetBucket(..) => true,
        Command::GetBuckets(..) => true,
        Command::GetEvent(..) => true,
        Command::GetEvents(..) => true,
        Command::GetUserEvents(..) => true,
        Command::GetEventCount(..) => true,
        Command::ForceCommit() => true,
        Command::GetKeyValues(..) => true,
        Command::GetKeyValue(..) => true,
        Command::Close() => true,
        Command::GetUser(..) => true,
        Command::GetUserByEmail(..) => true,
        Command::GetTeams(..) => true,
        Command::GetTeamMembersCount(..) => true,
        Command::GetTeam(..) => true,
        Command::GetAllUsers() => true,
        Command::GetMembersOfTeam(..) => true,
        Command::GetUserTeams(..) => true,
        Command::GetTeamConfiguration(..) => true,
        _ => false,
    }
}

/// The worker: the store and repository it owns exclusively, the commit
/// bookkeeping, and the last-heartbeat cache.
pub struct DatastoreWorker {
    pub ds: DatastoreInstance,
    pub store: Store,
    pub legacy_import: bool,
    pub quit: bool,
    pub uncommitted_events: usize,
    pub commit: bool,
    pub last_heartbeat: Vec<LastHeartbeat>,
}

impl DatastoreWorker {
    /// The worker's invariant: the repository is sound against its store,
    /// the store is at the current version, and the last-heartbeat cache is
    /// sound.
    pub open spec fn wf(&self) -> bool {
        &&& self.ds.wf(self.store)
        &&& self.store.spec_version() == 5
        &&& hb_unique(hb_entries_view(self.last_heartbeat@))
        &&& hb_cache_wf(hb_entries_view(self.last_heartbeat@))
    }

    /// Take ownership of a store, migrate it, and stand up the worker.
    pub fn new(store: Store, legacy_import: bool) -> (r: Result<DatastoreWorker, DatastoreError>)
        requires
            store.wf(),
            store.spec_version() < 5 ==> store.next_user_id < i32::MAX,
        ensures
            r is Ok,
            r matches Ok(w) ==> w.wf() && !w.quit && !w.commit && w.uncommitted_events == 0
                && w.legacy_import == legacy_import && w.ds.first_init == (store.spec_version()
                == 0),
    {
        let mut owned = store;
        let ds = match DatastoreInstance::new(&mut owned, true) {
            Ok(ds) => ds,
            Err(e) => {
                return Err(e);
            },
        };
        Ok(
            DatastoreWorker {
                ds,
                store: owned,
                legacy_import,
                quit: false,
                uncommitted_events: 0,
                commit: false,
                last_heartbeat: Vec::new(),
            },
        )
    }

    /// Whether the ambient transaction is due: an explicit commit was
    /// requested, the commit interval has passed, too many events are
    /// uncommitted, or the worker is shutting down.
    pub fn should_commit(&self, now_ns: i64, last_commit_ns: i64) -> (r: bool)
        ensures
            r == (self.commit || (now_ns as int - last_commit_ns as int > COMMIT_INTERVAL_NS as int)
                || self.uncommitted_events > COMMIT_EVENT_THRESHOLD || self.quit),
    {
        let interval_passed = (now_ns as i128 - last_commit_ns as i128) > COMMIT_INTERVAL_NS as i128;
        self.commit || interval_passed || self.uncommitted_events > COMMIT_EVENT_THRESHOLD
            || self.quit
    }

    /// Start a fresh transaction cycle: nothing uncommitted, no commit due.
    pub fn mark_committed(&mut self)
        ensures
            *final(self) == (DatastoreWorker {
                uncommitted_events: 0,
                commit: false,
                ..*old(self)
            }),
    {
        self.uncommitted_events = 0;
        self.commit = false;
    }

    /// Clear the bucket's last-heartbeat slot, so the next heartbeat
    /// resolves against the store.
    #[verifier::loop_isolation(false)]
    fn invalidate_heartbeat(&mut self, bucket_id: i64)
        requires
            hb_unique(hb_entries_view(old(self).last_heartbeat@)),
            hb_cache_wf(hb_entries_view(old(self).last_heartbeat@)),
        ensures
            *final(self) == (DatastoreWorker {
                last_heartbeat: final(self).last_heartbeat,
                ..*old(self)
            }),
            hb_unique(hb_entries_view(final(self).last_heartbeat@)),
            hb_cache_wf(hb_entries_view(final(self).last_heartbeat@)),
            exists|mid: Seq<LastHeartbeatView>|
                #![auto]
                hb_removed(hb_entries_view(old(self).last_heartbeat@), bucket_id as int, mid)
                    && hb_entries_view(final(self).last_heartbeat@) == mid.push(
                    (LastHeartbeatView { bucket_id: bucket_id as int, event: None }),
                ),
    {
        let ghost lhv = hb_entries_view(self.last_heartbeat@);
        let hn = self.last_heartbeat.len();
        let mut pos: usize = hn;
        let mut h: usize = 0;
        while h < hn
            invariant
                h <= hn,
                hn == self.last_heartbeat@.len(),
                pos == hn ==> forall|k: int|
                    0 <= k < h ==> (#[trigger] hb_entries_view(self.last_heartbeat@)[k]).bucket_id
                        != bucket_id as int,
                pos < hn ==> hb_entries_view(self.last_heartbeat@)[pos as int].bucket_id
                    == bucket_id as int,
                pos == hn || pos < h,
            decreases hn - h,
        {
            if pos == hn && self.last_heartbeat[h].bucket_id == bucket_id {
                pos = h;
                proof {
                    assert(hb_entries_view(self.last_heartbeat@)[h as int]
                        == self.last_heartbeat@[h as int]@);
                }
            }
            h = h + 1;
        }
        if pos < hn {
            self.last_heartbeat.remove(pos);
            proof {
                lhv.remove_ensures(pos as int);
                assert forall|k: int|
                    0 <= k < hb_entries_view(self.last_heartbeat@).len() implies #[trigger] hb_entries_view(
                    self.last_heartbeat@,
                )[k] == lhv.remove(pos as int)[k] by {
                    if k < pos as int {
                        assert(self.last_heartbeat@[k] == old(self).last_heartbeat@[k]);
                    } else {
                        assert(self.last_heartbeat@[k] == old(self).last_heartbeat@[k + 1]);
                    }
                }
                assert(hb_entries_view(self.last_heartbeat@) =~= lhv.remove(pos as int));
            }
        }
        let slot = LastHeartbeat { bucket_id, event: None };
        let ghost mid = hb_entries_view(self.last_heartbeat@);
        proof {
            assert(hb_removed(lhv, bucket_id as int, mid)) by {
                if pos < hn {
                    assert(lhv[pos as int].bucket_id == bucket_id as int);
                } else {
                    assert(!crate::datastore::hb_found(lhv, bucket_id as int));
                }
            }
            assert(hb_unique(mid) && hb_cache_wf(mid)) by {
                if pos < hn {
                    lhv.remove_ensures(pos as int);
                }
            }
            assert forall|k: int| 0 <= k < mid.len() implies (#[trigger] mid[k]).bucket_id
                != bucket_id as int by {
                if pos < hn {
                    lhv.remove_ensures(pos as int);
                    if k < pos as int {
                        assert(mid[k] == lhv[k]);
                    } else {
                        assert(mid[k] == lhv[k + 1]);
                    }
                }
            }
        }
        self.last_heartbeat.push(slot);
        proof {
            assert(hb_entries_view(self.last_heartbeat@) =~= mid.push(
                (crate::datastore::LastHeartbeatView {
                    bucket_id: bucket_id as int,
                    event: None,
                }),
            ));
            let full = hb_entries_view(self.last_heartbeat@);
            assert forall|a: int, b: int| 0 <= a < b < full.len() implies (
            #[trigger] full[a]).bucket_id != (#[trigger] full[b]).bucket_id by {
                if b == full.len() - 1 {
                    assert(full[a] == mid[a]);
                } else {
                    assert(full[a] == mid[a]);
                    assert(full[b] == mid[b]);
                }
            }
            assert forall|a: int| 0 <= a < full.len() implies ((#[trigger] full[a]).event
                matches Some(ev) ==> 0 <= ev.duration_ns && ev.endtime_ns() <= i64::MAX) by {
                if a < mid.len() {
                    assert(full[a] == mid[a]);
                }
            }
        }
    }

    /// Apply one command to the store through the repository, forward its
    /// result, and keep the commit bookkeeping: bucket creation and
    /// deletion and an explicit flush request a commit, written events are
    /// counted, and a close request sets the quit flag.
    #[verifier::rlimit(100)]
    pub fn handle_request(&mut self, request: Command) -> (r: Result<Response, DatastoreError>)
        requires
            old(self).wf(),
        ensures
            final(self).wf(),
            final(self).legacy_import == old(self).legacy_import,
            final(self).quit == (old(self).quit || request is Close),
            final(self).commit == (old(self).commit || request is ForceCommit || (
            request is CreateBucket && r is Ok) || (request is DeleteBucket && r is Ok)),
            !(request is InsertEvents) && !(request is Heartbeat) ==> final(self).uncommitted_events == old(self).uncommitted_events,
            is_read_command(request) ==> final(self).store == old(self).store,
            (request is ForceCommit || request is Close) ==> (r matches Ok(resp)
                && resp is Empty),
            r matches Ok(resp) ==> response_fits(request, resp),
            handle_request_post(*old(self), *final(self), request, r),
    {
        match request {
            Command::CreateBucket(bucket) => {
                let res = self.ds.create_bucket(&mut self.store, bucket);
                match res {
                    Ok(id) => {
                        self.commit = true;
                        Ok(Response::Count(id))
                    },
                    Err(e) => Err(e),
                }
            },
            Command::DeleteBucket(bucket_id) => {
                let res = self.ds.delete_bucket(&mut self.store, bucket_id);
                match res {
                    Ok(()) => {
                        self.commit = true;
                        Ok(Response::Empty())
                    },
                    Err(e) => Err(e),
                }
            },
            Command::GetBucket(bucket_id) => {
                match self.ds.get_bucket(bucket_id) {
                    Ok(b) => Ok(Response::Bucket(b)),
                    Err(e) => Err(e),
                }
            },
            Command::GetBuckets(user_id) => {
                let buckets = self.ds.get_buckets(&self.store, user_id);
                Ok(Response::BucketMap(buckets))
            },
            Command::InsertEvents(bucket_id, events) => {
                let res = self.ds.insert_events(&mut self.store, bucket_id, events);
                match res {
                    Ok(events) => {
                        let n = events.len();
                        if self.uncommitted_events > usize::MAX - n {
                            self.uncommitted_events = usize::MAX;
                        } else {
                            self.uncommitted_events = self.uncommitted_events + n;
                        }
                        self.invalidate_heartbeat(bucket_id);
                        Ok(Response::EventList(events))
                    },
                    Err(e) => Err(e),
                }
            },
            Command::Heartbeat(bucket_id, event, pulsetime_ns) => {
                let res = self.ds.heartbeat(
                    &mut self.store,
                    bucket_id,
                    event,
                    pulsetime_ns,
                    &mut self.last_heartbeat,
                );
                match res {
                    Ok(ev) => {
                        if self.uncommitted_events < usize::MAX {
                            self.uncommitted_events = self.uncommitted_events + 1;
                        }
                        Ok(Response::Event(ev))
                    },
                    Err(e) => Err(e),
                }
            },
            Command::GetEvent(bucket_id, event_id) => {
                match self.ds.get_event(&self.store, bucket_id, event_id) {
                    Ok(ev) => Ok(Response::Event(ev)),
                    Err(e) => Err(e),
                }
            },
            Command::GetEvents(bucket_id, starttime_opt, endtime_opt, limit_opt) => {
                match self.ds.get_events(
                    &self.store,
                    bucket_id,
                    starttime_opt,
                    endtime_opt,
                    limit_opt,
                ) {
                    Ok(el) => Ok(Response::EventList(el)),
                    Err(e) => Err(e),
                }
            },
            Command::GetUserEvents(bucket_id, starttime_opt, endtime_opt, limit_opt, team_id) => {
                match self.ds.get_user_events(
                    &self.store,
                    bucket_id,
                    starttime_opt,
                    endtime_opt,
                    limit_opt,
                    team_id,
                ) {
                    Ok(el) => Ok(Response::EventList(el)),
                    Err(e) => Err(e),
                }
            },
            Command::GetEventCount(bucket_id, starttime_opt, endtime_opt) => {
                match self.ds.get_event_count(&self.store, bucket_id, starttime_opt, endtime_opt) {
                    Ok(n) => Ok(Response::Count(n)),
                    Err(e) => Err(e),
                }
            },
            Command::DeleteEventsById(bucket_id, event_ids) => {
                match self.ds.delete_events_by_id(&mut self.store, bucket_id, event_ids) {
                    Ok(()) => Ok(Response::Empty()),
                    Err(e) => Err(e),
                }
            },
            Command::ForceCommit() => {
                self.commit = true;
                Ok(Response::Empty())
            },
            Command::GetKeyValues(pattern) => {
                match self.ds.get_key_values(&self.store, pattern.as_str()) {
                    Ok(rows) => Ok(Response::KeyValues(rows)),
                    Err(e) => Err(e),
                }
            },
            Command::SetKeyValue(key, data) => {
                match self.ds.insert_key_value(&mut self.store, key.as_str(), data.as_str()) {
                    Ok(()) => Ok(Response::Empty()),
                    Err(e) => Err(e),
                }
            },
            Command::GetKeyValue(key) => {
                match self.ds.get_key_value(&self.store, key.as_str()) {
                    Ok(value) => Ok(Response::KeyValue(value)),
                    Err(e) => Err(e),
                }
            },
            Command::DeleteKeyValue(key) => {
                match self.ds.delete_key_value(&mut self.store, key.as_str()) {
                    Ok(()) => Ok(Response::Empty()),
                    Err(e) => Err(e),
                }
            },
            Command::GetUserByEmail(email) => {
                match self.ds.get_user_by_email(&self.store, email) {
                    Ok(user) => Ok(Response::User(user)),
                    Err(e) => Err(e),
                }
            },
            Command::AddUser(user) => {
                match self.ds.signup(&mut self.store, user) {
                    Ok(result) => Ok(Response::PublicUser(result)),
                    Err(e) => Err(e),
                }
            },
            Command::GetUser(user_id) => {
                match self.ds.get_user(&self.store, user_id) {
                    Ok(result) => Ok(Response::PublicUser(result)),
                    Err(e) => Err(e),
                }
            },
            Command::GetTeams(ownerId) => {
                match self.ds.get_teams(&self.store, ownerId) {
                    Ok(teams) => Ok(Response::Teams(teams)),
                    Err(e) => Err(e),
                }
            },
            Command::AddTeam(team, ownerId) => {
                match self.ds.add_team(&mut self.store, team, ownerId) {
                    Ok(_team) => Ok(Response::Empty()),
                    Err(e) => Err(e),
                }
            },
            Command::GetTeamMembersCount(team_id) => {
                match self.ds.get_team_members_count(&self.store, team_id) {
                    Ok(count) => Ok(Response::Count(count)),
                    Err(e) => Err(e),
                }
            },
            Command::GetMembersOfTeam(team_id) => {
                match self.ds.get_team_members(&self.store, team_id) {
                    Ok(members) => Ok(Response::Members(members)),
                    Err(e) => Err(e),
                }
            },
            Command::GetTeam(team_id) => {
                match self.ds.get_team(&self.store, team_id) {
                    Ok(team) => Ok(Response::Team(team)),
                    Err(e) => Err(e),
                }
            },
            Command::GetAllUsers() => {
                match self.ds.get_all_users(&self.store) {
                    Ok(users) => Ok(Response::Users(users)),
                    Err(e) => Err(e),
                }
            },
            Command::AddMembers(team_id, members) => {
                match self.ds.add_members(&mut self.store, team_id, members) {
                    Ok(_added) => Ok(Response::Empty()),
                    Err(e) => Err(e),
                }
            },
            Command::RemoveMember(team_id, member_id) => {
                match self.ds.remove_member(&mut self.store, team_id, member_id) {
                    Ok(_removed) => Ok(Response::Empty()),
                    Err(e) => Err(e),
                }
            },
            Command::GetUserTeams(user_id) => {
                match self.ds.get_user_teams(&self.store, user_id) {
                    Ok(teams) => Ok(Response::UserTeams(teams)),
                    Err(e) => Err(e),
                }
            },
            Command::AddTeamConfiguration(team_id, apps) => {
                match self.ds.add_configuration(&mut self.store, team_id, apps) {
                    Ok(_added) => Ok(Response::Empty()),
                    Err(e) => Err(e),
                }
            },
            Command::UpdateTeamConfiguration(team_id, apps) => {
                match self.ds.update_configuration(&mut self.store, team_id, apps) {
                    Ok(_updated) => Ok(Response::Empty()),
                    Err(e) => Err(e),
                }
            },
            Command::GetTeamConfiguration(team_id) => {
                match self.ds.get_configuration(&self.store, team_id) {
                    Ok(config) => Ok(Response::TeamConfiguration(config)),
                    Err(e) => Err(e),
                }
            },
            Command::Close() => {
                self.quit = true;
                Ok(Response::Empty())
            },
        }
    }
}

} // verus!
