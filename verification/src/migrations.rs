//! Schema evolution: ordered migration steps that bring a store from any
//! prior version to the current one, each step bumping the stored version as
//! its last action.

use vstd::prelude::*;

use crate::hash::generate_hash;
use crate::store::Schema;
use crate::store::Store;
use crate::user::User;

verus! {

/// The schema version this library reads and writes.
pub const NEWEST_DB_VERSION: i32 = 5;

/// The version recorded in a store.
pub(crate) fn _get_db_version(store: &Store) -> (r: i32)
    ensures
        r == store.spec_version(),
{
    store.db_version()
}

/// What a migration step leaves untouched: every table except the user
/// table, and every id counter except the user counter.
pub open spec fn migration_preserves_tables(pre: Store, post: Store) -> bool {
    &&& post.buckets_view() == pre.buckets_view()
    &&& post.events_view() == pre.events_view()
    &&& post.key_values_view() == pre.key_values_view()
    &&& post.teams_view() == pre.teams_view()
    &&& post.teams_users_view() == pre.teams_users_view()
    &&& post.team_configurations_view() == pre.team_configurations_view()
    &&& post.next_bucket_id == pre.next_bucket_id
    &&& post.next_event_id == pre.next_event_id
    &&& post.next_team_id == pre.next_team_id
    &&& post.next_membership_id == pre.next_membership_id
    &&& post.next_configuration_id == pre.next_configuration_id
}

/// Set up the bucket and event tables.
pub(crate) fn _migrate_v0_to_v1(store: &mut Store)
    requires
        old(store).wf(),
        old(store).spec_version() == 0,
    ensures
        final(store).wf(),
        final(store).spec_version() == 1,
        migration_preserves_tables(*old(store), *final(store)),
        final(store).users_view() == old(store).users_view(),
        final(store).next_user_id == old(store).next_user_id,
{
    store.schema.buckets_table = true;
    store.schema.events_table = true;
    store.version = 1;
    proof {
        assert(store.schema == Schema::spec_at_version(1));
    }
}

/// Add the payload column to the bucket table.
pub(crate) fn _migrate_v1_to_v2(store: &mut Store)
    requires
        old(store).wf(),
        old(store).spec_version() == 1,
    ensures
        final(store).wf(),
        final(store).spec_version() == 2,
        migration_preserves_tables(*old(store), *final(store)),
        final(store).users_view() == old(store).users_view(),
        final(store).next_user_id == old(store).next_user_id,
{
    store.schema.bucket_data_column = true;
    store.version = 2;
    proof {
        assert(store.schema == Schema::spec_at_version(2));
    }
}

/// Replace the broken payload column: park the old one under a deprecated
/// name and recreate it.  The rename-only statement produces no result set,
/// a condition this step tolerates as success.
pub(crate) fn _migrate_v2_to_v3(store: &mut Store)
    requires
        old(store).wf(),
        old(store).spec_version() == 2,
    ensures
        final(store).wf(),
        final(store).spec_version() == 3,
        migration_preserves_tables(*old(store), *final(store)),
        final(store).users_view() == old(store).users_view(),
        final(store).next_user_id == old(store).next_user_id,
{
    store.schema.bucket_data_deprecated_column = true;
    store.schema.bucket_data_column = true;
    store.version = 3;
    proof {
        assert(store.schema == Schema::spec_at_version(3));
    }
}

/// Add the key-value table.
pub(crate) fn _migrate_v3_to_v4(store: &mut Store)
    requires
        old(store).wf(),
        old(store).spec_version() == 3,
    ensures
        final(store).wf(),
        final(store).spec_version() == 4,
        migration_preserves_tables(*old(store), *final(store)),
        final(store).users_view() == old(store).users_view(),
        final(store).next_user_id == old(store).next_user_id,
{
    store.schema.key_value_table = true;
    store.version = 4;
    proof {
        assert(store.schema == Schema::spec_at_version(4));
    }
}

/// Add the user and team tables, the owner and team columns on buckets and
/// events, and seed the one administrative account with a hashed password.
pub(crate) fn _migrate_new_version(store: &mut Store)
    requires
        old(store).wf(),
        old(store).spec_version() == 4,
        old(store).next_user_id < i32::MAX,
    ensures
        final(store).wf(),
        final(store).spec_version() == 5,
        migration_preserves_tables(*old(store), *final(store)),
        final(store).users_view().len() == 1,
        final(store).users_view()[0].id == old(store).next_user_id,
        final(store).users_view()[0].username == "admin"@,
        final(store).users_view()[0].email == "admin@admin.com"@,
        final(store).users_view()[0].name == "admin"@,
        final(store).users_view()[0].lastname == "admin"@,
        final(store).users_view()[0].role == 1,
{
    store.schema.users_table = true;
    store.schema.teams_table = true;
    store.schema.teams_users_table = true;
    store.schema.team_configuration_table = true;
    store.schema.bucket_user_id_column = true;
    store.schema.event_team_id_column = true;
    proof {
        reveal_strlit("admin");
    }
    let admin = User {
        id: store.next_user_id,
        email: "admin@admin.com".to_owned(),
        username: "admin".to_owned(),
        name: "admin".to_owned(),
        lastname: "admin".to_owned(),
        role: 1,
        password: generate_hash("admin"),
    };
    store.users.push(admin);
    store.next_user_id = store.next_user_id + 1;
    store.version = 5;
    proof {
        assert(store.schema == Schema::spec_at_version(5));
        assert(store.users_view() =~= old(store).users_view().push(store.users@[0]@));
    }
}

/// Run, in order, every migration step the store's version calls for, and
/// report whether the store had no schema at all before.
pub(crate) fn _create_tables(store: &mut Store, version: i32) -> (first_init: bool)
    requires
        old(store).wf(),
        version == old(store).spec_version(),
        old(store).spec_version() < 5 ==> old(store).next_user_id < i32::MAX,
    ensures
        final(store).wf(),
        final(store).spec_version() == 5,
        first_init == (old(store).spec_version() < 1),
        migration_preserves_tables(*old(store), *final(store)),
        old(store).spec_version() == 5 ==> final(store).users_view() == old(store).users_view()
            && final(store).next_user_id == old(store).next_user_id,
        old(store).spec_version() < 5 ==> final(store).users_view().len() == 1
            && final(store).users_view()[0].username == "admin"@ && final(store).users_view()[0].email
            == "admin@admin.com"@ && final(store).users_view()[0].role == 1,
{
    let mut first_init = false;
    if version < 1 {
        first_init = true;
        _migrate_v0_to_v1(store);
    }
    if version < 2 {
        _migrate_v1_to_v2(store);
    }
    if version < 3 {
        _migrate_v2_to_v3(store);
    }
    if version < 4 {
        _migrate_v3_to_v4(store);
    }
    if version < 5 {
        _migrate_new_version(store);
    }
    first_init
}

} // verus!
