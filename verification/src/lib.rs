//! A single-writer transactional datastore for time-stamped activity events.
//!
//! Clients record events (application usage, heartbeats) into buckets owned
//! by users.  All storage operations are funnelled through one worker that
//! owns the store, keeps a read-through cache of bucket metadata, batches
//! commits, and coalesces adjacent heartbeats into single events.

use vstd::prelude::*;

mod bucket;
mod clock;
mod data;
pub mod datastore;
mod event;
mod hash;
pub mod jwt;
pub mod laws;
mod lemmas;
mod migrations;
mod store;
mod team;
mod text;
pub mod transform;
mod user;
pub mod worker;

pub use bucket::Bucket;
pub use bucket::BucketMetadata;
pub use bucket::BucketMetadataView;
pub use bucket::BucketView;
pub use bucket::BucketsExport;
pub use datastore::DatastoreInstance;
pub use datastore::LastHeartbeat;
pub use datastore::LastHeartbeatView;
pub use worker::Command;
pub use worker::DatastoreWorker;
pub use worker::Response;
pub use worker::COMMIT_EVENT_THRESHOLD;
pub use worker::COMMIT_INTERVAL_NS;
pub use data::DataEntry;
pub use data::DataEntryView;
pub use data::DataMap;
pub use event::Event;
pub use event::EventView;
pub use jwt::create_jwt;
pub use jwt::jwt_token_of;
pub use jwt::validate_jwt;
pub use jwt::Claims;
pub use jwt::Token;
pub use hash::generate_hash;
pub use hash::password_verifies;
pub use hash::verify_password;
pub use migrations::NEWEST_DB_VERSION;
pub use text::i32_string;
pub use text::i64_string;
pub use text::like_match;
pub use text::spec_i64_string;
pub use text::spec_like_match;
pub use text::spec_split_commas;
pub use text::spec_u64_string;
pub use text::split_commas;
pub use text::u64_string;
pub use store::BucketRow;
pub use store::BucketRowView;
pub use store::EventRow;
pub use store::EventRowView;
pub use store::KeyValueRow;
pub use store::KeyValueRowView;
pub use store::Schema;
pub use store::Store;
pub use store::TeamConfigurationRow;
pub use store::TeamConfigurationRowView;
pub use store::TeamUserRow;
pub use store::TeamUserRowView;
pub use team::Member;
pub use team::MemberView;
pub use team::Team;
pub use team::TeamConfiguration;
pub use team::TeamConfigurationView;
pub use team::TeamDetailModel;
pub use team::TeamModel;
pub use team::TeamRequestModel;
pub use team::TeamResponseModel;
pub use team::TeamUserModel;
pub use team::TeamUserModelView;
pub use team::TeamView;
pub use user::LoginModel;
pub use user::PublicUser;
pub use user::PublicUserView;
pub use user::SignupModel;
pub use user::User;
pub use user::UserView;

verus! {

/// The error kinds surfaced by every datastore operation.
#[derive(Debug)]
pub enum DatastoreError {
    /// A bucket id that is not present in the bucket cache.
    NoSuchBucket(String),
    /// A bucket identity conflict on creation.
    BucketAlreadyExists(String),
    /// A key-value lookup for an absent key.
    NoSuchKey(String),
    /// A user lookup that matched nobody, or a team lookup that matched no team.
    NoUser(),
    /// Opening an empty store with migration disabled.
    Uninitialized(String),
    /// Opening a store of another schema version with migration disabled.
    OldDbVersion(String),
    /// A storage-layer or invariant failure, with a diagnostic message.
    InternalError(String),
}

} // verus!
