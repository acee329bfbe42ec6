//! Buckets: named, user-owned streams of events of one type, together with
//! the cached metadata the store maintains for each of them.

use vstd::prelude::*;

use crate::data::DataEntryView;
use crate::data::DataMap;
use crate::event::opt_id_view;
use crate::event::Event;
use crate::event::EventView;

verus! {

/// Cached bounds over a bucket's events: `start` is the least timestamp ever
/// inserted, `end` the greatest derived end time.  Derived only; clients
/// never set them.
#[derive(Debug)]
pub struct BucketMetadata {
    pub start: Option<i64>,
    pub end: Option<i64>,
}

/// The mathematical content of the cached bounds.
pub ghost struct BucketMetadataView {
    pub start: Option<int>,
    pub end: Option<int>,
}

impl View for BucketMetadata {
    type V = BucketMetadataView;

    open spec fn view(&self) -> BucketMetadataView {
        BucketMetadataView { start: opt_id_view(self.start), end: opt_id_view(self.end) }
    }
}

impl BucketMetadata {
    /// Bounds that no event has touched yet.
    pub fn empty() -> (r: BucketMetadata)
        ensures
            r@.start is None,
            r@.end is None,
    {
        BucketMetadata { start: None, end: None }
    }
}

impl Clone for BucketMetadata {
    fn clone(&self) -> (r: Self)
        ensures
            r@ == self@,
    {
        BucketMetadata { start: self.start, end: self.end }
    }
}

/// One bucket.  `bid` is assigned by the store on creation; at most one
/// bucket exists per (`user_id`, `_type`) pair.
#[derive(Debug)]
pub struct Bucket {
    pub bid: i64,
    pub _type: String,
    pub created: Option<i64>,
    pub data: DataMap,
    pub metadata: BucketMetadata,
    /// Inline events, present only during import and export.
    pub events: Option<Vec<Event>>,
    pub last_updated: Option<i64>,
    pub user_id: i32,
}

/// The mathematical content of a bucket.
pub ghost struct BucketView {
    pub bid: int,
    pub _type: Seq<char>,
    pub created: Option<int>,
    pub data: Seq<DataEntryView>,
    pub metadata: BucketMetadataView,
    pub events: Option<Seq<EventView>>,
    pub last_updated: Option<int>,
    pub user_id: int,
}

impl View for Bucket {
    type V = BucketView;

    open spec fn view(&self) -> BucketView {
        BucketView {
            bid: self.bid as int,
            _type: self._type@,
            created: opt_id_view(self.created),
            data: self.data@,
            metadata: self.metadata@,
            events: match self.events {
                Some(evs) => Some(evs@.map_values(|e: Event| e@)),
                None => None,
            },
            last_updated: opt_id_view(self.last_updated),
            user_id: self.user_id as int,
        }
    }
}

impl Clone for Bucket {
    fn clone(&self) -> (r: Self)
        ensures
            r@ == self@,
    {
        let events: Option<Vec<Event>> = match &self.events {
            Some(evs) => {
                let cloned_evs = evs.clone();
                proof {
                    assert forall|i: int| 0 <= i < cloned_evs@.len() implies cloned_evs@[i]@
                        == evs@[i]@ by {
                        assert(cloned::<Event>(evs@[i], cloned_evs@[i]));
                    }
                    assert(cloned_evs@.map_values(|e: Event| e@) =~= evs@.map_values(
                        |e: Event| e@,
                    ));
                }
                Some(cloned_evs)
            },
            None => None,
        };
        Bucket {
            bid: self.bid,
            _type: self._type.clone(),
            created: self.created,
            data: self.data.clone(),
            metadata: self.metadata.clone(),
            events,
            last_updated: self.last_updated,
            user_id: self.user_id,
        }
    }
}

/// A collection of buckets with their events inlined, as assembled for export.
pub struct BucketsExport {
    pub buckets: Vec<Bucket>,
}

} // verus!
