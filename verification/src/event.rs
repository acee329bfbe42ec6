//! Events: timestamped, duration-bearing records with an opaque payload.
//!
//! Timestamps are UTC instants in nanoseconds since the epoch; durations are
//! nanosecond spans.  The derived end time of an event is `timestamp + duration`.

use vstd::prelude::*;

use crate::data::DataEntryView;
use crate::data::DataMap;

verus! {

/// One recorded event.  `id` is assigned by the store on insertion.
#[derive(Debug)]
pub struct Event {
    pub id: Option<i64>,
    pub timestamp_ns: i64,
    pub duration_ns: i64,
    pub data: DataMap,
    pub team_id: i32,
}

/// The mathematical content of an event.
pub ghost struct EventView {
    pub id: Option<int>,
    pub timestamp_ns: int,
    pub duration_ns: int,
    pub data: Seq<DataEntryView>,
    pub team_id: int,
}

/// An optional row id, as a mathematical integer.
pub open spec fn opt_id_view(id: Option<i64>) -> Option<int> {
    match id {
        Some(i) => Some(i as int),
        None => None,
    }
}

impl View for Event {
    type V = EventView;

    open spec fn view(&self) -> EventView {
        EventView {
            id: opt_id_view(self.id),
            timestamp_ns: self.timestamp_ns as int,
            duration_ns: self.duration_ns as int,
            data: self.data@,
            team_id: self.team_id as int,
        }
    }
}

impl EventView {
    /// The derived end time of an event: its start plus its duration.
    pub open spec fn endtime_ns(self) -> int {
        self.timestamp_ns + self.duration_ns
    }
}

impl Event {
    /// An event is representable when its duration is non-negative and its
    /// end time still fits the store's timestamp range.
    pub open spec fn wf(&self) -> bool {
        0 <= self.duration_ns && self.timestamp_ns + self.duration_ns <= i64::MAX
    }

    /// The derived end time of the event.
    pub fn calculate_endtime(&self) -> (r: i64)
        requires
            self.wf(),
        ensures
            r == self@.endtime_ns(),
    {
        self.timestamp_ns + self.duration_ns
    }
}

impl Clone for Event {
    fn clone(&self) -> (r: Self)
        ensures
            r@ == self@,
    {
        Event {
            id: self.id,
            timestamp_ns: self.timestamp_ns,
            duration_ns: self.duration_ns,
            data: self.data.clone(),
            team_id: self.team_id,
        }
    }
}

} // verus!
