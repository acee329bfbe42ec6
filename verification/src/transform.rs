//! Heartbeat coalescing: deciding whether a new heartbeat extends the most
//! recent event of its bucket, and what the merged event is.

use vstd::prelude::*;

use crate::event::Event;
use crate::event::EventView;

verus! {

/// Whether a heartbeat merges into the last event: the payloads hold the
/// same mapping, the heartbeat does not start before the last event, and the
/// gap between the last event's end and the heartbeat's start is at most the
/// pulsetime.
pub open spec fn spec_merges(last: EventView, hb: EventView, pulsetime_ns: int) -> bool {
    &&& hb.data == last.data
    &&& last.timestamp_ns <= hb.timestamp_ns
    &&& hb.timestamp_ns <= last.endtime_ns() + pulsetime_ns
}

/// The merged event: the last event's start, id and payload, with the
/// duration stretched to cover whichever of the two events ends later.
pub open spec fn spec_merged(last: EventView, hb: EventView) -> EventView {
    EventView {
        id: last.id,
        timestamp_ns: last.timestamp_ns,
        duration_ns: if hb.endtime_ns() > last.endtime_ns() {
            hb.endtime_ns() - last.timestamp_ns
        } else {
            last.endtime_ns() - last.timestamp_ns
        },
        data: last.data,
        team_id: last.team_id,
    }
}

/// Merge a heartbeat into the last event of its bucket, or report that no
/// merge applies and the heartbeat has to become an event of its own.
pub fn heartbeat(last_event: &Event, heartbeat_event: &Event, pulsetime_ns: i64) -> (r: Option<Event>)
    requires
        last_event.wf(),
        heartbeat_event.wf(),
        spec_merges(last_event@, heartbeat_event@, pulsetime_ns as int) ==> heartbeat_event@.endtime_ns()
            <= last_event@.timestamp_ns + i64::MAX,
    ensures
        (r is Some) == spec_merges(last_event@, heartbeat_event@, pulsetime_ns as int),
        r is Some ==> r->Some_0@ == spec_merged(last_event@, heartbeat_event@) && r->Some_0.wf(),
{
    if !last_event.data.same_as(&heartbeat_event.data) {
        return None;
    }
    if heartbeat_event.timestamp_ns < last_event.timestamp_ns {
        return None;
    }
    let last_endtime = last_event.calculate_endtime();
    let heartbeat_endtime = heartbeat_event.calculate_endtime();
    let last_endtime_allowed: i128 = last_endtime as i128 + pulsetime_ns as i128;
    if heartbeat_event.timestamp_ns as i128 > last_endtime_allowed {
        return None;
    }
    let endtime = if heartbeat_endtime > last_endtime {
        heartbeat_endtime
    } else {
        last_endtime
    };
    let duration = endtime - last_event.timestamp_ns;
    Some(
        Event {
            id: last_event.id,
            timestamp_ns: last_event.timestamp_ns,
            duration_ns: duration,
            data: last_event.data.clone(),
            team_id: last_event.team_id,
        },
    )
}

} // verus!
