//! The laws the datastore keeps, stated and proved over the store model:
//! creation is idempotent by identity, fresh inserts keep the cached bounds
//! exact, and a stored event reads back unchanged.

use vstd::prelude::*;

use crate::bucket::BucketMetadataView;
use crate::datastore::event_insertable;
use crate::datastore::event_of_row;
use crate::datastore::event_row_of;
use crate::datastore::has_bucket_events;
use crate::datastore::metadata_exact;
use crate::datastore::spec_extend_metadata;
use crate::datastore::spec_insert_fold;
use crate::datastore::spec_insert_step;
use crate::datastore::EventInsertState;
use crate::event::EventView;
use crate::store::bucket_table_wf;
use crate::store::event_table_wf;
use crate::store::BucketRowView;
use crate::store::EventRowView;

verus! {

/// Bucket creation is idempotent by identity: a well-formed bucket table
/// holds at most one row per (owner, type) pair, so any two ids reported
/// for that pair are one and the same id.
pub proof fn lemma_create_bucket_idempotent(
    rows: Seq<BucketRowView>,
    next_id: int,
    user_id: int,
    _type: Seq<char>,
    id1: int,
    id2: int,
)
    requires
        bucket_table_wf(rows, next_id),
        exists|i: int|
            0 <= i < rows.len() && (#[trigger] rows[i]).user_id == user_id && rows[i]._type
                == _type && rows[i].id == id1,
        exists|i: int|
            0 <= i < rows.len() && (#[trigger] rows[i]).user_id == user_id && rows[i]._type
                == _type && rows[i].id == id2,
    ensures
        id1 == id2,
        forall|i: int, j: int|
            0 <= i < j < rows.len() ==> !((#[trigger] rows[i]).user_id == user_id
                && rows[i]._type == _type && (#[trigger] rows[j]).user_id == user_id
                && rows[j]._type == _type),
{
    let a = choose|i: int|
        0 <= i < rows.len() && (#[trigger] rows[i]).user_id == user_id && rows[i]._type == _type
            && rows[i].id == id1;
    let b = choose|i: int|
        0 <= i < rows.len() && (#[trigger] rows[i]).user_id == user_id && rows[i]._type == _type
            && rows[i].id == id2;
    if a != b {
        assert(false);
    }
}

/// One fresh insert keeps the cached bounds exact: after an event without
/// an id of its own lands in the table, `start` is again the least start
/// time of the bucket's events and `end` the greatest end time.
pub proof fn lemma_insert_step_exact(st: EventInsertState, ev: EventView, bid: int)
    requires
        !st.failed,
        event_table_wf(st.table, st.next_id),
        metadata_exact(st.md, st.table, bid),
        ev.id is None,
        event_insertable(ev, st.next_id),
    ensures
        ({
            let st2 = spec_insert_step(st, ev, bid);
            &&& !st2.failed
            &&& metadata_exact(st2.md, st2.table, bid)
            &&& event_table_wf(st2.table, st2.next_id)
        }),
{
    let st2 = spec_insert_step(st, ev, bid);
    let id = st.next_id;
    let pred = |r: EventRowView| r.id != id;
    assert forall|x: int| 0 <= x < st.table.len() implies pred(#[trigger] st.table[x]) by {
        assert(st.table[x].id < st.next_id);
    }
    crate::lemmas::lemma_filter_all_true(st.table, pred);
    let row = event_row_of(ev, bid, id);
    assert(st2.table =~= st.table.push(row));
    let md2 = spec_extend_metadata(st.md, ev.timestamp_ns, ev.timestamp_ns + ev.duration_ns);
    assert(st2.md == md2);
    // The new table holds the bucket's old events and the new row.
    assert forall|j: int|
        0 <= j < st2.table.len() && (#[trigger] st2.table[j]).bucketrow == bid implies md2.start is Some
        && md2.start->0 <= st2.table[j].starttime_ns && md2.end is Some && st2.table[j].endtime_ns
        <= md2.end->0 by {
        if j < st.table.len() {
            assert(st2.table[j] == st.table[j]);
        } else {
            assert(st2.table[j] == row);
        }
    }
    assert(has_bucket_events(st2.table, bid)) by {
        assert(st2.table[st.table.len() as int] == row);
    }
    // The least start is attained: by the old witness where it was lower,
    // by the new row otherwise.
    assert(exists|j: int|
        0 <= j < st2.table.len() && (#[trigger] st2.table[j]).bucketrow == bid
            && st2.table[j].starttime_ns == md2.start->0) by {
        if st.md.start matches Some(s) && s <= ev.timestamp_ns {
            assert(has_bucket_events(st.table, bid));
            let w = choose|j: int|
                0 <= j < st.table.len() && (#[trigger] st.table[j]).bucketrow == bid
                    && st.table[j].starttime_ns == st.md.start->0;
            assert(st2.table[w] == st.table[w]);
            assert((#[trigger] st2.table[w]).bucketrow == bid && st2.table[w].starttime_ns
                == md2.start->0);
        } else {
            assert((#[trigger] st2.table[st.table.len() as int]).bucketrow == bid
                && st2.table[st.table.len() as int].starttime_ns == md2.start->0);
        }
    }
    assert(exists|j: int|
        0 <= j < st2.table.len() && (#[trigger] st2.table[j]).bucketrow == bid
            && st2.table[j].endtime_ns == md2.end->0) by {
        if st.md.end matches Some(t) && t >= ev.timestamp_ns + ev.duration_ns {
            assert(has_bucket_events(st.table, bid));
            let w = choose|j: int|
                0 <= j < st.table.len() && (#[trigger] st.table[j]).bucketrow == bid
                    && st.table[j].endtime_ns == st.md.end->0;
            assert(st2.table[w] == st.table[w]);
            assert((#[trigger] st2.table[w]).bucketrow == bid && st2.table[w].endtime_ns
                == md2.end->0);
        } else {
            assert((#[trigger] st2.table[st.table.len() as int]).bucketrow == bid
                && st2.table[st.table.len() as int].endtime_ns == md2.end->0);
        }
    }
    // The table stays well formed under the fresh id.
    assert forall|a: int, b: int| 0 <= a < b < st2.table.len() implies (
    #[trigger] st2.table[a]).id != (#[trigger] st2.table[b]).id by {
        if b < st.table.len() {
            assert(st2.table[a] == st.table[a]);
            assert(st2.table[b] == st.table[b]);
        } else {
            assert(st2.table[a] == st.table[a]);
            assert(st2.table[b] == row);
        }
    }
    assert forall|a: int| 0 <= a < st2.table.len() implies (
    #[trigger] st2.table[a]).starttime_ns <= st2.table[a].endtime_ns && st2.table[a].endtime_ns
        - st2.table[a].starttime_ns <= i64::MAX && st2.table[a].id < st2.next_id by {
        if a < st.table.len() {
            assert(st2.table[a] == st.table[a]);
        } else {
            assert(st2.table[a] == row);
        }
    }
}

/// A whole batch of fresh inserts keeps the cached bounds exact: after any
/// run of events without ids of their own, `start` and `end` are still the
/// exact bounds of the bucket's events.
pub proof fn lemma_insert_batch_exact(st: EventInsertState, evs: Seq<EventView>, bid: int)
    requires
        !st.failed,
        event_table_wf(st.table, st.next_id),
        metadata_exact(st.md, st.table, bid),
        forall|i: int| 0 <= i < evs.len() ==> (#[trigger] evs[i]).id is None,
    ensures
        ({
            let stf = spec_insert_fold(st, evs, bid);
            !stf.failed ==> metadata_exact(stf.md, stf.table, bid) && event_table_wf(
                stf.table,
                stf.next_id,
            )
        }),
    decreases evs.len(),
{
    if evs.len() > 0 {
        let st2 = spec_insert_step(st, evs[0], bid);
        if event_insertable(evs[0], st.next_id) {
            lemma_insert_step_exact(st, evs[0], bid);
            assert forall|i: int| 0 <= i < evs.skip(1).len() implies (
            #[trigger] evs.skip(1)[i]).id is None by {
                assert(evs.skip(1)[i] == evs[i + 1]);
            }
            lemma_insert_batch_exact(st2, evs.skip(1), bid);
        } else {
            assert(st2.failed);
            crate::datastore::lemma_insert_fold_failed(st2, evs.skip(1), bid);
        }
    }
}

/// An event reads back as it was stored: the row a fresh event is persisted
/// as reports the same start, the same duration and the same payload.
pub proof fn lemma_event_round_trip(ev: EventView, bid: int, id: int)
    ensures
        event_of_row(event_row_of(ev, bid, id)).timestamp_ns == ev.timestamp_ns,
        event_of_row(event_row_of(ev, bid, id)).duration_ns == ev.duration_ns,
        event_of_row(event_row_of(ev, bid, id)).data == ev.data,
        event_of_row(event_row_of(ev, bid, id)).id == Some(id),
{
}

} // verus!
