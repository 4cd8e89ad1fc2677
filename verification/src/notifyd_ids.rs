//! The D-Bus ids of notifications: a replaced notification keeps its id,
//! a new one takes the next id that no kept notification holds.
use vstd::prelude::*;

use crate::error::{GraphError, Result};
use crate::notifyd::{records_of, NotifydSnapshot, NotifydState};

verus! {

/// Whether a kept notification holds the D-Bus id.
pub open spec fn id_in_use(s: NotifydSnapshot, id: u32) -> bool {
    exists|k: Seq<char>| #[trigger]
        records_of(s).contains_key(k) && records_of(s)[k].dbus_id == id
}

/// The id after `id` among the ids 1 to `u32::MAX`, wrapping to 1.
pub open spec fn next_id_after(id: u32) -> u32 {
    if id == u32::MAX {
        1
    } else {
        (id + 1) as u32
    }
}

/// The `k`-th id tried from `start` on, wrapping past `u32::MAX` to 1.
pub open spec fn id_tried(start: u32, k: nat) -> u32
    decreases k,
{
    if k == 0 {
        start
    } else {
        next_id_after(id_tried(start, (k - 1) as nat))
    }
}

/// Where the search for a free id starts: the counter, or 1 in its place.
pub open spec fn search_start(next: u32) -> u32 {
    if next == 0 {
        1
    } else {
        next
    }
}

/// The id of a notification that arrives with `replaces_id`: that id when
/// it is not 0 and a kept notification holds it; otherwise the first id,
/// trying from the counter on and wrapping to 1, that none holds, the
/// counter then standing after it. Fails when every id is held.
pub fn allocate_notification_id(state: &NotifydState, replaces_id: u32, next: &mut u32) -> (r:
    Result<u32>)
    ensures
        ({
            let s = state.snapshot_spec();
            let start = search_start(*old(next));
            if replaces_id != 0 && id_in_use(s, replaces_id) {
                r == Ok::<u32, GraphError>(replaces_id) && *final(next) == *old(next)
            } else {
                &&& r matches Ok(id) ==> exists|k: nat|
                    k < u32::MAX && id == id_tried(start, k) && !id_in_use(s, id) && (forall|j: nat|
                        j < k ==> id_in_use(s, #[trigger] id_tried(start, j)))
                        && *final(next) == next_id_after(id)
                &&& r is Err ==> (forall|j: nat|
                    j < u32::MAX ==> id_in_use(s, #[trigger] id_tried(start, j))) && (
                r matches Err(GraphError::Io(m)) && m@ == "all notification IDs are retained"@)
            }
        }),
{
    if replaces_id != 0 && state.contains_dbus_id(replaces_id) {
        return Ok(replaces_id);
    }
    let ghost s = state.snapshot_spec();
    let ghost start = search_start(*next);
    let mut k: u32 = 0;
    while k < u32::MAX
        invariant
            s == state.snapshot_spec(),
            start == search_start(*old(next)),
            !(replaces_id != 0 && id_in_use(s, replaces_id)),
            k <= u32::MAX,
            k == 0 ==> *next == *old(next),
            k > 0 ==> *next == id_tried(start, k as nat),
            forall|j: nat| j < k ==> id_in_use(s, #[trigger] id_tried(start, j)),
        decreases u32::MAX - k,
    {
        let candidate = if *next == 0 {
            1
        } else {
            *next
        };
        assert(candidate == id_tried(start, k as nat));
        *next = if candidate == u32::MAX {
            1
        } else {
            candidate + 1
        };
        assert(*next == id_tried(start, (k + 1) as nat));
        if !state.contains_dbus_id(candidate) {
            assert(!id_in_use(s, candidate));
            let ghost kk = k as nat;
            assert(kk < u32::MAX && candidate == id_tried(start, kk) && !id_in_use(s, candidate)
                && (forall|j: nat| j < kk ==> id_in_use(s, #[trigger] id_tried(start, j)))
                && *next == next_id_after(candidate));
            return Ok(candidate);
        }
        k += 1;
    }
    Err(GraphError::Io("all notification IDs are retained".to_owned()))
}

} // verus!
