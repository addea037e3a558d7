//! The train simulator: trains advance around the ring each tick;
//! waiting users board the first train whose movement window crossed
//! their station, and riders leave when their destination is crossed.
use vstd::prelude::*;

use crate::broadcast::refresh_nearby_for_map;
use crate::map::{Position, TRAIN_HEIGHT, TRAIN_WIDTH};
use crate::messages::{Effect, ServerMapChange, ServerMsg};
use crate::monorail::{spec_station_map_id, station_map_id, train_map_id};
use crate::map::station_entry_position_for_street_y;
use crate::monorail::{STATION_DOOR_Y_BOTTOM, STATION_DOOR_Y_TOP};
use crate::state::{
    has_user, is_connected, kv_get, kv_has, kv_remove, spec_user, BoardingRequest, ServerState,
    TrainRide, TrainState, CIRC_MILLI, TRAIN_SPEED_MILLI,
};
use crate::text::str_eq;

verus! {

/// A train's window moved from `prev` to `next` (ring coordinates, the
/// given direction): did it cross `station`? A window that wraps past
/// the ring's end covers both of its arcs; a window that did not move
/// covers nothing.
pub open spec fn spec_station_passed(prev: int, next: int, station: int, clockwise: bool) -> bool {
    if prev == next {
        false
    } else if clockwise {
        if prev <= next {
            prev <= station <= next
        } else {
            station >= prev || station <= next
        }
    } else {
        if next <= prev {
            next <= station <= prev
        } else {
            station >= next || station <= prev
        }
    }
}

/// Crossing a station is direction-symmetric: the window read backwards
/// in the other direction covers the same stations.
pub proof fn lemma_station_passed_symmetry(prev: int, next: int, station: int, clockwise: bool)
    requires
        prev != next,
    ensures
        spec_station_passed(prev, next, station, clockwise) == spec_station_passed(
            next,
            prev,
            station,
            !clockwise,
        ),
{
}

/// Executable station-pass test on milli-tile ring coordinates.
pub fn station_passed(prev: u64, next: u64, station: u64, circumference: u64, clockwise: bool)
    -> (r: bool)
    ensures
        r == spec_station_passed(prev as int, next as int, station as int, clockwise),
{
    let _ = circumference;
    if prev == next {
        return false;
    }
    if clockwise {
        if prev <= next {
            station >= prev && station <= next
        } else {
            station >= prev || station <= next
        }
    } else {
        if next <= prev {
            station >= next && station <= prev
        } else {
            station >= next || station <= prev
        }
    }
}

/// Four trains at startup: evenly spaced around the ring, all moving
/// clockwise at the standard speed.
pub fn init_trains() -> (r: Vec<TrainState>)
    ensures
        r@.len() == 4,
        forall|k: int|
            0 <= k < 4 ==> #[trigger] r@[k] == (TrainState {
                id: k as u32,
                x_milli: (k * (CIRC_MILLI as int / 4)) as u64,
                speed_milli: TRAIN_SPEED_MILLI,
                clockwise: true,
            }),
{
    let quarter: u64 = CIRC_MILLI / 4;
    let mut r: Vec<TrainState> = Vec::new();
    r.push(TrainState { id: 0, x_milli: 0, speed_milli: TRAIN_SPEED_MILLI, clockwise: true });
    r.push(TrainState { id: 1, x_milli: quarter, speed_milli: TRAIN_SPEED_MILLI, clockwise: true });
    r.push(
        TrainState { id: 2, x_milli: 2 * quarter, speed_milli: TRAIN_SPEED_MILLI, clockwise: true },
    );
    r.push(
        TrainState { id: 3, x_milli: 3 * quarter, speed_milli: TRAIN_SPEED_MILLI, clockwise: true },
    );
    proof {
        assert forall|k: int| 0 <= k < 4 implies #[trigger] r@[k] == (TrainState {
            id: k as u32,
            x_milli: (k * (CIRC_MILLI as int / 4)) as u64,
            speed_milli: TRAIN_SPEED_MILLI,
            clockwise: true,
        }) by {
            if k == 0 {
                assert(r@[0].x_milli as int == 0 * (CIRC_MILLI as int / 4));
            } else if k == 1 {
                assert(r@[1].x_milli as int == 1 * (CIRC_MILLI as int / 4));
            } else if k == 2 {
                assert(r@[2].x_milli as int == 2 * (CIRC_MILLI as int / 4));
            } else {
                assert(r@[3].x_milli as int == 3 * (CIRC_MILLI as int / 4));
            }
        }
    }
    r
}

/// One train's move this tick: id, where it was, where it is now, and
/// its direction.
#[derive(Debug, Clone, Copy, PartialEq, Eq, Structural)]
pub struct TrainUpdate {
    pub id: u32,
    pub prev_milli: u64,
    pub next_milli: u64,
    pub clockwise: bool,
}

/// Where a train at `x` ends up after `dt_ms` milliseconds.
pub open spec fn spec_advanced(x: int, speed: int, clockwise: bool, dt_ms: int) -> int {
    let delta = (speed * dt_ms / 1000) % (CIRC_MILLI as int);
    if clockwise {
        (x + delta) % (CIRC_MILLI as int)
    } else {
        (x - delta) % (CIRC_MILLI as int)
    }
}

/// One train correctly advanced: same identity, new position from the
/// elapsed time, and an update record reporting the move.
pub open spec fn train_step_ok(t0: TrainState, t1: TrainState, u: TrainUpdate, dt_ms: int) -> bool {
    &&& t1.id == t0.id && t1.speed_milli == t0.speed_milli && t1.clockwise == t0.clockwise
    &&& t1.x_milli as int == spec_advanced(
        t0.x_milli as int,
        t0.speed_milli as int,
        t0.clockwise,
        dt_ms,
    )
    &&& t1.x_milli < CIRC_MILLI
    &&& u == (TrainUpdate {
        id: t0.id,
        prev_milli: t0.x_milli,
        next_milli: t1.x_milli,
        clockwise: t0.clockwise,
    })
}

/// Advance every train by `dt_ms` milliseconds and report each move.
pub fn advance_trains(trains: &mut Vec<TrainState>, dt_ms: u64) -> (updates: Vec<TrainUpdate>)
    requires
        forall|k: int| 0 <= k < old(trains)@.len() ==> #[trigger] old(trains)@[k].x_milli
            < CIRC_MILLI,
    ensures
        final(trains)@.len() == old(trains)@.len(),
        updates@.len() == old(trains)@.len(),
        forall|k: int|
            0 <= k < old(trains)@.len() ==> train_step_ok(
                old(trains)@[k],
                final(trains)@[k],
                #[trigger] updates@[k],
                dt_ms as int,
            ),
{
    let mut updates: Vec<TrainUpdate> = Vec::new();
    let mut i: usize = 0;
    let n = trains.len();
    let ghost t0s = trains@;
    while i < n
        invariant
            i <= n,
            n == trains@.len(),
            t0s == old(trains)@,
            trains@.len() == t0s.len(),
            updates@.len() == i,
            forall|k: int| i <= k < trains@.len() ==> #[trigger] trains@[k] == t0s[k],
            forall|k: int| 0 <= k < t0s.len() ==> #[trigger] t0s[k].x_milli < CIRC_MILLI,
            forall|k: int|
                0 <= k < i ==> train_step_ok(
                    t0s[k],
                    trains@[k],
                    #[trigger] updates@[k],
                    dt_ms as int,
                ),
        decreases n - i,
    {
        let t = trains[i];
        let prev = t.x_milli;
        proof {
            assert((t.speed_milli as int) * (dt_ms as int) <= (u64::MAX as int) * (u64::MAX as int)
                && (t.speed_milli as int) * (dt_ms as int) >= 0) by (nonlinear_arith)
                requires
                    0 <= t.speed_milli as int <= u64::MAX as int,
                    0 <= dt_ms as int <= u64::MAX as int,
            ;
        }
        let delta_big: u128 = (t.speed_milli as u128) * (dt_ms as u128) / 1000;
        let delta: u64 = (delta_big % (CIRC_MILLI as u128)) as u64;
        proof {
            assert(delta as int == ((t.speed_milli as int) * (dt_ms as int) / 1000) % (
            CIRC_MILLI as int));
        }
        let next: u64 = if t.clockwise {
            let sum = prev + delta;
            if sum >= CIRC_MILLI {
                sum - CIRC_MILLI
            } else {
                sum
            }
        } else {
            if delta > prev {
                prev + CIRC_MILLI - delta
            } else {
                prev - delta
            }
        };
        proof {
            let xi = prev as int;
            let di = delta as int;
            let ci = CIRC_MILLI as int;
            if t.clockwise {
                if xi + di >= ci {
                    vstd::arithmetic::div_mod::lemma_fundamental_div_mod_converse(
                        xi + di,
                        ci,
                        1,
                        xi + di - ci,
                    );
                } else {
                    vstd::arithmetic::div_mod::lemma_fundamental_div_mod_converse(
                        xi + di,
                        ci,
                        0,
                        xi + di,
                    );
                }
            } else {
                if di > xi {
                    vstd::arithmetic::div_mod::lemma_fundamental_div_mod_converse(
                        xi - di,
                        ci,
                        -1,
                        xi + ci - di,
                    );
                } else {
                    vstd::arithmetic::div_mod::lemma_fundamental_div_mod_converse(
                        xi - di,
                        ci,
                        0,
                        xi - di,
                    );
                }
            }
        }
        let updated = TrainState {
            id: t.id,
            x_milli: next,
            speed_milli: t.speed_milli,
            clockwise: t.clockwise,
        };
        trains.set(i, updated);
        updates.push(
            TrainUpdate { id: t.id, prev_milli: prev, next_milli: next, clockwise: t.clockwise },
        );
        proof {
            assert(train_step_ok(t0s[i as int], trains@[i as int], updates@[i as int], dt_ms as int));
        }
        i = i + 1;
    }
    updates
}


/// Duplicate the boarding queue for iteration while the state mutates.
fn clone_boarding(v: &Vec<(String, BoardingRequest)>) -> (r: Vec<(String, BoardingRequest)>)
    ensures
        r@ == v@,
{
    let mut r: Vec<(String, BoardingRequest)> = Vec::new();
    let mut i: usize = 0;
    while i < v.len()
        invariant
            i <= v@.len(),
            r@ =~= v@.subrange(0, i as int),
        decreases v@.len() - i,
    {
        r.push((v[i].0.clone(), v[i].1));
        proof {
            assert(r@.last() == v@[i as int]) by {
                assert(v@[i as int] == (v@[i as int].0, v@[i as int].1));
            }
            assert(r@ =~= v@.subrange(0, i + 1));
        }
        i = i + 1;
    }
    proof {
        assert(v@.subrange(0, v@.len() as int) =~= v@);
    }
    r
}

/// Duplicate the rider list for iteration while the state mutates.
fn clone_riders(v: &Vec<(String, TrainRide)>) -> (r: Vec<(String, TrainRide)>)
    ensures
        r@ == v@,
{
    let mut r: Vec<(String, TrainRide)> = Vec::new();
    let mut i: usize = 0;
    while i < v.len()
        invariant
            i <= v@.len(),
            r@ =~= v@.subrange(0, i as int),
        decreases v@.len() - i,
    {
        r.push((v[i].0.clone(), v[i].1));
        proof {
            assert(r@.last() == v@[i as int]) by {
                assert(v@[i as int] == (v@[i as int].0, v@[i as int].1));
            }
            assert(r@ =~= v@.subrange(0, i + 1));
        }
        i = i + 1;
    }
    proof {
        assert(v@.subrange(0, v@.len() as int) =~= v@);
    }
    r
}

/// The heart of what boarding may do to the world: requests only leave
/// the queue, rides only appear for users who were queued, with the
/// queued destination and a train whose window crossed their station,
/// and only boarded users move (onto that train's car).
pub open spec fn boarding_step_ok(
    st0: ServerState,
    st1: ServerState,
    updates: Seq<TrainUpdate>,
) -> bool {
    &&& forall|id: Seq<char>|
        #[trigger] kv_has(st1.boarding@, id) ==> kv_get(st1.boarding@, id) == kv_get(
            st0.boarding@,
            id,
        )
    &&& forall|id: Seq<char>|
        (#[trigger] kv_get(st1.riders@, id)) == kv_get(st0.riders@, id) || (kv_get(
            st0.boarding@,
            id,
        ) matches Some(req) && kv_get(st1.riders@, id) matches Some(ride)
            && ride.destination_x == req.destination_x && 0 <= req.station_x <= 4096 && (exists|
            k: int,
        |
            0 <= k < updates.len() && (#[trigger] updates[k]).id == ride.train_id
                && spec_station_passed(
                updates[k].prev_milli as int,
                updates[k].next_milli as int,
                req.station_x * 1000,
                updates[k].clockwise,
            )))
    &&& forall|id: Seq<char>|
        #[trigger] has_user(st1.users@, id) == has_user(st0.users@, id)
    &&& forall|id: Seq<char>|
        has_user(st0.users@, id) && #[trigger] kv_get(st1.riders@, id) == kv_get(
            st0.riders@,
            id,
        ) ==> spec_user(st1.users@, id) == spec_user(st0.users@, id)
    &&& forall|id: Seq<char>|
        has_user(st0.users@, id) && #[trigger] kv_get(st1.riders@, id) != kv_get(
            st0.riders@,
            id,
        ) ==> (kv_get(st1.riders@, id) matches Some(ride) && spec_user(
            st1.users@,
            id,
        ).position.map_id@ == crate::monorail::spec_train_map_id(ride.train_id as int)
            && spec_user(st1.users@, id).position.x == TRAIN_WIDTH / 2 && spec_user(
            st1.users@,
            id,
        ).position.y == TRAIN_HEIGHT / 2)
}

/// Removing boarding requests (and nothing else) keeps the boarding
/// guarantees relative to the tick's start.
proof fn lemma_boarding_mono(
    st0: ServerState,
    pre: ServerState,
    st1: ServerState,
    updates: Seq<TrainUpdate>,
)
    requires
        boarding_step_ok(st0, pre, updates),
        st1.users@ == pre.users@,
        st1.riders@ == pre.riders@,
        forall|q: Seq<char>|
            #[trigger] kv_has(st1.boarding@, q) ==> kv_get(st1.boarding@, q) == kv_get(
                pre.boarding@,
                q,
            ) && kv_has(pre.boarding@, q),
    ensures
        boarding_step_ok(st0, st1, updates),
{
}

/// Boarding exactly one queued user preserves the boarding guarantees.
proof fn lemma_board_one(
    st0: ServerState,
    pre: ServerState,
    st1: ServerState,
    updates: Seq<TrainUpdate>,
    uid: Seq<char>,
    req: BoardingRequest,
    k: int,
)
    requires
        boarding_step_ok(st0, pre, updates),
        kv_get(st0.boarding@, uid) == Some(req),
        !kv_has(pre.riders@, uid),
        0 <= req.station_x <= 4096,
        0 <= k < updates.len(),
        spec_station_passed(
            updates[k].prev_milli as int,
            updates[k].next_milli as int,
            req.station_x * 1000,
            updates[k].clockwise,
        ),
        has_user(pre.users@, uid),
        has_user(st1.users@, uid),
        forall|q: Seq<char>|
            #[trigger] kv_has(st1.boarding@, q) ==> kv_get(st1.boarding@, q) == kv_get(
                pre.boarding@,
                q,
            ) && kv_has(pre.boarding@, q),
        kv_get(st1.riders@, uid) == Some(
            TrainRide { train_id: updates[k].id, destination_x: req.destination_x },
        ),
        forall|q: Seq<char>|
            q != uid ==> #[trigger] kv_get(st1.riders@, q) == kv_get(pre.riders@, q),
        spec_user(st1.users@, uid).position.map_id@ == crate::monorail::spec_train_map_id(
            updates[k].id as int,
        ),
        spec_user(st1.users@, uid).position.x == TRAIN_WIDTH / 2,
        spec_user(st1.users@, uid).position.y == TRAIN_HEIGHT / 2,
        forall|id: Seq<char>|
            id != uid ==> #[trigger] has_user(st1.users@, id) == has_user(pre.users@, id) && (
            has_user(pre.users@, id) ==> spec_user(st1.users@, id) == spec_user(pre.users@, id)),
    ensures
        boarding_step_ok(st0, st1, updates),
{
    assert forall|id: Seq<char>|
        (#[trigger] kv_get(st1.riders@, id)) == kv_get(st0.riders@, id) || (kv_get(
            st0.boarding@,
            id,
        ) matches Some(rq) && kv_get(st1.riders@, id) matches Some(ride)
            && ride.destination_x == rq.destination_x && 0 <= rq.station_x <= 4096 && (exists|
            kk: int,
        |
            0 <= kk < updates.len() && (#[trigger] updates[kk]).id == ride.train_id
                && spec_station_passed(
                updates[kk].prev_milli as int,
                updates[kk].next_milli as int,
                rq.station_x * 1000,
                updates[kk].clockwise,
            ))) by {
        if id == uid {
            let ride = kv_get(st1.riders@, uid)->0;
            assert(updates[k].id == ride.train_id);
        }
    }
    assert forall|id: Seq<char>| #[trigger] has_user(st1.users@, id) == has_user(
        st0.users@,
        id,
    ) by {
        if id != uid {
            assert(has_user(st1.users@, id) == has_user(pre.users@, id));
        }
    }
    assert forall|id: Seq<char>|
        has_user(st0.users@, id) && #[trigger] kv_get(st1.riders@, id) == kv_get(
            st0.riders@,
            id,
        ) implies spec_user(st1.users@, id) == spec_user(st0.users@, id) by {
        if id == uid {
            assert(kv_get(st1.riders@, uid) is Some);
            assert(kv_get(pre.riders@, uid) is None);
            assert(kv_get(pre.riders@, uid) == kv_get(st0.riders@, uid) || (kv_get(
                pre.riders@,
                uid,
            ) is Some));
            assert(kv_get(st0.riders@, uid) is None);
            assert(false);
        } else {
            assert(kv_get(pre.riders@, id) == kv_get(st1.riders@, id));
            assert(has_user(st1.users@, id) == has_user(pre.users@, id));
            assert(has_user(pre.users@, id));
            assert(spec_user(pre.users@, id) == spec_user(st0.users@, id));
            assert(spec_user(st1.users@, id) == spec_user(pre.users@, id));
        }
    }
    assert forall|id: Seq<char>|
        has_user(st0.users@, id) && #[trigger] kv_get(st1.riders@, id) != kv_get(
            st0.riders@,
            id,
        ) implies (kv_get(st1.riders@, id) matches Some(ride) && spec_user(
            st1.users@,
            id,
        ).position.map_id@ == crate::monorail::spec_train_map_id(ride.train_id as int)
            && spec_user(st1.users@, id).position.x == TRAIN_WIDTH / 2 && spec_user(
            st1.users@,
            id,
        ).position.y == TRAIN_HEIGHT / 2) by {
        if id != uid {
            assert(kv_get(st1.riders@, id) == kv_get(pre.riders@, id));
            assert(kv_get(pre.riders@, id) != kv_get(st0.riders@, id));
            assert(has_user(st1.users@, id) == has_user(pre.users@, id));
            assert(has_user(pre.users@, id));
            assert(kv_get(pre.riders@, id) matches Some(ride2) && spec_user(
                pre.users@,
                id,
            ).position.map_id@ == crate::monorail::spec_train_map_id(ride2.train_id as int)
                && spec_user(pre.users@, id).position.x == TRAIN_WIDTH / 2 && spec_user(
                pre.users@,
                id,
            ).position.y == TRAIN_HEIGHT / 2);
            assert(spec_user(st1.users@, id) == spec_user(pre.users@, id));
        }
    }
}

/// A queued request that must board this tick: its user is connected,
/// still standing in the request's station, not yet riding, and some
/// train's window crossed that station.
pub open spec fn boarding_due(st: ServerState, updates: Seq<TrainUpdate>, id: Seq<char>) -> bool {
    &&& kv_get(st.boarding@, id) matches Some(req) && ({
        &&& is_connected(st.clients@, id)
        &&& has_user(st.users@, id)
        &&& spec_user(st.users@, id).position.map_id@ == spec_station_map_id(req.station_x as int)
        &&& !kv_has(st.riders@, id)
        &&& 0 <= req.station_x <= 4096
        &&& exists|k: int|
            0 <= k < updates.len() && spec_station_passed(
                (#[trigger] updates[k]).prev_milli as int,
                updates[k].next_milli as int,
                req.station_x * 1000,
                updates[k].clockwise,
            )
    })
}

/// The first entry of `updates` whose window crossed the station at
/// `station_x`: the train a waiting user boards.
pub open spec fn spec_first_crossing(updates: Seq<TrainUpdate>, station_x: int) -> TrainUpdate {
    updates[choose|k: int|
        0 <= k < updates.len() && spec_station_passed(
            (#[trigger] updates[k]).prev_milli as int,
            updates[k].next_milli as int,
            station_x * 1000,
            updates[k].clockwise,
        ) && (forall|kk: int|
            0 <= kk < k ==> !spec_station_passed(
                (#[trigger] updates[kk]).prev_milli as int,
                updates[kk].next_milli as int,
                station_x * 1000,
                updates[kk].clockwise,
            ))]
}

/// A map change that seats `id` at the centre of the boarded train's
/// car, the first train whose window crossed the request's station.
pub open spec fn is_board_map_change(
    eff: Effect,
    id: Seq<char>,
    req: BoardingRequest,
    updates: Seq<TrainUpdate>,
) -> bool {
    eff matches Effect::Send { to, msg: ServerMsg::MapChange(mc) } && to@ == id && mc.map_id@
        == crate::monorail::spec_train_map_id(
        spec_first_crossing(updates, req.station_x as int).id as int,
    ) && mc.position.map_id@ == crate::monorail::spec_train_map_id(
        spec_first_crossing(updates, req.station_x as int).id as int,
    ) && mc.position.x == TRAIN_WIDTH / 2 && mc.position.y == TRAIN_HEIGHT / 2
}

/// The replies a boarding owes its user: the map change onto the train
/// and the notice that names the event.
pub open spec fn board_effects_present(
    effs: Seq<Effect>,
    id: Seq<char>,
    req: BoardingRequest,
    updates: Seq<TrainUpdate>,
) -> bool {
    &&& exists|e: int|
        0 <= e < effs.len() && is_board_map_change(#[trigger] effs[e], id, req, updates)
    &&& exists|e: int|
        0 <= e < effs.len() && crate::messages::eff_is_notice(
            #[trigger] effs[e],
            id,
            "boarded train"@,
        )
}

/// Growing the effect list keeps the owed boarding replies present.
proof fn lemma_board_effects_grow(
    a: Seq<Effect>,
    b: Seq<Effect>,
    id: Seq<char>,
    req: BoardingRequest,
    updates: Seq<TrainUpdate>,
)
    requires
        a.len() <= b.len(),
        forall|e: int| 0 <= e < a.len() ==> #[trigger] b[e] == a[e],
        board_effects_present(a, id, req, updates),
    ensures
        board_effects_present(b, id, req, updates),
{
    let e1 = choose|e: int|
        0 <= e < a.len() && is_board_map_change(#[trigger] a[e], id, req, updates);
    assert(is_board_map_change(b[e1], id, req, updates));
    let e2 = choose|e: int|
        0 <= e < a.len() && crate::messages::eff_is_notice(#[trigger] a[e], id, "boarded train"@);
    assert(crate::messages::eff_is_notice(b[e2], id, "boarded train"@));
}

/// Board waiting users onto the trains that crossed their stations this
/// tick; a due request boards the first train in update order whose
/// window crossed its station. A request whose user is gone, riding, or
/// no longer standing in its station is dropped.
#[verifier::rlimit(100)]
#[verifier::spinoff_prover]
pub fn handle_boarding(state: &mut ServerState, updates: &Vec<TrainUpdate>) -> (effects: Vec<
    Effect,
>)
    requires
        old(state).wf(),
    ensures
        final(state).wf(),
        boarding_step_ok(*old(state), *final(state), updates@),
        final(state).trains@ == old(state).trains@,
        final(state).rooms@ == old(state).rooms@,
        final(state).clients@ == old(state).clients@,
        final(state).last_move_ms@ == old(state).last_move_ms@,
        final(state).next_user_id == old(state).next_user_id,
        forall|id: Seq<char>|
            #[trigger] boarding_due(*old(state), updates@, id) ==> ((kv_get(
                final(state).riders@,
                id,
            ) matches Some(rd) && rd.destination_x == kv_get(
                old(state).boarding@,
                id,
            )->0.destination_x && rd.train_id == spec_first_crossing(
                updates@,
                kv_get(old(state).boarding@, id)->0.station_x as int,
            ).id) && (kv_get(final(state).boarding@, id) is None) && board_effects_present(
                effects@,
                id,
                kv_get(old(state).boarding@, id)->0,
                updates@,
            )),
{
    let entries = clone_boarding(&state.boarding);
    let mut effects: Vec<Effect> = Vec::new();
    let mut i: usize = 0;
    let n = entries.len();
    let ghost st0 = *state;
    proof {
        assert(boarding_step_ok(st0, st0, updates@));
        assert(entries@ == st0.boarding@);
    }
    while i < n
        invariant
            i <= n,
            n == entries@.len(),
            st0.wf(),
            n == st0.boarding@.len(),
            entries@ == st0.boarding@,
            state.wf(),
            boarding_step_ok(st0, *state, updates@),
            state.trains@ == st0.trains@,
            state.rooms@ == st0.rooms@,
            state.clients@ == st0.clients@,
            state.last_move_ms@ == st0.last_move_ms@,
            state.next_user_id == st0.next_user_id,
            forall|id: Seq<char>|
                (#[trigger] kv_get(state.riders@, id)) != kv_get(st0.riders@, id) ==> exists|
                    ii: int,
                |
                    0 <= ii < i && (#[trigger] entries@[ii]).0@ == id,
            forall|ii: int|
                0 <= ii < i && #[trigger] boarding_due(st0, updates@, entries@[ii].0@) ==> ((
                kv_get(state.riders@, entries@[ii].0@) matches Some(rd) && rd.destination_x
                    == entries@[ii].1.destination_x && rd.train_id == spec_first_crossing(
                    updates@,
                    entries@[ii].1.station_x as int,
                ).id) && (kv_get(state.boarding@, entries@[ii].0@) is None)
                    && board_effects_present(
                    effects@,
                    entries@[ii].0@,
                    entries@[ii].1,
                    updates@,
                )),
        decreases n - i,
    {
        let ghost effs_top = effects@;
        let ghost pre = *state;
        let uid = entries[i].0.clone();
        proof {
            crate::state::lemma_kv_at(st0.boarding@, uid@, i as int);
            // an unprocessed key still carries its starting ride state
            assert(kv_get(pre.riders@, uid@) == kv_get(st0.riders@, uid@)) by {
                if kv_get(pre.riders@, uid@) != kv_get(st0.riders@, uid@) {
                    let ii = choose|ii: int|
                        0 <= ii < i && (#[trigger] entries@[ii]).0@ == uid@;
                    assert(st0.boarding@[ii].0@ == st0.boarding@[i as int].0@);
                }
            }
            if boarding_due(st0, updates@, uid@) {
                assert(spec_user(pre.users@, uid@) == spec_user(st0.users@, uid@));
            }
        }
        let req = entries[i].1;
        if crate::state::kv_find(&state.riders, uid.as_str()).is_some() {
            proof {
                let a = choose|a: int|
                    0 <= a < state.riders@.len() && #[trigger] state.riders@[a].0@ == uid@;
                crate::state::lemma_kv_at(state.riders@, uid@, a);
                assert(!boarding_due(st0, updates@, uid@)) by {
                    if boarding_due(st0, updates@, uid@) {
                        assert(kv_get(st0.riders@, uid@) is None);
                    }
                }
            }
            kv_remove(&mut state.boarding, uid.as_str());
            proof {
                lemma_remove_keeps(pre.boarding@, state.boarding@, uid@);
                lemma_boarding_mono(st0, pre, *state, updates@);
            }
            i = i + 1;
            continue ;
        }
        let keep = if !state.is_client(uid.as_str()) {
            false
        } else {
            match state.get_user(uid.as_str()) {
                Some(u) => {
                    let expected = station_map_id(req.station_x);
                    str_eq(u.position.map_id.as_str(), expected.as_str())
                },
                None => false,
            }
        };
        if !keep || req.station_x < 0 || req.station_x > 4096 {
            proof {
                assert(!boarding_due(st0, updates@, uid@)) by {
                    if boarding_due(st0, updates@, uid@) {
                        assert(spec_user(state.users@, uid@).position.map_id@
                            == spec_station_map_id(req.station_x as int));
                        assert(is_connected(state.clients@, uid@));
                        assert(keep);
                    }
                }
            }
            kv_remove(&mut state.boarding, uid.as_str());
            proof {
                lemma_remove_keeps(pre.boarding@, state.boarding@, uid@);
                lemma_boarding_mono(st0, pre, *state, updates@);
            }
            i = i + 1;
            continue ;
        }
        let station_milli: u64 = (req.station_x as u64) * 1000;
        let mut k: usize = 0;
        let m = updates.len();
        let mut boarded = false;
        while k < m && !boarded
            invariant
                k <= m,
                m == updates@.len(),
                st0.wf(),
                n == st0.boarding@.len(),
                0 <= i < n,
                entries@ == st0.boarding@,
                entries@[i as int].0@ == uid@,
                entries@[i as int].1 == req,
                0 <= req.station_x <= 4096,
                station_milli as int == req.station_x * 1000,
                !boarded ==> *state == pre,
                !boarded ==> forall|kk: int|
                    0 <= kk < k ==> !spec_station_passed(
                        (#[trigger] updates@[kk]).prev_milli as int,
                        updates@[kk].next_milli as int,
                        station_milli as int,
                        updates@[kk].clockwise,
                    ),
                pre.wf(),
                boarding_step_ok(st0, pre, updates@),
                pre.trains@ == st0.trains@,
                pre.rooms@ == st0.rooms@,
                pre.clients@ == st0.clients@,
                pre.last_move_ms@ == st0.last_move_ms@,
                pre.next_user_id == st0.next_user_id,
                is_connected(pre.clients@, uid@),
                has_user(pre.users@, uid@),
                !kv_has(pre.riders@, uid@),
                state.wf(),
                boarded ==> boarding_step_ok(st0, *state, updates@),
                boarded ==> (kv_get(state.riders@, uid@) matches Some(rd) && rd.destination_x
                    == req.destination_x && rd.train_id == spec_first_crossing(
                    updates@,
                    req.station_x as int,
                ).id),
                boarded ==> (kv_get(state.boarding@, uid@) is None),
                !boarded ==> effects@ == effs_top,
                effs_top.len() <= effects@.len(),
                forall|e: int| 0 <= e < effs_top.len() ==> #[trigger] effects@[e] == effs_top[e],
                boarded ==> board_effects_present(effects@, uid@, req, updates@),
                boarded ==> forall|id2: Seq<char>|
                    id2 != uid@ ==> #[trigger] kv_get(state.riders@, id2) == kv_get(
                        pre.riders@,
                        id2,
                    ),
                state.trains@ == st0.trains@,
                state.rooms@ == st0.rooms@,
                state.clients@ == st0.clients@,
                state.last_move_ms@ == st0.last_move_ms@,
                state.next_user_id == st0.next_user_id,
            decreases (if boarded { 0int } else { 1int }), m - k,
        {
            let u = updates[k];
            if station_passed(u.prev_milli, u.next_milli, station_milli, CIRC_MILLI, u.clockwise) {
                let prev_map = match state.get_user(uid.as_str()) {
                    Some(usr) => usr.position.map_id,
                    None => {
                        proof {
                            assert(false);
                        }
                        return effects;
                    },
                };
                let new_map = train_map_id(u.id);
                let pos = Position {
                    map_id: new_map.clone(),
                    x: TRAIN_WIDTH / 2,
                    y: TRAIN_HEIGHT / 2,
                };
                state.set_position_and_move(uid.as_str(), pos);
                let ghost mid = *state;
                crate::state::kv_insert(
                    &mut state.riders,
                    uid.as_str(),
                    TrainRide { train_id: u.id, destination_x: req.destination_x },
                );
                kv_remove(&mut state.boarding, uid.as_str());
                proof {
                    // the world invariant after the three-step board
                    assert forall|id2: Seq<char>|
                        !(#[trigger] kv_has(state.boarding@, id2) && #[trigger] kv_has(
                            state.riders@,
                            id2,
                        )) by {
                        if kv_has(state.boarding@, id2) && kv_has(state.riders@, id2) {
                            assert(id2 != uid@) by {
                                if id2 == uid@ {
                                    assert(kv_get(state.boarding@, id2) is Some);
                                }
                            }
                            assert(kv_get(state.boarding@, id2) == kv_get(pre.boarding@, id2));
                            assert(kv_get(state.riders@, id2) == kv_get(pre.riders@, id2));
                            assert(kv_get(state.boarding@, id2) is Some);
                            assert(kv_get(state.riders@, id2) is Some);
                            assert(kv_has(pre.boarding@, id2)) by {
                                if !kv_has(pre.boarding@, id2) {
                                    assert(kv_get(pre.boarding@, id2) is None);
                                }
                            }
                            assert(kv_has(pre.riders@, id2)) by {
                                if !kv_has(pre.riders@, id2) {
                                    assert(kv_get(pre.riders@, id2) is None);
                                }
                            }
                        }
                    }
                    assert(state.wf());
                    lemma_remove_keeps(pre.boarding@, state.boarding@, uid@);
                    crate::state::lemma_kv_at(st0.boarding@, uid@, i as int);
                    lemma_board_one(st0, pre, *state, updates@, uid@, req, k as int);
                }
                let mc = Effect::Send {
                    to: uid.clone(),
                    msg: ServerMsg::MapChange(
                        ServerMapChange {
                            map_id: new_map.clone(),
                            position: crate::messages::Position {
                                map_id: new_map.clone(),
                                x: TRAIN_WIDTH / 2,
                                y: TRAIN_HEIGHT / 2,
                            },
                        },
                    ),
                };
                proof {
                    // the scan stopped at the first crossing window
                    assert(spec_first_crossing(updates@, req.station_x as int) == u) by {
                        assert(spec_station_passed(
                            updates@[k as int].prev_milli as int,
                            updates@[k as int].next_milli as int,
                            req.station_x * 1000,
                            updates@[k as int].clockwise,
                        ));
                        let kc = choose|kc: int|
                            0 <= kc < updates@.len() && spec_station_passed(
                                (#[trigger] updates@[kc]).prev_milli as int,
                                updates@[kc].next_milli as int,
                                req.station_x * 1000,
                                updates@[kc].clockwise,
                            ) && (forall|kk: int|
                                0 <= kk < kc ==> !spec_station_passed(
                                    (#[trigger] updates@[kk]).prev_milli as int,
                                    updates@[kk].next_milli as int,
                                    req.station_x * 1000,
                                    updates@[kk].clockwise,
                                ));
                        if kc < k as int {
                            assert(!spec_station_passed(
                                updates@[kc].prev_milli as int,
                                updates@[kc].next_milli as int,
                                req.station_x * 1000,
                                updates@[kc].clockwise,
                            ));
                        } else if (k as int) < kc {
                            assert(!spec_station_passed(
                                updates@[k as int].prev_milli as int,
                                updates@[k as int].next_milli as int,
                                req.station_x * 1000,
                                updates@[k as int].clockwise,
                            ));
                        }
                        assert(updates@[kc] == u);
                    }
                }
                effects.push(mc);
                effects.push(crate::messages::send_notice(uid.as_str(), "boarded train"));
                proof {
                    assert(is_board_map_change(effects@[effects@.len() - 2], uid@, req, updates@));
                    assert(crate::messages::eff_is_notice(
                        effects@[effects@.len() - 1],
                        uid@,
                        "boarded train"@,
                    ));
                    assert(board_effects_present(effects@, uid@, req, updates@));
                }
                let ghost effs_sent = effects@;
                let mut nb = refresh_nearby_for_map(state, prev_map.as_str());
                effects.append(&mut nb);
                let mut nb2 = refresh_nearby_for_map(state, new_map.as_str());
                effects.append(&mut nb2);
                proof {
                    lemma_board_effects_grow(effs_sent, effects@, uid@, req, updates@);
                }
                boarded = true;
            } else {
                k = k + 1;
            }
        }
        proof {
            if !boarded {
                // no window crossed the station, so this request was
                // not due this tick
                assert(!boarding_due(st0, updates@, uid@)) by {
                    if boarding_due(st0, updates@, uid@) {
                        let kk = choose|kk: int|
                            0 <= kk < updates@.len() && spec_station_passed(
                                (#[trigger] updates@[kk]).prev_milli as int,
                                updates@[kk].next_milli as int,
                                (kv_get(st0.boarding@, uid@)->0.station_x as int) * 1000,
                                updates@[kk].clockwise,
                            );
                        assert(station_milli as int == req.station_x * 1000);
                    }
                }
            } else {
                assert(kv_get(state.riders@, uid@) matches Some(rd) && rd.destination_x
                    == req.destination_x);
                assert(kv_get(state.boarding@, uid@) is None);
            }
            assert forall|ii: int|
                0 <= ii < i + 1 && #[trigger] boarding_due(st0, updates@, entries@[ii].0@) implies
                ((kv_get(state.riders@, entries@[ii].0@) matches Some(rd) && rd.destination_x
                    == entries@[ii].1.destination_x && rd.train_id == spec_first_crossing(
                    updates@,
                    entries@[ii].1.station_x as int,
                ).id) && (kv_get(state.boarding@, entries@[ii].0@) is None)
                    && board_effects_present(
                    effects@,
                    entries@[ii].0@,
                    entries@[ii].1,
                    updates@,
                )) by {
                if ii < i {
                    if entries@[ii].0@ == uid@ {
                        assert(st0.boarding@[ii].0@ == st0.boarding@[i as int].0@);
                    } else {
                        lemma_board_effects_grow(
                            effs_top,
                            effects@,
                            entries@[ii].0@,
                            entries@[ii].1,
                            updates@,
                        );
                    }
                }
            }
            assert forall|id2: Seq<char>|
                (#[trigger] kv_get(state.riders@, id2)) != kv_get(st0.riders@, id2) implies exists|
                    ii: int,
                |
                    0 <= ii < i + 1 && (#[trigger] entries@[ii]).0@ == id2 by {
                if id2 == uid@ {
                    assert(entries@[i as int].0@ == uid@);
                } else {
                    if boarded {
                        assert(kv_get(state.riders@, id2) == kv_get(pre.riders@, id2));
                    }
                    assert(kv_get(pre.riders@, id2) != kv_get(st0.riders@, id2));
                }
            }
        }
        i = i + 1;
    }
    proof {
        assert forall|id: Seq<char>| #[trigger] boarding_due(st0, updates@, id) implies ((kv_get(
            state.riders@,
            id,
        ) matches Some(rd) && rd.destination_x == kv_get(st0.boarding@, id)->0.destination_x
            && rd.train_id == spec_first_crossing(
            updates@,
            kv_get(st0.boarding@, id)->0.station_x as int,
        ).id) && (kv_get(state.boarding@, id) is None) && board_effects_present(
            effects@,
            id,
            kv_get(st0.boarding@, id)->0,
            updates@,
        )) by {
            assert(kv_has(st0.boarding@, id)) by {
                if !kv_has(st0.boarding@, id) {
                    assert(kv_get(st0.boarding@, id) is None);
                }
            }
            let ii = choose|ii: int|
                0 <= ii < st0.boarding@.len() && (#[trigger] st0.boarding@[ii]).0@ == id;
            crate::state::lemma_kv_at(st0.boarding@, id, ii);
            assert(entries@[ii].0@ == id);
            assert(boarding_due(st0, updates@, entries@[ii].0@));
        }
    }
    effects
}

/// After `kv_remove`, every remaining binding is an old binding.
proof fn lemma_remove_keeps<V>(olds: Seq<(String, V)>, news: Seq<(String, V)>, removed: Seq<char>)
    requires
        !kv_has(news, removed),
        forall|q: Seq<char>|
            q != removed ==> #[trigger] kv_get(news, q) == kv_get(olds, q),
    ensures
        forall|q: Seq<char>|
            #[trigger] kv_has(news, q) ==> kv_get(news, q) == kv_get(olds, q) && kv_has(olds, q),
{
    assert forall|q: Seq<char>| #[trigger] kv_has(news, q) implies kv_get(news, q) == kv_get(
        olds,
        q,
    ) && kv_has(olds, q) by {
        assert(q != removed);
        assert(kv_get(news, q) is Some);
        if !kv_has(olds, q) {
            assert(kv_get(olds, q) is None);
        }
    }
}


/// What the rider pass may do: rides only end (none begin, none change
/// train or destination), queued boarding requests stay, and a user
/// whose record changed has disembarked at its ride's destination
/// station, beside one of its doors.
pub open spec fn riders_step_ok(st0: ServerState, st1: ServerState) -> bool {
    &&& st1.boarding@ == st0.boarding@
    &&& forall|id: Seq<char>|
        (#[trigger] kv_get(st1.riders@, id)) == kv_get(st0.riders@, id) || kv_get(
            st1.riders@,
            id,
        ) is None
    &&& forall|id: Seq<char>|
        #[trigger] has_user(st1.users@, id) == has_user(st0.users@, id)
    &&& forall|id: Seq<char>|
        has_user(st0.users@, id) && #[trigger] kv_get(st1.riders@, id) == kv_get(
            st0.riders@,
            id,
        ) ==> spec_user(st1.users@, id) == spec_user(st0.users@, id)
    &&& forall|id: Seq<char>|
        has_user(st0.users@, id) && #[trigger] kv_get(st1.riders@, id) != kv_get(
            st0.riders@,
            id,
        ) ==> (kv_get(st0.riders@, id) matches Some(ride) && (spec_user(st1.users@, id)
            == spec_user(st0.users@, id) || (spec_user(st1.users@, id).position.map_id@
            == spec_station_map_id(ride.destination_x as int) && spec_user(
            st1.users@,
            id,
        ).position.x == crate::map::STATION_WIDTH / 2 && (spec_user(st1.users@, id).position.y == 1
            || spec_user(st1.users@, id).position.y == crate::map::STATION_HEIGHT - 2))))
}

/// Ending rides without touching users keeps the rider guarantees.
proof fn lemma_riders_mono(st0: ServerState, pre: ServerState, st1: ServerState, removed: Seq<
    char,
>)
    requires
        riders_step_ok(st0, pre),
        st1.users@ == pre.users@,
        st1.boarding@ == pre.boarding@,
        kv_get(st1.riders@, removed) is None,
        forall|q: Seq<char>|
            q != removed ==> #[trigger] kv_get(st1.riders@, q) == kv_get(pre.riders@, q),
        kv_get(pre.riders@, removed) == kv_get(st0.riders@, removed),
    ensures
        riders_step_ok(st0, st1),
{
    assert forall|id: Seq<char>|
        has_user(st0.users@, id) && #[trigger] kv_get(st1.riders@, id) != kv_get(
            st0.riders@,
            id,
        ) implies (kv_get(st0.riders@, id) matches Some(ride) && (spec_user(st1.users@, id)
            == spec_user(st0.users@, id) || (spec_user(st1.users@, id).position.map_id@
            == spec_station_map_id(ride.destination_x as int) && spec_user(
            st1.users@,
            id,
        ).position.x == crate::map::STATION_WIDTH / 2 && (spec_user(st1.users@, id).position.y == 1
            || spec_user(st1.users@, id).position.y == crate::map::STATION_HEIGHT - 2)))) by {
        if id == removed {
            assert(kv_get(st0.riders@, removed) is Some);
            assert(has_user(st1.users@, id) == has_user(pre.users@, id));
            assert(has_user(pre.users@, id));
            assert(kv_get(pre.riders@, id) == kv_get(st0.riders@, id));
            assert(spec_user(pre.users@, id) == spec_user(st0.users@, id));
            assert(spec_user(st1.users@, id) == spec_user(pre.users@, id));
        } else {
            assert(kv_get(st1.riders@, id) == kv_get(pre.riders@, id));
            assert(has_user(st1.users@, id) == has_user(pre.users@, id));
            assert(has_user(pre.users@, id));
            assert(spec_user(st1.users@, id) == spec_user(pre.users@, id));
        }
    }
}

/// One disembark preserves the rider guarantees.
proof fn lemma_disembark_one(
    st0: ServerState,
    pre: ServerState,
    st1: ServerState,
    uid: Seq<char>,
    ride: TrainRide,
)
    requires
        riders_step_ok(st0, pre),
        kv_get(pre.riders@, uid) == Some(ride),
        kv_get(st0.riders@, uid) == Some(ride),
        has_user(pre.users@, uid),
        has_user(st1.users@, uid),
        st1.boarding@ == pre.boarding@,
        kv_get(st1.riders@, uid) is None,
        forall|q: Seq<char>|
            q != uid ==> #[trigger] kv_get(st1.riders@, q) == kv_get(pre.riders@, q),
        spec_user(st1.users@, uid).position.map_id@ == spec_station_map_id(
            ride.destination_x as int,
        ),
        spec_user(st1.users@, uid).position.x == crate::map::STATION_WIDTH / 2,
        spec_user(st1.users@, uid).position.y == 1 || spec_user(st1.users@, uid).position.y
            == crate::map::STATION_HEIGHT - 2,
        forall|id: Seq<char>|
            id != uid ==> #[trigger] has_user(st1.users@, id) == has_user(pre.users@, id) && (
            has_user(pre.users@, id) ==> spec_user(st1.users@, id) == spec_user(pre.users@, id)),
    ensures
        riders_step_ok(st0, st1),
{
    assert forall|id: Seq<char>| #[trigger] has_user(st1.users@, id) == has_user(
        st0.users@,
        id,
    ) by {
        if id != uid {
            assert(has_user(st1.users@, id) == has_user(pre.users@, id));
        }
    }
    assert forall|id: Seq<char>|
        has_user(st0.users@, id) && #[trigger] kv_get(st1.riders@, id) == kv_get(
            st0.riders@,
            id,
        ) implies spec_user(st1.users@, id) == spec_user(st0.users@, id) by {
        if id == uid {
            assert(kv_get(st1.riders@, uid) is None);
            assert(kv_get(st0.riders@, uid) is Some);
            assert(false);
        } else {
            assert(kv_get(st1.riders@, id) == kv_get(pre.riders@, id));
            assert(has_user(st1.users@, id) == has_user(pre.users@, id));
            assert(has_user(pre.users@, id));
            assert(spec_user(st1.users@, id) == spec_user(pre.users@, id));
        }
    }
    assert forall|id: Seq<char>|
        has_user(st0.users@, id) && #[trigger] kv_get(st1.riders@, id) != kv_get(
            st0.riders@,
            id,
        ) implies (kv_get(st0.riders@, id) matches Some(ride2) && (spec_user(st1.users@, id)
            == spec_user(st0.users@, id) || (spec_user(st1.users@, id).position.map_id@
            == spec_station_map_id(ride2.destination_x as int) && spec_user(
            st1.users@,
            id,
        ).position.x == crate::map::STATION_WIDTH / 2 && (spec_user(st1.users@, id).position.y == 1
            || spec_user(st1.users@, id).position.y == crate::map::STATION_HEIGHT - 2)))) by {
        if id != uid {
            assert(kv_get(st1.riders@, id) == kv_get(pre.riders@, id));
            assert(has_user(st1.users@, id) == has_user(pre.users@, id));
            assert(has_user(pre.users@, id));
            assert(spec_user(st1.users@, id) == spec_user(pre.users@, id));
        }
    }
}

/// A ride that must end this tick: its user is connected, aboard the
/// ride's train, the destination is a ring column, and the first
/// update for that train crossed the destination.
pub open spec fn ride_due(st: ServerState, updates: Seq<TrainUpdate>, id: Seq<char>) -> bool {
    &&& kv_get(st.riders@, id) matches Some(ride) && ({
        &&& is_connected(st.clients@, id)
        &&& has_user(st.users@, id)
        &&& spec_user(st.users@, id).position.map_id@ == crate::monorail::spec_train_map_id(
            ride.train_id as int,
        )
        &&& 0 <= ride.destination_x <= 4096
        &&& exists|k: int|
            0 <= k < updates.len() && (#[trigger] updates[k]).id == ride.train_id
                && spec_station_passed(
                updates[k].prev_milli as int,
                updates[k].next_milli as int,
                ride.destination_x * 1000,
                updates[k].clockwise,
            ) && (forall|kk: int| 0 <= kk < k ==> (#[trigger] updates[kk]).id != ride.train_id)
    })
}

/// The first entry of `updates` that carries `tid`: the one update a
/// ride on that train is judged against.
pub open spec fn spec_first_update(updates: Seq<TrainUpdate>, tid: u32) -> TrainUpdate {
    updates[choose|k: int|
        0 <= k < updates.len() && (#[trigger] updates[k]).id == tid && (forall|kk: int|
            0 <= kk < k ==> (#[trigger] updates[kk]).id != tid)]
}

/// A ride whose train moved this tick but whose user is no longer
/// riding it: disconnected, unknown, or away from the train's map.
pub open spec fn ride_stale(st: ServerState, updates: Seq<TrainUpdate>, id: Seq<char>) -> bool {
    kv_get(st.riders@, id) matches Some(ride) && ({
        &&& exists|k: int|
            0 <= k < updates.len() && (#[trigger] updates[k]).id == ride.train_id
        &&& !(is_connected(st.clients@, id) && has_user(st.users@, id) && spec_user(
            st.users@,
            id,
        ).position.map_id@ == crate::monorail::spec_train_map_id(ride.train_id as int))
    })
}

/// A map change that lands `id` at the destination station of `ride`,
/// beside the bottom door after a clockwise leg and the top one after
/// a counter-clockwise leg.
pub open spec fn is_disembark_map_change(
    eff: Effect,
    id: Seq<char>,
    ride: TrainRide,
    updates: Seq<TrainUpdate>,
) -> bool {
    eff matches Effect::Send { to, msg: ServerMsg::MapChange(mc) } && to@ == id && mc.map_id@
        == spec_station_map_id(ride.destination_x as int) && mc.position.map_id@
        == spec_station_map_id(ride.destination_x as int) && mc.position.x
        == crate::map::STATION_WIDTH / 2 && mc.position.y == (if spec_first_update(
        updates,
        ride.train_id,
    ).clockwise {
        crate::map::STATION_HEIGHT - 2
    } else {
        1
    })
}

/// The replies a disembark owes its rider: the map change onto the
/// destination station and the notice that names the event.
pub open spec fn disembark_effects_present(
    effs: Seq<Effect>,
    id: Seq<char>,
    ride: TrainRide,
    updates: Seq<TrainUpdate>,
) -> bool {
    &&& exists|e: int|
        0 <= e < effs.len() && is_disembark_map_change(#[trigger] effs[e], id, ride, updates)
    &&& exists|e: int|
        0 <= e < effs.len() && crate::messages::eff_is_notice(
            #[trigger] effs[e],
            id,
            "disembarked train"@,
        )
}

/// Growing the effect list keeps the owed disembark replies present.
proof fn lemma_disembark_effects_grow(
    a: Seq<Effect>,
    b: Seq<Effect>,
    id: Seq<char>,
    ride: TrainRide,
    updates: Seq<TrainUpdate>,
)
    requires
        a.len() <= b.len(),
        forall|e: int| 0 <= e < a.len() ==> #[trigger] b[e] == a[e],
        disembark_effects_present(a, id, ride, updates),
    ensures
        disembark_effects_present(b, id, ride, updates),
{
    let e1 = choose|e: int|
        0 <= e < a.len() && is_disembark_map_change(#[trigger] a[e], id, ride, updates);
    assert(is_disembark_map_change(b[e1], id, ride, updates));
    let e2 = choose|e: int|
        0 <= e < a.len() && crate::messages::eff_is_notice(
            #[trigger] a[e],
            id,
            "disembarked train"@,
        );
    assert(crate::messages::eff_is_notice(b[e2], id, "disembarked train"@));
}

/// Disembark riders whose destination was crossed this tick; a due
/// ride ends at its destination station. Rides whose user left the
/// train map some other way are dropped.
pub fn handle_riders(state: &mut ServerState, updates: &Vec<TrainUpdate>) -> (effects: Vec<Effect>)
    requires
        old(state).wf(),
    ensures
        final(state).wf(),
        riders_step_ok(*old(state), *final(state)),
        final(state).trains@ == old(state).trains@,
        final(state).rooms@ == old(state).rooms@,
        final(state).clients@ == old(state).clients@,
        final(state).last_move_ms@ == old(state).last_move_ms@,
        final(state).next_user_id == old(state).next_user_id,
        forall|id: Seq<char>|
            #[trigger] ride_due(*old(state), updates@, id) ==> ((kv_get(
                final(state).riders@,
                id,
            ) is None) && spec_user(final(state).users@, id).position.map_id@
                == spec_station_map_id(kv_get(old(state).riders@, id)->0.destination_x as int)
                && spec_user(final(state).users@, id).position.x == crate::map::STATION_WIDTH / 2
                && spec_user(final(state).users@, id).position.y == (if spec_first_update(
                updates@,
                kv_get(old(state).riders@, id)->0.train_id,
            ).clockwise {
                crate::map::STATION_HEIGHT - 2
            } else {
                1
            }) && disembark_effects_present(
                effects@,
                id,
                kv_get(old(state).riders@, id)->0,
                updates@,
            )),
        forall|id: Seq<char>|
            #[trigger] ride_stale(*old(state), updates@, id) ==> kv_get(
                final(state).riders@,
                id,
            ) is None,
        // rides end only by arriving or by going stale
        forall|id: Seq<char>|
            ((#[trigger] kv_get(final(state).riders@, id)) is None && kv_get(
                old(state).riders@,
                id,
            ) is Some) ==> ride_due(*old(state), updates@, id) || ride_stale(
                *old(state),
                updates@,
                id,
            ),
{
    let entries = clone_riders(&state.riders);
    let mut effects: Vec<Effect> = Vec::new();
    let mut i: usize = 0;
    let n = entries.len();
    let ghost st0 = *state;
    proof {
        assert(riders_step_ok(st0, st0));
        assert(entries@ == st0.riders@);
    }
    while i < n
        invariant
            i <= n,
            st0.wf(),
            n == st0.riders@.len(),
            entries@ == st0.riders@,
            state.wf(),
            riders_step_ok(st0, *state),
            state.trains@ == st0.trains@,
            state.rooms@ == st0.rooms@,
            state.clients@ == st0.clients@,
            state.last_move_ms@ == st0.last_move_ms@,
            state.next_user_id == st0.next_user_id,
            forall|id: Seq<char>|
                (#[trigger] kv_get(state.riders@, id)) != kv_get(st0.riders@, id) ==> exists|
                    ii: int,
                |
                    0 <= ii < i && (#[trigger] entries@[ii]).0@ == id,
            forall|ii: int|
                0 <= ii < i && #[trigger] ride_due(st0, updates@, entries@[ii].0@) ==> ((kv_get(
                    state.riders@,
                    entries@[ii].0@,
                ) is None) && spec_user(state.users@, entries@[ii].0@).position.map_id@
                    == spec_station_map_id(entries@[ii].1.destination_x as int) && spec_user(
                    state.users@,
                    entries@[ii].0@,
                ).position.x == crate::map::STATION_WIDTH / 2 && spec_user(
                    state.users@,
                    entries@[ii].0@,
                ).position.y == (if spec_first_update(updates@, entries@[ii].1.train_id).clockwise {
                    crate::map::STATION_HEIGHT - 2
                } else {
                    1
                }) && disembark_effects_present(
                    effects@,
                    entries@[ii].0@,
                    entries@[ii].1,
                    updates@,
                )),
            forall|ii: int|
                0 <= ii < i && #[trigger] ride_stale(st0, updates@, entries@[ii].0@) ==> kv_get(
                    state.riders@,
                    entries@[ii].0@,
                ) is None,
            forall|ii: int|
                0 <= ii < i && (kv_get(state.riders@, (#[trigger] entries@[ii]).0@) is None)
                    && (kv_get(st0.riders@, entries@[ii].0@) is Some) ==> ride_due(
                    st0,
                    updates@,
                    entries@[ii].0@,
                ) || ride_stale(st0, updates@, entries@[ii].0@),
        decreases n - i,
    {
        let ghost effs_top = effects@;
        let ghost pre = *state;
        let uid = entries[i].0.clone();
        let ride = entries[i].1;
        proof {
            crate::state::lemma_kv_at(st0.riders@, uid@, i as int);
            assert(kv_get(pre.riders@, uid@) == kv_get(st0.riders@, uid@)) by {
                if kv_get(pre.riders@, uid@) != kv_get(st0.riders@, uid@) {
                    let ii = choose|ii: int|
                        0 <= ii < i && (#[trigger] entries@[ii]).0@ == uid@;
                    assert(st0.riders@[ii].0@ == st0.riders@[i as int].0@);
                }
            }
            if ride_due(st0, updates@, uid@) {
                assert(spec_user(pre.users@, uid@) == spec_user(st0.users@, uid@));
            }
            assert(riders_step_ok(st0, pre));
        }
        // the update for this ride's train, if it moved this tick
        let mut found: Option<TrainUpdate> = None;
        let mut k: usize = 0;
        let m = updates.len();
        while k < m
            invariant
                k <= m,
                m == updates@.len(),
                match found {
                    Some(u) => exists|kk: int|
                        0 <= kk < updates@.len() && #[trigger] updates@[kk] == u && u.id
                            == ride.train_id && (forall|k2: int|
                            0 <= k2 < kk ==> (#[trigger] updates@[k2]).id != ride.train_id),
                    None => forall|k2: int|
                        0 <= k2 < k ==> (#[trigger] updates@[k2]).id != ride.train_id,
                },
            decreases m - k,
        {
            if found.is_none() && updates[k].id == ride.train_id {
                found = Some(updates[k]);
            }
            k = k + 1;
        }
        let u = match found {
            Some(u) => u,
            None => {
                proof {
                    assert(!ride_due(st0, updates@, uid@));
                    assert(!ride_stale(st0, updates@, uid@));
                    assert(kv_get(state.riders@, uid@) is Some);
                    lemma_rider_loop_step(st0, pre, *state, updates@, entries@, i as int);
            assert forall|ii: int|
                0 <= ii < i + 1 && (kv_get(state.riders@, (#[trigger] entries@[ii]).0@) is None)
                    && (kv_get(st0.riders@, entries@[ii].0@) is Some) implies ride_due(
                st0,
                updates@,
                entries@[ii].0@,
            ) || ride_stale(st0, updates@, entries@[ii].0@) by {
                if ii < i {
                    if entries@[ii].0@ == uid@ {
                        assert(st0.riders@[ii].0@ == st0.riders@[i as int].0@);
                    } else {
                        assert(kv_get(state.riders@, entries@[ii].0@) == kv_get(
                            pre.riders@,
                            entries@[ii].0@,
                        ));
                    }
                }
            }
                }
                i = i + 1;
                continue ;
            },
        };
        // the ride is live only while the user is connected and still
        // on this train's map
        let mut valid = false;
        if state.is_client(uid.as_str()) {
            match state.get_user(uid.as_str()) {
                Some(usr) => {
                    let expected = train_map_id(ride.train_id);
                    valid = str_eq(usr.position.map_id.as_str(), expected.as_str());
                },
                None => {
                },
            }
        }
        if !valid {
            proof {
                assert(!ride_due(st0, updates@, uid@)) by {
                    if ride_due(st0, updates@, uid@) {
                        assert(spec_user(state.users@, uid@).position.map_id@
                            == crate::monorail::spec_train_map_id(ride.train_id as int));
                        assert(is_connected(state.clients@, uid@));
                    }
                }
            }
            // the current binding of uid may differ from the snapshot;
            // only a still-identical ride is dropped here
            let still = match crate::state::kv_find(&state.riders, uid.as_str()) {
                Some(j) => {
                    proof {
                        crate::state::lemma_kv_at(state.riders@, uid@, j as int);
                    }
                    state.riders[j].1 == ride
                },
                None => false,
            };
            if still {
                if kv_get_is_unchanged(state, Ghost(st0), uid.as_str(), ride) {
                    state.remove_ride(uid.as_str());
                    proof {
                        lemma_riders_mono(st0, pre, *state, uid@);
                    }
                }
            }
            proof {
                assert(kv_get(state.riders@, uid@) is None);
                assert(ride_stale(st0, updates@, uid@)) by {
                    assert(!(is_connected(st0.clients@, uid@) && has_user(st0.users@, uid@)
                        && spec_user(st0.users@, uid@).position.map_id@
                        == crate::monorail::spec_train_map_id(ride.train_id as int))) by {
                        if is_connected(st0.clients@, uid@) && has_user(st0.users@, uid@)
                            && spec_user(st0.users@, uid@).position.map_id@
                            == crate::monorail::spec_train_map_id(ride.train_id as int) {
                            assert(spec_user(pre.users@, uid@) == spec_user(st0.users@, uid@));
                            assert(valid);
                        }
                    }
                }
                lemma_rider_loop_step(st0, pre, *state, updates@, entries@, i as int);
            assert forall|ii: int|
                0 <= ii < i + 1 && (kv_get(state.riders@, (#[trigger] entries@[ii]).0@) is None)
                    && (kv_get(st0.riders@, entries@[ii].0@) is Some) implies ride_due(
                st0,
                updates@,
                entries@[ii].0@,
            ) || ride_stale(st0, updates@, entries@[ii].0@) by {
                if ii < i {
                    if entries@[ii].0@ == uid@ {
                        assert(st0.riders@[ii].0@ == st0.riders@[i as int].0@);
                    } else {
                        assert(kv_get(state.riders@, entries@[ii].0@) == kv_get(
                            pre.riders@,
                            entries@[ii].0@,
                        ));
                    }
                }
            }
            }
            i = i + 1;
            continue ;
        }
        if ride.destination_x < 0 || ride.destination_x > 4096 {
            proof {
                assert(!ride_due(st0, updates@, uid@));
                assert(!ride_stale(st0, updates@, uid@)) by {
                    if ride_stale(st0, updates@, uid@) {
                        assert(has_user(state.users@, uid@) == has_user(st0.users@, uid@));
                        assert(spec_user(state.users@, uid@) == spec_user(st0.users@, uid@));
                    }
                }
                assert(kv_get(state.riders@, uid@) is Some);
                lemma_rider_loop_step(st0, pre, *state, updates@, entries@, i as int);
            assert forall|ii: int|
                0 <= ii < i + 1 && (kv_get(state.riders@, (#[trigger] entries@[ii]).0@) is None)
                    && (kv_get(st0.riders@, entries@[ii].0@) is Some) implies ride_due(
                st0,
                updates@,
                entries@[ii].0@,
            ) || ride_stale(st0, updates@, entries@[ii].0@) by {
                if ii < i {
                    if entries@[ii].0@ == uid@ {
                        assert(st0.riders@[ii].0@ == st0.riders@[i as int].0@);
                    } else {
                        assert(kv_get(state.riders@, entries@[ii].0@) == kv_get(
                            pre.riders@,
                            entries@[ii].0@,
                        ));
                    }
                }
            }
            }
            i = i + 1;
            continue ;
        }
        let dest_milli: u64 = (ride.destination_x as u64) * 1000;
        let crossing = station_passed(u.prev_milli, u.next_milli, dest_milli, CIRC_MILLI, u.clockwise);
        proof {
            if !crossing {
                // the first update for this train did not cross, so
                // the ride is not due this tick
                assert(!ride_due(st0, updates@, uid@)) by {
                    if ride_due(st0, updates@, uid@) {
                        let kd = choose|kd: int|
                            0 <= kd < updates@.len() && (#[trigger] updates@[kd]).id
                                == ride.train_id && spec_station_passed(
                                updates@[kd].prev_milli as int,
                                updates@[kd].next_milli as int,
                                ride.destination_x * 1000,
                                updates@[kd].clockwise,
                            ) && (forall|k2: int|
                                0 <= k2 < kd ==> (#[trigger] updates@[k2]).id != ride.train_id);
                        let kf = choose|kf: int|
                            0 <= kf < updates@.len() && #[trigger] updates@[kf] == u && u.id
                                == ride.train_id && (forall|k2: int|
                                0 <= k2 < kf ==> (#[trigger] updates@[k2]).id != ride.train_id);
                        if kd < kf {
                            assert(updates@[kd].id != ride.train_id);
                        } else if kf < kd {
                            assert(updates@[kf].id != ride.train_id);
                        }
                        assert(updates@[kd] == u);
                    }
                }
            }
        }
        if crossing {
            if kv_get_is_unchanged(state, Ghost(st0), uid.as_str(), ride) {
                let prev_map = match state.get_user(uid.as_str()) {
                    Some(usr) => usr.position.map_id,
                    None => {
                        proof {
                            assert(false);
                        }
                        return effects;
                    },
                };
                proof {
                    // this entry is exactly a due ride of this tick
                    assert(ride_due(st0, updates@, uid@)) by {
                        let kf = choose|kf: int|
                            0 <= kf < updates@.len() && #[trigger] updates@[kf] == u && u.id
                                == ride.train_id && (forall|k2: int|
                                0 <= k2 < kf ==> (#[trigger] updates@[k2]).id != ride.train_id);
                        assert(updates@[kf].id == ride.train_id && spec_station_passed(
                            updates@[kf].prev_milli as int,
                            updates@[kf].next_milli as int,
                            ride.destination_x * 1000,
                            updates@[kf].clockwise,
                        ) && (forall|kk: int|
                            0 <= kk < kf ==> (#[trigger] updates@[kk]).id != ride.train_id));
                        assert(spec_user(state.users@, uid@) == spec_user(st0.users@, uid@));
                    }
                }
                let street_y = if u.clockwise {
                    STATION_DOOR_Y_BOTTOM
                } else {
                    STATION_DOOR_Y_TOP
                };
                let (sx, sy) = station_entry_position_for_street_y(street_y);
                let new_map = station_map_id(ride.destination_x);
                let pos = Position { map_id: new_map.clone(), x: sx, y: sy };
                state.set_position_and_move(uid.as_str(), pos);
                state.remove_ride(uid.as_str());
                proof {
                    lemma_disembark_one(st0, pre, *state, uid@, ride);
                }
                let mc = Effect::Send {
                    to: uid.clone(),
                    msg: ServerMsg::MapChange(
                        ServerMapChange {
                            map_id: new_map.clone(),
                            position: crate::messages::Position {
                                map_id: new_map.clone(),
                                x: sx,
                                y: sy,
                            },
                        },
                    ),
                };
                effects.push(mc);
                effects.push(crate::messages::send_notice(uid.as_str(), "disembarked train"));
                proof {
                    assert(spec_first_update(updates@, ride.train_id) == u) by {
                        let kf = choose|kf: int|
                            0 <= kf < updates@.len() && #[trigger] updates@[kf] == u && u.id
                                == ride.train_id && (forall|k2: int|
                                0 <= k2 < kf ==> (#[trigger] updates@[k2]).id != ride.train_id);
                        let kc = choose|k: int|
                            0 <= k < updates@.len() && (#[trigger] updates@[k]).id == ride.train_id
                                && (forall|kk: int|
                                0 <= kk < k ==> (#[trigger] updates@[kk]).id != ride.train_id);
                        assert(0 <= kf < updates@.len() && updates@[kf].id == ride.train_id && (
                        forall|kk: int|
                            0 <= kk < kf ==> (#[trigger] updates@[kk]).id != ride.train_id));
                        if kc < kf {
                            assert(updates@[kc].id != ride.train_id);
                        } else if kf < kc {
                            assert(updates@[kf].id != ride.train_id);
                        }
                        assert(updates@[kc] == u);
                    }
                    assert(is_disembark_map_change(
                        effects@[effects@.len() - 2],
                        uid@,
                        ride,
                        updates@,
                    ));
                    assert(crate::messages::eff_is_notice(
                        effects@[effects@.len() - 1],
                        uid@,
                        "disembarked train"@,
                    ));
                    assert(disembark_effects_present(effects@, uid@, ride, updates@));
                }
                let ghost effs_sent = effects@;
                let mut nb = refresh_nearby_for_map(state, prev_map.as_str());
                effects.append(&mut nb);
                let mut nb2 = refresh_nearby_for_map(state, new_map.as_str());
                effects.append(&mut nb2);
                proof {
                    assert(kv_get(state.riders@, uid@) is None);
                    assert(spec_user(state.users@, uid@).position.map_id@ == spec_station_map_id(
                        ride.destination_x as int,
                    ));
                    lemma_disembark_effects_grow(effs_sent, effects@, uid@, ride, updates@);
                }
            } else {
                proof {
                    assert(!ride_due(st0, updates@, uid@)) by {
                        if ride_due(st0, updates@, uid@) {
                            assert(kv_get(state.riders@, uid@) == Some(ride));
                        }
                    }
                }
            }
        } else {
            proof {
                assert(!ride_due(st0, updates@, uid@));
            }
        }
        proof {
            assert forall|id: Seq<char>| id != uid@ && has_user(pre.users@, id) implies spec_user(
                state.users@,
                id,
            ) == spec_user(pre.users@, id) by {
                assert(has_user(state.users@, id) == has_user(pre.users@, id));
            }
            assert(!ride_stale(st0, updates@, uid@)) by {
                if ride_stale(st0, updates@, uid@) {
                    assert(has_user(pre.users@, uid@) == has_user(st0.users@, uid@));
                    assert(spec_user(pre.users@, uid@) == spec_user(st0.users@, uid@));
                }
            }
            lemma_rider_loop_step(st0, pre, *state, updates@, entries@, i as int);
            assert forall|ii: int|
                0 <= ii < i + 1 && #[trigger] ride_due(st0, updates@, entries@[ii].0@) implies
                disembark_effects_present(effects@, entries@[ii].0@, entries@[ii].1, updates@) by {
                if ii < i {
                    lemma_disembark_effects_grow(
                        effs_top,
                        effects@,
                        entries@[ii].0@,
                        entries@[ii].1,
                        updates@,
                    );
                } else {
                    assert(entries@[ii].0@ == uid@ && entries@[ii].1 == ride);
                }
            }
            assert forall|ii: int|
                0 <= ii < i + 1 && (kv_get(state.riders@, (#[trigger] entries@[ii]).0@) is None)
                    && (kv_get(st0.riders@, entries@[ii].0@) is Some) implies ride_due(
                st0,
                updates@,
                entries@[ii].0@,
            ) || ride_stale(st0, updates@, entries@[ii].0@) by {
                if ii < i {
                    if entries@[ii].0@ == uid@ {
                        assert(st0.riders@[ii].0@ == st0.riders@[i as int].0@);
                    } else {
                        assert(kv_get(state.riders@, entries@[ii].0@) == kv_get(
                            pre.riders@,
                            entries@[ii].0@,
                        ));
                    }
                }
            }
        }
        i = i + 1;
    }
    proof {
        assert forall|id: Seq<char>| #[trigger] ride_due(st0, updates@, id) implies ((kv_get(
            state.riders@,
            id,
        ) is None) && spec_user(state.users@, id).position.map_id@ == spec_station_map_id(
            kv_get(st0.riders@, id)->0.destination_x as int,
        ) && spec_user(state.users@, id).position.x == crate::map::STATION_WIDTH / 2 && spec_user(
            state.users@,
            id,
        ).position.y == (if spec_first_update(
            updates@,
            kv_get(st0.riders@, id)->0.train_id,
        ).clockwise {
            crate::map::STATION_HEIGHT - 2
        } else {
            1
        }) && disembark_effects_present(effects@, id, kv_get(st0.riders@, id)->0, updates@)) by {
            assert(kv_has(st0.riders@, id)) by {
                if !kv_has(st0.riders@, id) {
                    assert(kv_get(st0.riders@, id) is None);
                }
            }
            let ii = choose|ii: int|
                0 <= ii < st0.riders@.len() && (#[trigger] st0.riders@[ii]).0@ == id;
            crate::state::lemma_kv_at(st0.riders@, id, ii);
            assert(entries@[ii].0@ == id);
            assert(ride_due(st0, updates@, entries@[ii].0@));
        }
        assert forall|id: Seq<char>| #[trigger] ride_stale(st0, updates@, id) implies kv_get(
            state.riders@,
            id,
        ) is None by {
            assert(kv_has(st0.riders@, id)) by {
                if !kv_has(st0.riders@, id) {
                    assert(kv_get(st0.riders@, id) is None);
                }
            }
            let ii = choose|ii: int|
                0 <= ii < st0.riders@.len() && (#[trigger] st0.riders@[ii]).0@ == id;
            crate::state::lemma_kv_at(st0.riders@, id, ii);
            assert(entries@[ii].0@ == id);
            assert(ride_stale(st0, updates@, entries@[ii].0@));
        }
        assert forall|id: Seq<char>|
            ((#[trigger] kv_get(state.riders@, id)) is None && kv_get(st0.riders@, id) is Some)
                implies ride_due(st0, updates@, id) || ride_stale(st0, updates@, id) by {
            assert(kv_get(state.riders@, id) != kv_get(st0.riders@, id));
            let ii = choose|ii: int| 0 <= ii < n && (#[trigger] entries@[ii]).0@ == id;
            assert(kv_get(state.riders@, entries@[ii].0@) is None);
            crate::state::lemma_kv_at(st0.riders@, id, ii);
        }
    }
    effects
}

/// The per-entry bookkeeping of the rider pass: the riders that
/// changed came from processed entries, and every processed due ride
/// ended at its destination.
proof fn lemma_rider_loop_step(
    st0: ServerState,
    pre: ServerState,
    st1: ServerState,
    updates: Seq<TrainUpdate>,
    entries: Seq<(String, TrainRide)>,
    i: int,
)
    requires
        entries == st0.riders@,
        st0.wf(),
        0 <= i < entries.len(),
        riders_step_ok(st0, pre),
        forall|id: Seq<char>|
            (#[trigger] kv_get(pre.riders@, id)) != kv_get(st0.riders@, id) ==> exists|ii: int|
                0 <= ii < i && (#[trigger] entries[ii]).0@ == id,
        forall|ii: int|
            0 <= ii < i && #[trigger] ride_due(st0, updates, entries[ii].0@) ==> ((kv_get(
                pre.riders@,
                entries[ii].0@,
            ) is None) && spec_user(pre.users@, entries[ii].0@).position.map_id@
                == spec_station_map_id(entries[ii].1.destination_x as int) && spec_user(
                pre.users@,
                entries[ii].0@,
            ).position.x == crate::map::STATION_WIDTH / 2 && spec_user(
                pre.users@,
                entries[ii].0@,
            ).position.y == (if spec_first_update(updates, entries[ii].1.train_id).clockwise {
                crate::map::STATION_HEIGHT - 2
            } else {
                1
            })),
        forall|ii: int|
            0 <= ii < i && #[trigger] ride_stale(st0, updates, entries[ii].0@) ==> kv_get(
                pre.riders@,
                entries[ii].0@,
            ) is None,
        // what this entry's processing did
        ride_due(st0, updates, entries[i].0@) ==> ((kv_get(st1.riders@, entries[i].0@) is None)
            && spec_user(st1.users@, entries[i].0@).position.map_id@ == spec_station_map_id(
            entries[i].1.destination_x as int,
        ) && spec_user(st1.users@, entries[i].0@).position.x == crate::map::STATION_WIDTH / 2
            && spec_user(st1.users@, entries[i].0@).position.y == (if spec_first_update(
            updates,
            entries[i].1.train_id,
        ).clockwise {
            crate::map::STATION_HEIGHT - 2
        } else {
            1
        })),
        ride_stale(st0, updates, entries[i].0@) ==> kv_get(st1.riders@, entries[i].0@) is None,
        forall|id: Seq<char>|
            id != entries[i].0@ ==> #[trigger] kv_get(st1.riders@, id) == kv_get(pre.riders@, id),
        forall|id: Seq<char>|
            id != entries[i].0@ && has_user(pre.users@, id) ==> spec_user(st1.users@, id)
                == spec_user(pre.users@, id),
        kv_get(st1.riders@, entries[i].0@) == kv_get(pre.riders@, entries[i].0@) || (kv_get(
            st1.riders@,
            entries[i].0@,
        ) is None),
    ensures
        forall|id: Seq<char>|
            (#[trigger] kv_get(st1.riders@, id)) != kv_get(st0.riders@, id) ==> exists|ii: int|
                0 <= ii < i + 1 && (#[trigger] entries[ii]).0@ == id,
        forall|ii: int|
            0 <= ii < i + 1 && #[trigger] ride_due(st0, updates, entries[ii].0@) ==> ((kv_get(
                st1.riders@,
                entries[ii].0@,
            ) is None) && spec_user(st1.users@, entries[ii].0@).position.map_id@
                == spec_station_map_id(entries[ii].1.destination_x as int) && spec_user(
                st1.users@,
                entries[ii].0@,
            ).position.x == crate::map::STATION_WIDTH / 2 && spec_user(
                st1.users@,
                entries[ii].0@,
            ).position.y == (if spec_first_update(updates, entries[ii].1.train_id).clockwise {
                crate::map::STATION_HEIGHT - 2
            } else {
                1
            })),
        forall|ii: int|
            0 <= ii < i + 1 && #[trigger] ride_stale(st0, updates, entries[ii].0@) ==> kv_get(
                st1.riders@,
                entries[ii].0@,
            ) is None,
{
    assert forall|id: Seq<char>|
        (#[trigger] kv_get(st1.riders@, id)) != kv_get(st0.riders@, id) implies exists|ii: int|
        0 <= ii < i + 1 && (#[trigger] entries[ii]).0@ == id by {
        if id == entries[i].0@ {
            assert(entries[i].0@ == id);
        } else {
            assert(kv_get(st1.riders@, id) == kv_get(pre.riders@, id));
        }
    }
    assert forall|ii: int|
        0 <= ii < i + 1 && #[trigger] ride_due(st0, updates, entries[ii].0@) implies ((kv_get(
        st1.riders@,
        entries[ii].0@,
    ) is None) && spec_user(st1.users@, entries[ii].0@).position.map_id@ == spec_station_map_id(
        entries[ii].1.destination_x as int,
    ) && spec_user(st1.users@, entries[ii].0@).position.x == crate::map::STATION_WIDTH / 2
        && spec_user(st1.users@, entries[ii].0@).position.y == (if spec_first_update(
        updates,
        entries[ii].1.train_id,
    ).clockwise {
        crate::map::STATION_HEIGHT - 2
    } else {
        1
    })) by {
        if ii < i {
            if entries[ii].0@ == entries[i].0@ {
                assert(st0.riders@[ii].0@ == st0.riders@[i].0@);
            } else {
                assert(kv_get(st1.riders@, entries[ii].0@) == kv_get(pre.riders@, entries[ii].0@));
                assert(has_user(pre.users@, entries[ii].0@)) by {
                    assert(ride_due(st0, updates, entries[ii].0@));
                    assert(has_user(st0.users@, entries[ii].0@));
                    assert(has_user(pre.users@, entries[ii].0@) == has_user(
                        st0.users@,
                        entries[ii].0@,
                    ));
                }
            }
        }
    }
    assert forall|ii: int|
        0 <= ii < i + 1 && #[trigger] ride_stale(st0, updates, entries[ii].0@) implies kv_get(
        st1.riders@,
        entries[ii].0@,
    ) is None by {
        if ii < i {
            if entries[ii].0@ == entries[i].0@ {
                assert(st0.riders@[ii].0@ == st0.riders@[i].0@);
            } else {
                assert(kv_get(st1.riders@, entries[ii].0@) == kv_get(pre.riders@, entries[ii].0@));
            }
        }
    }
}

/// The current binding of `uid` still equals both the snapshot and the
/// given ride; only then is it safe to treat the snapshot entry as live.
fn kv_get_is_unchanged(
    state: &ServerState,
    Ghost(st0): Ghost<ServerState>,
    uid: &str,
    ride: TrainRide,
) -> (r: bool)
    requires
        state.wf(),
        kv_get(st0.riders@, uid@) == Some(ride),
    ensures
        r == (kv_get(state.riders@, uid@) == Some(ride)),
        r ==> kv_get(state.riders@, uid@) == kv_get(st0.riders@, uid@),
{
    match crate::state::kv_find(&state.riders, uid) {
        Some(j) => {
            proof {
                crate::state::lemma_kv_at(state.riders@, uid@, j as int);
            }
            state.riders[j].1 == ride
        },
        None => {
            proof {
                if kv_has(state.riders@, uid@) {
                    assert(false);
                }
            }
            false
        },
    }
}


/// A ride that this tick's own train movement must end: the window
/// from the old to the new position of the ride's train (first entry
/// with its id) crossed the destination.
pub open spec fn tick_ride_due(st: ServerState, new_trains: Seq<TrainState>, id: Seq<char>)
    -> bool {
    &&& kv_get(st.riders@, id) matches Some(ride) && ({
        &&& is_connected(st.clients@, id)
        &&& has_user(st.users@, id)
        &&& spec_user(st.users@, id).position.map_id@ == crate::monorail::spec_train_map_id(
            ride.train_id as int,
        )
        &&& 0 <= ride.destination_x <= 4096
        &&& exists|k: int|
            0 <= k < st.trains@.len() && k < new_trains.len() && (#[trigger] st.trains@[k]).id
                == ride.train_id && spec_station_passed(
                st.trains@[k].x_milli as int,
                new_trains[k].x_milli as int,
                ride.destination_x * 1000,
                st.trains@[k].clockwise,
            ) && (forall|kk: int|
                0 <= kk < k ==> (#[trigger] st.trains@[kk]).id != ride.train_id)
    })
}

/// A boarding request that this tick's own train movement must serve:
/// its user is connected, standing in the request's station, not yet
/// riding, and some train's window crossed that station.
pub open spec fn tick_boarding_due(st: ServerState, new_trains: Seq<TrainState>, id: Seq<char>)
    -> bool {
    &&& kv_get(st.boarding@, id) matches Some(req) && ({
        &&& is_connected(st.clients@, id)
        &&& has_user(st.users@, id)
        &&& spec_user(st.users@, id).position.map_id@ == spec_station_map_id(req.station_x as int)
        &&& !kv_has(st.riders@, id)
        &&& 0 <= req.station_x <= 4096
        &&& exists|k: int|
            0 <= k < st.trains@.len() && k < new_trains.len() && spec_station_passed(
                (#[trigger] st.trains@[k]).x_milli as int,
                new_trains[k].x_milli as int,
                req.station_x * 1000,
                st.trains@[k].clockwise,
            )
    })
}

/// One simulator tick: advance the trains by the elapsed time, board
/// waiting users, disembark arriving riders, and (every other tick)
/// broadcast the train snapshot to everyone on the street or aboard.
pub fn train_tick(state: &mut ServerState, dt_ms: u64, broadcast: bool) -> (effects: Vec<Effect>)
    requires
        old(state).wf(),
    ensures
        final(state).wf(),
        final(state).rooms@ == old(state).rooms@,
        final(state).clients@ == old(state).clients@,
        final(state).last_move_ms@ == old(state).last_move_ms@,
        final(state).next_user_id == old(state).next_user_id,
        final(state).trains@.len() == old(state).trains@.len(),
        forall|id: Seq<char>|
            #[trigger] kv_has(final(state).boarding@, id) ==> kv_get(final(state).boarding@, id)
                == kv_get(old(state).boarding@, id),
        // every train advanced by the elapsed time
        forall|k: int|
            0 <= k < old(state).trains@.len() ==> ({
                let t0 = old(state).trains@[k];
                let t1 = (#[trigger] final(state).trains@[k]);
                t1.id == t0.id && t1.speed_milli == t0.speed_milli && t1.clockwise == t0.clockwise
                    && t1.x_milli as int == spec_advanced(
                    t0.x_milli as int,
                    t0.speed_milli as int,
                    t0.clockwise,
                    dt_ms as int,
                )
            }),
        // a ride whose destination this tick's movement crossed ends at
        // that station
        forall|id: Seq<char>|
            #[trigger] tick_ride_due(*old(state), final(state).trains@, id) ==> ((kv_get(
                final(state).riders@,
                id,
            ) is None) && spec_user(final(state).users@, id).position.map_id@
                == spec_station_map_id(kv_get(old(state).riders@, id)->0.destination_x as int)),
        // a queued user whose station a train crossed this tick boards
        // it, and either still rides at the tick's end or already
        // arrived at the ride's destination within the same tick
        forall|id: Seq<char>|
            #[trigger] tick_boarding_due(*old(state), final(state).trains@, id) ==> ((kv_get(
                final(state).boarding@,
                id,
            ) is None) && ((kv_get(final(state).riders@, id) matches Some(rd) && rd.destination_x
                == kv_get(old(state).boarding@, id)->0.destination_x) || ((kv_get(
                final(state).riders@,
                id,
            ) is None) && spec_user(final(state).users@, id).position.map_id@
                == spec_station_map_id(
                kv_get(old(state).boarding@, id)->0.destination_x as int,
            )))),
        // on a broadcast tick, everyone on the street or aboard gets
        // the snapshot
        broadcast ==> forall|c: int|
            0 <= c < final(state).clients@.len() && (spec_user(
                final(state).users@,
                (#[trigger] final(state).clients@[c]).user_id@,
            ).position.map_id@ == "street"@ || (crate::monorail::spec_parse_train_map_id(
                spec_user(final(state).users@, final(state).clients@[c].user_id@).position.map_id@,
            ) matches Some(v) && 0 <= v <= u32::MAX as int)) ==> exists|e: int|
                0 <= e < effects@.len() && ((#[trigger] effects@[e]) matches Effect::Send {
                    to,
                    msg: ServerMsg::TrainState(ts),
                } && to@ == final(state).clients@[c].user_id@),
{
    let ghost st0 = *state;
    let updates = advance_trains(&mut state.trains, dt_ms);
    proof {
        assert forall|k: int| 0 <= k < state.trains@.len() implies #[trigger] state.trains@[k].x_milli
            < CIRC_MILLI by {
            assert(train_step_ok(st0.trains@[k], state.trains@[k], updates@[k], dt_ms as int));
        }
        assert(state.wf());
    }
    let ghost st1 = *state;
    let mut effects = handle_boarding(state, &updates);
    let ghost st2 = *state;
    let mut ride_effects = handle_riders(state, &updates);
    effects.append(&mut ride_effects);
    proof {
        assert forall|id: Seq<char>| #[trigger] kv_has(state.boarding@, id) implies kv_get(
            state.boarding@,
            id,
        ) == kv_get(st0.boarding@, id) by {
            assert(state.boarding@ == st2.boarding@);
            assert(kv_get(st2.boarding@, id) == kv_get(st1.boarding@, id));
            assert(st1.boarding@ == st0.boarding@);
        }
        // a ride due by the tick's own movement is due in the rider
        // pass: the boarding pass touches neither it nor its user
        assert forall|id: Seq<char>| #[trigger] tick_ride_due(st0, state.trains@, id) implies
            ride_due(st2, updates@, id) by {
            let ride = kv_get(st0.riders@, id)->0;
            assert(kv_get(st2.riders@, id) == kv_get(st0.riders@, id)) by {
                assert(kv_get(st1.riders@, id) == kv_get(st0.riders@, id));
                assert(!kv_has(st1.boarding@, id)) by {
                    if kv_has(st1.boarding@, id) {
                        assert(kv_has(st0.riders@, id)) by {
                            if !kv_has(st0.riders@, id) {
                                assert(kv_get(st0.riders@, id) is None);
                            }
                        }
                        assert(kv_has(st0.boarding@, id));
                    }
                }
                if kv_get(st2.riders@, id) != kv_get(st1.riders@, id) {
                    assert(kv_get(st1.boarding@, id) is Some);
                }
            }
            assert(has_user(st2.users@, id) == has_user(st0.users@, id)) by {
                assert(has_user(st2.users@, id) == has_user(st1.users@, id));
            }
            assert(spec_user(st2.users@, id) == spec_user(st0.users@, id)) by {
                assert(kv_get(st2.riders@, id) == kv_get(st1.riders@, id));
                assert(spec_user(st2.users@, id) == spec_user(st1.users@, id));
            }
            let k = choose|k: int|
                0 <= k < st0.trains@.len() && k < state.trains@.len()
                    && (#[trigger] st0.trains@[k]).id == ride.train_id && spec_station_passed(
                    st0.trains@[k].x_milli as int,
                    state.trains@[k].x_milli as int,
                    ride.destination_x * 1000,
                    st0.trains@[k].clockwise,
                ) && (forall|kk: int|
                    0 <= kk < k ==> (#[trigger] st0.trains@[kk]).id != ride.train_id);
            assert(train_step_ok(st0.trains@[k], st1.trains@[k], updates@[k], dt_ms as int));
            assert(updates@[k].id == ride.train_id && spec_station_passed(
                updates@[k].prev_milli as int,
                updates@[k].next_milli as int,
                ride.destination_x * 1000,
                updates@[k].clockwise,
            ));
            assert(forall|kk: int|
                0 <= kk < k ==> (#[trigger] updates@[kk]).id != ride.train_id) by {
                assert(forall|kk: int|
                    0 <= kk < k ==> train_step_ok(
                        st0.trains@[kk],
                        st1.trains@[kk],
                        #[trigger] updates@[kk],
                        dt_ms as int,
                    ));
            }
        }
        assert forall|k: int| 0 <= k < st0.trains@.len() implies ({
            let t0 = st0.trains@[k];
            let t1 = (#[trigger] state.trains@[k]);
            t1.id == t0.id && t1.speed_milli == t0.speed_milli && t1.clockwise == t0.clockwise
                && t1.x_milli as int == spec_advanced(
                t0.x_milli as int,
                t0.speed_milli as int,
                t0.clockwise,
                dt_ms as int,
            )
        }) by {
            assert(train_step_ok(st0.trains@[k], st1.trains@[k], updates@[k], dt_ms as int));
            assert(state.trains@[k] == st1.trains@[k]);
        }
    }
    if broadcast {
        let mut c: usize = 0;
        let n = state.clients.len();
        while c < n
            invariant
                c <= n,
                state.wf(),
                n == state.clients@.len(),
                forall|cc: int|
                    0 <= cc < c && (spec_user(
                        state.users@,
                        (#[trigger] state.clients@[cc]).user_id@,
                    ).position.map_id@ == "street"@ || (crate::monorail::spec_parse_train_map_id(
                        spec_user(state.users@, state.clients@[cc].user_id@).position.map_id@,
                    ) matches Some(v) && 0 <= v <= u32::MAX as int)) ==> exists|e: int|
                        0 <= e < effects@.len() && ((#[trigger] effects@[e]) matches Effect::Send {
                            to,
                            msg: ServerMsg::TrainState(ts),
                        } && to@ == state.clients@[cc].user_id@),
            decreases n - c,
        {
            let uid = state.clients[c].user_id.clone();
            proof {
                assert(is_connected(state.clients@, state.clients@[c as int].user_id@));
            }
            match state.get_user(uid.as_str()) {
                Some(u) => {
                    if crate::broadcast::should_receive_train_state(&u) {
                        let ghost before = effects@;
                        effects.push(crate::broadcast::train_state_effect(
                            uid.as_str(),
                            &state.trains,
                        ));
                        proof {
                            assert(forall|e: int|
                                0 <= e < before.len() ==> effects@[e] == before[e]);
                            assert(effects@.last() matches Effect::Send {
                                to,
                                msg: ServerMsg::TrainState(ts),
                            } && to@ == state.clients@[c as int].user_id@);
                        }
                    }
                },
                None => {
                    proof {
                        assert(false);
                    }
                },
            }
            c = c + 1;
        }
    }
    proof {
        // a request due by the tick's own movement is due in the
        // boarding pass, and its rider record then either survives the
        // rider pass or ends at the ride's destination
        assert forall|id: Seq<char>| #[trigger] tick_boarding_due(st0, state.trains@, id) implies
            ((kv_get(state.boarding@, id) is None) && ((kv_get(state.riders@, id) matches Some(rd)
                && rd.destination_x == kv_get(st0.boarding@, id)->0.destination_x) || ((kv_get(
                state.riders@,
                id,
            ) is None) && spec_user(state.users@, id).position.map_id@ == spec_station_map_id(
                kv_get(st0.boarding@, id)->0.destination_x as int,
            )))) by {
            let req = kv_get(st0.boarding@, id)->0;
            assert(boarding_due(st1, updates@, id)) by {
                let k = choose|k: int|
                    0 <= k < st0.trains@.len() && k < state.trains@.len() && spec_station_passed(
                        (#[trigger] st0.trains@[k]).x_milli as int,
                        state.trains@[k].x_milli as int,
                        req.station_x * 1000,
                        st0.trains@[k].clockwise,
                    );
                assert(train_step_ok(st0.trains@[k], st1.trains@[k], updates@[k], dt_ms as int));
                assert(state.trains@[k] == st1.trains@[k]);
                assert(spec_station_passed(
                    updates@[k].prev_milli as int,
                    updates@[k].next_milli as int,
                    req.station_x * 1000,
                    updates@[k].clockwise,
                ));
            }
            assert(kv_get(st2.boarding@, id) is None);
            assert(kv_get(st2.riders@, id) matches Some(rd) && rd.destination_x
                == req.destination_x);
            let rd = kv_get(st2.riders@, id)->0;
            assert(state.boarding@ == st2.boarding@);
            if kv_get(state.riders@, id) != kv_get(st2.riders@, id) {
                assert(kv_get(state.riders@, id) is None);
                assert(!ride_stale(st2, updates@, id)) by {
                    assert(is_connected(st2.clients@, id));
                    assert(has_user(st2.users@, id));
                    assert(kv_get(st2.riders@, id) != kv_get(st1.riders@, id));
                    assert(spec_user(st2.users@, id).position.map_id@
                        == crate::monorail::spec_train_map_id(rd.train_id as int));
                }
                assert(ride_due(st2, updates@, id));
                assert(spec_user(state.users@, id).position.map_id@ == spec_station_map_id(
                    rd.destination_x as int,
                ));
            }
        }
    }
    effects
}

} // verus!
