//! The movement handler: rate limiting, the single-tile move, access
//! checks on room doors, and the transition bookkeeping.
use vstd::prelude::*;

use crate::broadcast::{nearby_effect_ok, refresh_nearby_for_map, room_info_effect};
use crate::config::RelayConfig;
use crate::map::Position;
use crate::messages::{
    eff_is_error, send_error, Effect, ServerMapChange, ServerMsg, ServerState as ServerStateMsg,
};
use crate::physics::{outcome_view, spec_try_move, try_move, Direction, MoveOutcome, MoveView};
use crate::state::{
    has_room, has_user, is_connected, kv_get, kv_has, kv_insert, room_like, spec_room, spec_user,
    RoomState, ServerState,
};
use crate::text::{str_eq, strip_prefix_str};

verus! {

/// The rate limit: a second accepted move within this many
/// milliseconds of the last is dropped without reply.
pub const MOVE_INTERVAL_MS: i64 = 60;

/// `pk` is listed in a room's access list.
pub open spec fn in_access_list(list: Seq<String>, pk: Seq<char>) -> bool {
    exists|j: int| 0 <= j < list.len() && #[trigger] list[j]@ == pk
}

/// Whether a room's policy lets the holder of `pk` through its door:
/// the owner always may; otherwise the mode decides.
pub open spec fn spec_access_allowed(room: RoomState, pk: Seq<char>) -> bool {
    ||| (room.owner_pubkey matches Some(o) && o@ == pk)
    ||| match room.access.mode {
        crate::messages::AccessMode::Open => true,
        crate::messages::AccessMode::Whitelist => in_access_list(room.access.list@, pk),
        crate::messages::AccessMode::Blacklist => !in_access_list(room.access.list@, pk),
    }
}

/// An empty whitelist blocks everyone except the owner.
pub proof fn lemma_empty_whitelist(room: RoomState, pk: Seq<char>)
    requires
        room.access.mode == crate::messages::AccessMode::Whitelist,
        room.access.list@.len() == 0,
    ensures
        spec_access_allowed(room, pk) <==> (room.owner_pubkey matches Some(o) && o@ == pk),
{
}

pub fn room_access_allowed(room: &RoomState, pubkey: &str) -> (r: bool)
    ensures
        r == spec_access_allowed(*room, pubkey@),
{
    let owner_hit = match &room.owner_pubkey {
        Some(o) => str_eq(o.as_str(), pubkey),
        None => false,
    };
    if owner_hit {
        return true;
    }
    match room.access.mode {
        crate::messages::AccessMode::Open => true,
        crate::messages::AccessMode::Whitelist => in_list(&room.access.list, pubkey),
        crate::messages::AccessMode::Blacklist => !in_list(&room.access.list, pubkey),
    }
}

fn in_list(list: &Vec<String>, pk: &str) -> (r: bool)
    ensures
        r == in_access_list(list@, pk@),
{
    let mut i: usize = 0;
    let n = list.len();
    while i < n
        invariant
            i <= n,
            n == list@.len(),
            forall|j: int| 0 <= j < i ==> #[trigger] list@[j]@ != pk@,
        decreases n - i,
    {
        if str_eq(list[i].as_str(), pk) {
            return true;
        }
        i = i + 1;
    }
    false
}

/// Stepping through the door of `m` is denied to `u0`: the target is a
/// room map whose stored record's policy excludes the walker's key.
/// A room not yet materialized is created open, which denies nobody.
pub open spec fn transition_denied(st0: ServerState, u0: crate::state::UserState, m: Seq<char>)
    -> bool {
    exists|side: crate::doors::RoomSide, sx: int|
        #![auto]
        crate::doors::room_map_id_ok(m, side, sx) && has_room(
            st0.rooms@,
            crate::doors::spec_room_id(side, sx),
        ) && !spec_access_allowed(
            spec_room(st0.rooms@, crate::doors::spec_room_id(side, sx)),
            u0.pubkey@,
        )
}

/// The coordinates fit strictly inside the machine range, so a stored
/// position always leaves room for one more step.
pub open spec fn storable(x: int, y: int) -> bool {
    i32::MIN < x < i32::MAX && i32::MIN < y < i32::MAX
}

/// `m` is a station map identifier by prefix, as the transition
/// bookkeeping asks (a boarding request survives only these).
pub open spec fn is_station_prefixed(m: Seq<char>) -> bool {
    m.len() >= "station/"@.len() && m.subrange(0, "station/"@.len() as int) == "station/"@
}

/// A signed move: dropped silently inside the rate window; otherwise
/// the movement engine decides, room doors check their access policy,
/// and position, presence and boarding requests move together.
/// What may follow the map change in a transition's effect list: the
/// room snapshot for the walker, a persistence marker, or a nearby
/// refresh for the map left or the map entered.
pub open spec fn transition_follow_up_ok(
    e: Effect,
    st: ServerState,
    user_id: Seq<char>,
    prev: Seq<char>,
    m: Seq<char>,
) -> bool {
    ||| (e matches Effect::Send { to, msg: ServerMsg::RoomInfo(p) } && to@ == user_id)
    ||| e is SaveRooms
    ||| nearby_effect_ok(e, st.clients@, st.users@, prev)
    ||| nearby_effect_ok(e, st.clients@, st.users@, m)
}

/// Everything `handle_move` promises of the world and its replies.
pub open spec fn move_post(pre: ServerState, post: ServerState, user_id: Seq<char>, dir: Direction, now: i64, effects: Seq<Effect>) -> bool {
            let u0 = spec_user(pre.users@, user_id);
            let mv = spec_try_move(u0.position.map_id@, u0.position.x as int, u0.position.y as int, dir);
            if (kv_get(pre.last_move_ms@, user_id) matches Some(last) && now - last
                < MOVE_INTERVAL_MS) {
                // dropped silently: nothing observable happens at all
                &&& post == pre
                &&& effects.len() == 0
            } else {
                &&& (kv_get(post.last_move_ms@, user_id) == Some(now))
                &&& forall|q: Seq<char>|
                    q != user_id ==> #[trigger] kv_get(post.last_move_ms@, q) == kv_get(
                        pre.last_move_ms@,
                        q,
                    )
                &&& match mv {
                    MoveView::Blocked => {
                        // a blocked move changes no world state
                        &&& post.users@ == pre.users@
                        &&& post.rooms@ == pre.rooms@
                        &&& post.presence@ == pre.presence@
                        &&& post.boarding@ == pre.boarding@
                        &&& effects.len() == 1 && eff_is_error(
                            effects[0],
                            user_id,
                            "move_blocked"@,
                        )
                    },
                    MoveView::Moved(m, x, y) => {
                        if storable(x, y) {
                            &&& spec_user(post.users@, user_id).position.map_id@ == m
                            &&& spec_user(post.users@, user_id).position.x as int == x
                            &&& spec_user(post.users@, user_id).position.y as int == y
                            &&& post.rooms@ == pre.rooms@
                            &&& post.boarding@ == pre.boarding@
                            &&& effects.len() >= 1 && (effects[0] matches Effect::Send {
                                to,
                                msg: ServerMsg::State(p),
                            } && to@ == user_id && p.position.map_id@ == m && p.position.x as int
                                == x && p.position.y as int == y)
                            &&& forall|e: int|
                                1 <= e < effects.len() ==> nearby_effect_ok(
                                    #[trigger] effects[e],
                                    post.clients@,
                                    post.users@,
                                    m,
                                )
                            &&& crate::broadcast::nearby_refresh_complete(
                                effects,
                                post,
                                m,
                            )
                        } else {
                            // at the numeric edge of the coordinate
                            // space there is no storable target tile
                            &&& post.users@ == pre.users@
                            &&& post.rooms@ == pre.rooms@
                            &&& post.presence@ == pre.presence@
                            &&& post.boarding@ == pre.boarding@
                            &&& effects.len() == 1 && eff_is_error(
                                effects[0],
                                user_id,
                                "move_blocked"@,
                            )
                        }
                    },
                    MoveView::Transition(m, x, y) => {
                        if !storable(x, y) {
                            &&& post.users@ == pre.users@
                            &&& post.presence@ == pre.presence@
                            &&& post.boarding@ == pre.boarding@
                            &&& effects.len() == 1 && eff_is_error(
                                effects[0],
                                user_id,
                                "move_blocked"@,
                            )
                        } else if (transition_denied(pre, u0, m)) {
                            // a room whose policy excludes the walker:
                            // the room may be created, nothing moves
                            &&& post.users@ == pre.users@
                            &&& post.presence@ == pre.presence@
                            &&& post.boarding@ == pre.boarding@
                            &&& effects.len() == 1 && eff_is_error(
                                effects[0],
                                user_id,
                                "room_access_denied"@,
                            )
                        } else {
                            &&& spec_user(post.users@, user_id).position.map_id@ == m
                            &&& spec_user(post.users@, user_id).position.x as int == x
                            &&& spec_user(post.users@, user_id).position.y as int == y
                            &&& crate::state::present_on(post.presence@, user_id, m)
                            &&& (is_station_prefixed(m) ==> post.boarding@ == pre.boarding@)
                            &&& (!is_station_prefixed(m) ==> (kv_get(
                                post.boarding@,
                                user_id,
                            ) is None))
                            &&& effects.len() >= 1 && (effects[0] matches Effect::Send {
                                to,
                                msg: ServerMsg::MapChange(p),
                            } && to@ == user_id && p.map_id@ == m && p.position.x as int == x
                                && p.position.y as int == y)
                            &&& forall|e: int|
                                1 <= e < effects.len() ==> transition_follow_up_ok(
                                    #[trigger] effects[e],
                                    post,
                                    user_id,
                                    u0.position.map_id@,
                                    m,
                                )
                            &&& (forall|side: crate::doors::RoomSide, sx: int|
                                crate::doors::room_map_id_ok(m, side, sx) ==> exists|e: int|
                                    0 <= e < effects.len() && ((#[trigger] effects[e]) matches
                                        Effect::Send { to, msg: ServerMsg::RoomInfo(p) } && to@
                                        == user_id && p.room_id@ == crate::doors::spec_room_id(
                                        side,
                                        sx,
                                    )))
                            &&& crate::broadcast::nearby_refresh_complete(
                                effects,
                                post,
                                u0.position.map_id@,
                            )
                            &&& crate::broadcast::nearby_refresh_complete(
                                effects,
                                post,
                                m,
                            )
                        }
                    },
                }
            }
        }

pub fn handle_move(state: &mut ServerState, user_id: &str, dir: Direction, now: i64, config:
    &RelayConfig) -> (effects: Vec<Effect>)
    requires
        old(state).wf(),
        is_connected(old(state).clients@, user_id@),
    ensures
        final(state).wf(),
        final(state).clients@ == old(state).clients@,
        final(state).trains@ == old(state).trains@,
        final(state).riders@ == old(state).riders@,
        final(state).next_user_id == old(state).next_user_id,
        forall|e: int|
            0 <= e < effects@.len() ==> crate::broadcast::room_info_truthful(
                #[trigger] effects@[e],
                final(state).rooms@,
            ),
        move_post(*old(state), *final(state), user_id@, dir, now, effects@),
{
    // rate limit: update the stamp before processing
    let last: Option<i64> = match crate::state::kv_find(&state.last_move_ms, user_id) {
        Some(i) => {
            proof {
                crate::state::lemma_kv_at(state.last_move_ms@, user_id@, i as int);
            }
            Some(state.last_move_ms[i].1)
        },
        None => None,
    };
    if let Some(last_ms) = last {
        if (now as i128) - (last_ms as i128) < MOVE_INTERVAL_MS as i128 {
            return Vec::new();
        }
    }
    kv_insert(&mut state.last_move_ms, user_id, now);
    let ghost st1 = *state;
    let user = match state.get_user(user_id) {
        Some(u) => u,
        None => {
            proof {
                let c = choose|c: int|
                    0 <= c < state.clients@.len() && #[trigger] state.clients@[c].user_id@
                        == user_id@;
                assert(false);
            }
            return Vec::new();
        },
    };
    let prev_map = user.position.map_id.clone();
    let outcome = try_move(&user.position, dir);
    let mut effects: Vec<Effect> = Vec::new();
    match outcome {
        MoveOutcome::Blocked => {
            effects.push(send_error(user_id, "move_blocked", "blocked"));
        },
        MoveOutcome::Moved(pos) => {
            if pos.x == i32::MAX || pos.x == i32::MIN || pos.y == i32::MAX || pos.y == i32::MIN {
                effects.push(send_error(user_id, "move_blocked", "blocked"));
                return effects;
            }
            let ghost m = pos.map_id@;
            let new_pos = pos.clone();
            state.set_position_and_move(user_id, new_pos);
            let state_msg = Effect::Send {
                to: user_id.to_owned(),
                msg: ServerMsg::State(ServerStateMsg { position: crate::messages::Position {
                    map_id: pos.map_id.clone(),
                    x: pos.x,
                    y: pos.y,
                } }),
            };
            effects.push(state_msg);
            let ghost head = effects@;
            let mut nb = refresh_nearby_for_map(state, pos.map_id.as_str());
            let ghost nbv = nb@;
            effects.append(&mut nb);
            proof {
                crate::broadcast::lemma_nearby_complete_embed(
                    nbv,
                    effects@,
                    *state,
                    pos.map_id@,
                    head.len() as int,
                );
            }
        },
        MoveOutcome::Transition(pos) => {
            if pos.x == i32::MAX || pos.x == i32::MIN || pos.y == i32::MAX || pos.y == i32::MIN {
                effects.push(send_error(user_id, "move_blocked", "blocked"));
                return effects;
            }
            let room_gate = crate::doors::parse_room_map_id(pos.map_id.as_str());
            let mut denied = false;
            let mut room_info: Option<RoomState> = None;
            if let Some((side, street_x)) = room_gate {
                let room_id = crate::doors::room_id_for_door(side, street_x);
                let ghost rooms_before = state.rooms@;
                let room = state.get_or_create_room(
                    room_id.as_str(),
                    config.room_price_xmr.as_str(),
                );
                let allowed = room_access_allowed(&room, user.pubkey.as_str());
                proof {
                    let rid = room_id@;
                    let sr = spec_room(state.rooms@, rid);
                    // the clone carries the stored room's policy fields
                    assert(spec_access_allowed(room, user.pubkey@) == spec_access_allowed(
                        sr,
                        user.pubkey@,
                    ));
                    if !allowed {
                        // a freshly created room is open and unowned,
                        // so a denial means the room already existed
                        assert(has_room(rooms_before, rid)) by {
                            if !has_room(rooms_before, rid) {
                                let n0 = rooms_before.len() as int;
                                assert(forall|a: int|
                                    0 <= a < n0 ==> #[trigger] state.rooms@[a]
                                        == state.rooms@.subrange(0, n0)[a]);
                                assert(spec_room(state.rooms@, rid) == state.rooms@.last()) by {
                                    let a = choose|a: int|
                                        0 <= a < state.rooms@.len()
                                            && #[trigger] state.rooms@[a].room_id@ == rid;
                                    if a < n0 {
                                        assert(rooms_before[a].room_id@ == rid);
                                    }
                                    crate::state::lemma_room_at(state.rooms@, rid, a);
                                };
                                assert(spec_access_allowed(sr, user.pubkey@));
                            }
                        }
                        assert(spec_room(rooms_before, rid) == sr) by {
                            assert(state.rooms@ == rooms_before);
                        }
                    }
                }
                if !allowed {
                    denied = true;
                } else {
                    room_info = Some(room);
                }
            }
            proof {
                let ghost u0 = spec_user(old(state).users@, user_id@);
                let ghost mv = spec_try_move(
                    u0.position.map_id@,
                    u0.position.x as int,
                    u0.position.y as int,
                    dir,
                );
                let ghost m = outcome_view(outcome)->Transition_0;
                match room_gate {
                    Some((side, street_x)) => {
                        let rid = crate::doors::spec_room_id(side, street_x as int);
                        assert(crate::doors::room_map_id_ok(m, side, street_x as int));
                        assert forall|s2: crate::doors::RoomSide, x2: int|
                            #![auto]
                            crate::doors::room_map_id_ok(m, s2, x2) implies s2 == side && x2
                            == street_x as int by {
                            crate::physics::lemma_room_map_id_unique(
                                m,
                                side,
                                street_x as int,
                                s2,
                                x2,
                            );
                        }
                        if denied {
                            assert(transition_denied(*old(state), u0, m));
                        } else {
                            assert(!transition_denied(*old(state), u0, m));
                        }
                    },
                    None => {
                        assert(!transition_denied(*old(state), u0, m));
                    },
                }
            }
            if denied {
                effects.push(send_error(user_id, "room_access_denied", "room access denied"));
            } else {
                let new_pos = pos.clone();
                state.set_position_and_move(user_id, new_pos);
                let is_station = match strip_prefix_str(pos.map_id.as_str(), "station/") {
                    Some(rest) => {
                        proof {
                            assert(pos.map_id@.subrange(0, "station/"@.len() as int)
                                =~= "station/"@);
                        }
                        true
                    },
                    None => false,
                };
                if !is_station {
                    state.remove_boarding(user_id);
                }
                let mc = Effect::Send {
                    to: user_id.to_owned(),
                    msg: ServerMsg::MapChange(ServerMapChange {
                        map_id: pos.map_id.clone(),
                        position: crate::messages::Position {
                            map_id: pos.map_id.clone(),
                            x: pos.x,
                            y: pos.y,
                        },
                    }),
                };
                effects.push(mc);
                if let Some(room) = &room_info {
                    effects.push(room_info_effect(user_id, room));
                }
                let ghost head = effects@;
                let mut nb = refresh_nearby_for_map(state, prev_map.as_str());
                let ghost nbv = nb@;
                effects.append(&mut nb);
                let ghost mid2 = effects@;
                let mut nb2 = refresh_nearby_for_map(state, pos.map_id.as_str());
                let ghost nb2v = nb2@;
                effects.append(&mut nb2);
                let ghost mid3 = effects@;
                if room_gate.is_some() {
                    effects.push(Effect::SaveRooms);
                }
                proof {
                    assert(forall|e: int| 0 <= e < mid3.len() ==> #[trigger] effects@[e] == mid3[e]);
                    assert(forall|e: int| 0 <= e < head.len() ==> #[trigger] mid3[e] == head[e]);
                    assert(forall|e: int|
                        0 <= e < nbv.len() ==> #[trigger] mid3[head.len() + e] == nbv[e]);
                    assert(forall|e: int|
                        0 <= e < nb2v.len() ==> #[trigger] mid3[mid2.len() + e] == nb2v[e]);
                    assert forall|e: int| 1 <= e < effects@.len() implies transition_follow_up_ok(
                        #[trigger] effects@[e],
                        *state,
                        user_id@,
                        prev_map@,
                        pos.map_id@,
                    ) by {
                        if e < head.len() {
                            assert(effects@[e] == head[e]);
                        } else if e < mid2.len() {
                            assert(effects@[e] == nbv[e - head.len()]);
                        } else if e < mid3.len() {
                            assert(effects@[e] == nb2v[e - mid2.len()]);
                        } else {
                            assert(effects@[e] is SaveRooms);
                        }
                    }
                    crate::broadcast::lemma_nearby_complete_embed(
                        nbv,
                        effects@,
                        *state,
                        prev_map@,
                        head.len() as int,
                    );
                    crate::broadcast::lemma_nearby_complete_embed(
                        nb2v,
                        effects@,
                        *state,
                        pos.map_id@,
                        mid2.len() as int,
                    );
                    assert forall|side: crate::doors::RoomSide, sx: int|
                        crate::doors::room_map_id_ok(pos.map_id@, side, sx) implies exists|e: int|
                        0 <= e < effects@.len() && ((#[trigger] effects@[e]) matches Effect::Send {
                            to,
                            msg: ServerMsg::RoomInfo(p),
                        } && to@ == user_id@ && p.room_id@ == crate::doors::spec_room_id(
                            side,
                            sx,
                        )) by {
                        match room_gate {
                            Some((side0, x0)) => {
                                crate::physics::lemma_room_map_id_unique(
                                    pos.map_id@,
                                    side0,
                                    x0 as int,
                                    side,
                                    sx,
                                );
                                assert(effects@[1] == head[1]);
                            },
                            None => {
                                assert(false);
                            },
                        }
                    }
                }
            }
        },
    }
    effects
}

} // verus!
