//! Proximity broadcasting: who is in a map, who is near whom, and the
//! `server.nearby` / `server.room_info` / `server.train_state` effects
//! that presence changes fan out.
use vstd::prelude::*;

use crate::messages::{
    Effect, NearbyUser, ServerMsg, ServerNearby, ServerRoomInfo, ServerTrainState, TrainInfo,
};
use crate::state::{
    clone_opt_string, has_user, is_connected, spec_user, RoomState, ServerState, TrainState,
    UserState,
};
use crate::text::str_eq;

verus! {

/// Everything `users` of a nearby list must say about `r` relative to
/// the map's user list `l`, excluding the recipient `uid`: exactly the
/// other users of the map, with their tiles and key-exchange keys.
pub open spec fn nearby_list_ok(r: Seq<NearbyUser>, l: Seq<UserState>, uid: Seq<char>) -> bool {
    &&& forall|k: int|
        0 <= k < r.len() ==> #[trigger] r[k].id@ != uid && exists|j: int|
            0 <= j < l.len() && #[trigger] l[j].user_id@ == r[k].id@ && l[j].display_name
                == r[k].display_name && l[j].position.x == r[k].x && l[j].position.y == r[k].y
                && l[j].x25519_pubkey == r[k].x25519_pubkey
    &&& forall|j: int|
        0 <= j < l.len() && #[trigger] l[j].user_id@ != uid ==> exists|k: int|
            0 <= k < r.len() && #[trigger] r[k].id@ == l[j].user_id@
}

/// The connected users standing on `map_id`, one record each.
pub fn connected_users_in_map(state: &ServerState, map_id: &str) -> (r: Vec<UserState>)
    requires
        state.wf(),
    ensures
        forall|k: int|
            0 <= k < r@.len() ==> is_connected(state.clients@, #[trigger] r@[k].user_id@)
                && has_user(state.users@, r@[k].user_id@) && r@[k] == spec_user(
                state.users@,
                r@[k].user_id@,
            ) && r@[k].position.map_id@ == map_id@,
        forall|c: int|
            0 <= c < state.clients@.len() && spec_user(
                state.users@,
                #[trigger] state.clients@[c].user_id@,
            ).position.map_id@ == map_id@ ==> exists|k: int|
                0 <= k < r@.len() && #[trigger] r@[k].user_id@ == state.clients@[c].user_id@,
        forall|k1: int, k2: int|
            0 <= k1 < r@.len() && 0 <= k2 < r@.len() && k1 != k2 ==> #[trigger] r@[k1].user_id@
                != #[trigger] r@[k2].user_id@,
{
    let mut r: Vec<UserState> = Vec::new();
    let mut c: usize = 0;
    let n = state.clients.len();
    while c < n
        invariant
            c <= n,
            state.wf(),
            n == state.clients@.len(),
            forall|k: int|
                0 <= k < r@.len() ==> is_connected(state.clients@, #[trigger] r@[k].user_id@)
                    && has_user(state.users@, r@[k].user_id@) && r@[k] == spec_user(
                    state.users@,
                    r@[k].user_id@,
                ) && r@[k].position.map_id@ == map_id@,
            forall|j: int|
                0 <= j < c && spec_user(
                    state.users@,
                    #[trigger] state.clients@[j].user_id@,
                ).position.map_id@ == map_id@ ==> exists|k: int|
                    0 <= k < r@.len() && #[trigger] r@[k].user_id@ == state.clients@[j].user_id@,
            forall|k1: int, k2: int|
                0 <= k1 < r@.len() && 0 <= k2 < r@.len() && k1 != k2 ==> #[trigger] r@[k1].user_id@
                    != #[trigger] r@[k2].user_id@,
            forall|k: int|
                0 <= k < r@.len() ==> exists|j: int|
                    0 <= j < c && #[trigger] r@[k].user_id@ == state.clients@[j].user_id@,
        decreases n - c,
    {
        proof {
            assert(is_connected(state.clients@, state.clients@[c as int].user_id@));
        }
        match state.get_user(state.clients[c].user_id.as_str()) {
            Some(u) => {
                proof {
                    assert(u == spec_user(state.users@, state.clients@[c as int].user_id@));
                    assert(u.user_id@ == state.clients@[c as int].user_id@) by {
                        let w = choose|w: int|
                            0 <= w < state.users@.len() && #[trigger] state.users@[w].user_id@
                                == state.clients@[c as int].user_id@;
                        assert(spec_user(state.users@, state.clients@[c as int].user_id@)
                            == state.users@[w]);
                    }
                }
                if str_eq(u.position.map_id.as_str(), map_id) {
                    let ghost before = r@;
                    proof {
                        assert forall|k: int| 0 <= k < before.len() implies #[trigger] before[
                            k
                        ].user_id@ != u.user_id@ by {
                            let j = choose|j: int|
                                0 <= j < c && #[trigger] before[k].user_id@
                                    == state.clients@[j].user_id@;
                            if before[k].user_id@ == u.user_id@ {
                                assert(state.clients@[j].user_id@
                                    == state.clients@[c as int].user_id@);
                            }
                        }
                    }
                    r.push(u);
                    proof {
                        assert(forall|k: int| 0 <= k < before.len() ==> r@[k] == before[k]);
                        assert(r@[r@.len() - 1] == u);
                    }
                }
            },
            None => {
                proof {
                    assert(false);
                }
            },
        }
        c = c + 1;
    }
    r
}

/// The nearby list one recipient sees: everyone else on the map.
pub fn collect_nearby_from_list(user_id: &str, users_in_map: &Vec<UserState>) -> (r: Vec<
    NearbyUser,
>)
    ensures
        nearby_list_ok(r@, users_in_map@, user_id@),
{
    let mut r: Vec<NearbyUser> = Vec::new();
    let mut j: usize = 0;
    let n = users_in_map.len();
    while j < n
        invariant
            j <= n,
            n == users_in_map@.len(),
            forall|k: int|
                0 <= k < r@.len() ==> #[trigger] r@[k].id@ != user_id@ && exists|jj: int|
                    0 <= jj < users_in_map@.len() && #[trigger] users_in_map@[jj].user_id@
                        == r@[k].id@ && users_in_map@[jj].display_name == r@[k].display_name
                        && users_in_map@[jj].position.x == r@[k].x && users_in_map@[jj].position.y
                        == r@[k].y && users_in_map@[jj].x25519_pubkey == r@[k].x25519_pubkey,
            forall|jj: int|
                0 <= jj < j && #[trigger] users_in_map@[jj].user_id@ != user_id@ ==> exists|k: int|
                    0 <= k < r@.len() && #[trigger] r@[k].id@ == users_in_map@[jj].user_id@,
        decreases n - j,
    {
        let other = &users_in_map[j];
        if !str_eq(other.user_id.as_str(), user_id) {
            let ghost before = r@;
            r.push(
                NearbyUser {
                    id: other.user_id.clone(),
                    display_name: clone_opt_string(&other.display_name),
                    x: other.position.x,
                    y: other.position.y,
                    x25519_pubkey: clone_opt_string(&other.x25519_pubkey),
                },
            );
            proof {
                assert(forall|k: int| 0 <= k < before.len() ==> r@[k] == before[k]);
                assert(r@[r@.len() - 1].id@ == users_in_map@[j as int].user_id@);
            }
        }
        j = j + 1;
    }
    r
}

/// The recipient of a send effect; the empty sequence for the
/// persistence effects, which go to nobody.
pub open spec fn send_target(e: Effect) -> Seq<char> {
    match e {
        Effect::Send { to, msg } => to@,
        Effect::SaveUsers => Seq::empty(),
        Effect::SaveRooms => Seq::empty(),
    }
}

/// `e` is a well-aimed nearby refresh for map `m`: a non-empty
/// `server.nearby` to a connected user on `m`, listing exactly the
/// other connected users of `m`, each with its stored display name,
/// tile and key-exchange key.
pub open spec fn nearby_effect_ok(
    e: Effect,
    clients: Seq<crate::state::ClientHandle>,
    users: Seq<UserState>,
    m: Seq<char>,
) -> bool {
    e matches Effect::Send { to, msg: ServerMsg::Nearby(p) } && is_connected(clients, to@)
        && has_user(users, to@) && spec_user(users, to@).position.map_id@ == m && p.users@.len() > 0
        && (forall|k: int|
        0 <= k < p.users@.len() ==> #[trigger] p.users@[k].id@ != to@ && has_user(
            users,
            p.users@[k].id@,
        ) && spec_user(users, p.users@[k].id@).position.map_id@ == m && p.users@[k].display_name
            == spec_user(users, p.users@[k].id@).display_name && p.users@[k].x == spec_user(
            users,
            p.users@[k].id@,
        ).position.x && p.users@[k].y == spec_user(users, p.users@[k].id@).position.y
            && p.users@[k].x25519_pubkey == spec_user(users, p.users@[k].id@).x25519_pubkey) && (
    forall|c: int|
        0 <= c < clients.len() && (#[trigger] clients[c]).user_id@ != to@ && spec_user(
            users,
            clients[c].user_id@,
        ).position.map_id@ == m ==> exists|k: int|
            0 <= k < p.users@.len() && (#[trigger] p.users@[k]).id@ == clients[c].user_id@)
}

/// Refresh `server.nearby` for everyone on a map. A user alone on the
/// map would get an empty list, which is not sent.
pub fn refresh_nearby_for_map(state: &ServerState, map_id: &str) -> (r: Vec<Effect>)
    requires
        state.wf(),
    ensures
        forall|e: int|
            0 <= e < r@.len() ==> nearby_effect_ok(
                #[trigger] r@[e],
                state.clients@,
                state.users@,
                map_id@,
            ),
        // every user of the map with company gets a refresh
        forall|c: int|
            0 <= c < state.clients@.len() && spec_user(
                state.users@,
                (#[trigger] state.clients@[c]).user_id@,
            ).position.map_id@ == map_id@ && (exists|c2: int|
                0 <= c2 < state.clients@.len() && c2 != c
                    && (#[trigger] state.clients@[c2]).user_id@ != state.clients@[c].user_id@
                    && spec_user(state.users@, state.clients@[c2].user_id@).position.map_id@
                    == map_id@) ==> exists|e: int|
                0 <= e < r@.len() && ((#[trigger] r@[e]) matches Effect::Send { to, msg } && to@
                    == state.clients@[c].user_id@),
        // one refresh per recipient
        forall|e1: int, e2: int|
            0 <= e1 < r@.len() && 0 <= e2 < r@.len() && e1 != e2 ==> send_target(#[trigger] r@[e1])
                != send_target(#[trigger] r@[e2]),
        nearby_refresh_complete(r@, *state, map_id@),
{
    let users_in_map = connected_users_in_map(state, map_id);
    let mut r: Vec<Effect> = Vec::new();
    let mut i: usize = 0;
    let n = users_in_map.len();
    while i < n
        invariant
            i <= n,
            state.wf(),
            n == users_in_map@.len(),
            forall|k: int|
                0 <= k < users_in_map@.len() ==> is_connected(
                    state.clients@,
                    #[trigger] users_in_map@[k].user_id@,
                ) && has_user(state.users@, users_in_map@[k].user_id@) && users_in_map@[k]
                    == spec_user(state.users@, users_in_map@[k].user_id@)
                    && users_in_map@[k].position.map_id@ == map_id@,
            forall|c: int|
                0 <= c < state.clients@.len() && spec_user(
                    state.users@,
                    #[trigger] state.clients@[c].user_id@,
                ).position.map_id@ == map_id@ ==> exists|k: int|
                    0 <= k < users_in_map@.len() && #[trigger] users_in_map@[k].user_id@
                        == state.clients@[c].user_id@,
            forall|k1: int, k2: int|
                0 <= k1 < users_in_map@.len() && 0 <= k2 < users_in_map@.len() && k1 != k2
                    ==> #[trigger] users_in_map@[k1].user_id@ != #[trigger] users_in_map@[k2].user_id@,
            forall|e: int|
                0 <= e < r@.len() ==> nearby_effect_ok(
                    #[trigger] r@[e],
                    state.clients@,
                    state.users@,
                    map_id@,
                ),
            forall|ii: int|
                0 <= ii < i && (exists|kk: int|
                    0 <= kk < users_in_map@.len() && #[trigger] users_in_map@[kk].user_id@
                        != users_in_map@[ii].user_id@) ==> exists|e: int|
                    0 <= e < r@.len() && ((#[trigger] r@[e]) matches Effect::Send { to, msg }
                        && to@ == (#[trigger] users_in_map@[ii]).user_id@),
            forall|e: int|
                0 <= e < r@.len() ==> exists|ii: int|
                    0 <= ii < i && send_target(#[trigger] r@[e]) == users_in_map@[ii].user_id@,
            forall|e1: int, e2: int|
                0 <= e1 < r@.len() && 0 <= e2 < r@.len() && e1 != e2 ==> send_target(
                    #[trigger] r@[e1],
                ) != send_target(#[trigger] r@[e2]),
        decreases n - i,
    {
        let uid = &users_in_map[i].user_id;
        let list = collect_nearby_from_list(uid.as_str(), &users_in_map);
        if list.len() > 0 {
            proof {
                assert forall|k: int| 0 <= k < list@.len() implies #[trigger] list@[k].id@ != uid@
                    && has_user(state.users@, list@[k].id@) && spec_user(
                    state.users@,
                    list@[k].id@,
                ).position.map_id@ == map_id@ && list@[k].display_name == spec_user(
                    state.users@,
                    list@[k].id@,
                ).display_name && list@[k].x == spec_user(state.users@, list@[k].id@).position.x
                    && list@[k].y == spec_user(state.users@, list@[k].id@).position.y
                    && list@[k].x25519_pubkey == spec_user(
                    state.users@,
                    list@[k].id@,
                ).x25519_pubkey by {
                    let jj = choose|jj: int|
                        0 <= jj < users_in_map@.len() && #[trigger] users_in_map@[jj].user_id@
                            == list@[k].id@ && users_in_map@[jj].display_name
                            == list@[k].display_name && users_in_map@[jj].position.x == list@[k].x
                            && users_in_map@[jj].position.y == list@[k].y
                            && users_in_map@[jj].x25519_pubkey == list@[k].x25519_pubkey;
                    assert(users_in_map@[jj].position.map_id@ == map_id@);
                    assert(users_in_map@[jj] == spec_user(state.users@, list@[k].id@));
                }
                assert forall|c: int|
                    0 <= c < state.clients@.len() && (#[trigger] state.clients@[c]).user_id@
                        != uid@ && spec_user(
                        state.users@,
                        state.clients@[c].user_id@,
                    ).position.map_id@ == map_id@ implies exists|k: int|
                    0 <= k < list@.len() && (#[trigger] list@[k]).id@
                        == state.clients@[c].user_id@ by {
                    let id2 = state.clients@[c].user_id@;
                    assert(exists|kk: int|
                        0 <= kk < users_in_map@.len() && #[trigger] users_in_map@[kk].user_id@
                            == id2);
                    let kk = choose|kk: int|
                        0 <= kk < users_in_map@.len() && #[trigger] users_in_map@[kk].user_id@
                            == id2;
                    assert(users_in_map@[kk].user_id@ != uid@);
                    assert(exists|q: int|
                        0 <= q < list@.len() && #[trigger] list@[q].id@
                            == users_in_map@[kk].user_id@);
                }
            }
            let ghost before = r@;
            r.push(
                Effect::Send {
                    to: uid.clone(),
                    msg: ServerMsg::Nearby(ServerNearby { users: list }),
                },
            );
            proof {
                assert(forall|e: int| 0 <= e < before.len() ==> r@[e] == before[e]);
                assert(r@.last() matches Effect::Send { to, msg } && to@
                    == users_in_map@[i as int].user_id@);
                assert(send_target(r@.last()) == users_in_map@[i as int].user_id@);
                assert forall|e: int| 0 <= e < before.len() implies send_target(#[trigger] r@[e])
                    != send_target(r@.last()) by {
                    let ii = choose|ii: int|
                        0 <= ii < i && send_target(before[e]) == users_in_map@[ii].user_id@;
                    assert(users_in_map@[ii].user_id@ != users_in_map@[i as int].user_id@);
                }
            }
        } else {
            proof {
                // an empty list means the user stands alone on the map
                assert forall|kk: int|
                    0 <= kk < users_in_map@.len() implies #[trigger] users_in_map@[kk].user_id@
                    == users_in_map@[i as int].user_id@ by {
                    if users_in_map@[kk].user_id@ != uid@ {
                        assert(exists|q: int|
                            0 <= q < list@.len() && #[trigger] list@[q].id@
                                == users_in_map@[kk].user_id@);
                    }
                }
            }
        }
        i = i + 1;
    }
    proof {
        assert forall|c: int|
            0 <= c < state.clients@.len() && spec_user(
                state.users@,
                (#[trigger] state.clients@[c]).user_id@,
            ).position.map_id@ == map_id@ && (exists|c2: int|
                0 <= c2 < state.clients@.len() && c2 != c
                    && (#[trigger] state.clients@[c2]).user_id@ != state.clients@[c].user_id@
                    && spec_user(state.users@, state.clients@[c2].user_id@).position.map_id@
                    == map_id@) implies exists|e: int|
            0 <= e < r@.len() && ((#[trigger] r@[e]) matches Effect::Send { to, msg } && to@
                == state.clients@[c].user_id@) by {
            let id = state.clients@[c].user_id@;
            assert(exists|kk: int|
                0 <= kk < users_in_map@.len() && #[trigger] users_in_map@[kk].user_id@ == id);
            let ii = choose|ii: int|
                0 <= ii < users_in_map@.len() && #[trigger] users_in_map@[ii].user_id@ == id;
            let c2 = choose|c2: int|
                0 <= c2 < state.clients@.len() && c2 != c
                    && (#[trigger] state.clients@[c2]).user_id@ != id && spec_user(
                    state.users@,
                    state.clients@[c2].user_id@,
                ).position.map_id@ == map_id@;
            let id2 = state.clients@[c2].user_id@;
            assert(exists|kk: int|
                0 <= kk < users_in_map@.len() && #[trigger] users_in_map@[kk].user_id@ == id2);
            let kk2 = choose|kk: int|
                0 <= kk < users_in_map@.len() && #[trigger] users_in_map@[kk].user_id@ == id2;
            assert(users_in_map@[kk2].user_id@ != users_in_map@[ii].user_id@);
        }
    }
    r
}

/// Every connected user of map `m` who shares it with someone else is
/// sent an effect of the list.
pub open spec fn nearby_refresh_complete(effs: Seq<Effect>, st: ServerState, m: Seq<char>) -> bool {
    forall|c: int|
        0 <= c < st.clients@.len() && spec_user(
            st.users@,
            (#[trigger] st.clients@[c]).user_id@,
        ).position.map_id@ == m && (exists|c2: int|
            0 <= c2 < st.clients@.len() && c2 != c && (#[trigger] st.clients@[c2]).user_id@
                != st.clients@[c].user_id@ && spec_user(
                st.users@,
                st.clients@[c2].user_id@,
            ).position.map_id@ == m) ==> exists|e: int|
            0 <= e < effs.len() && ((#[trigger] effs[e]) matches Effect::Send { to, msg } && to@
                == st.clients@[c].user_id@)
}

/// A list that serves everyone on a map still does so as a slice of a
/// longer list.
pub proof fn lemma_nearby_complete_embed(
    a: Seq<Effect>,
    b: Seq<Effect>,
    st: ServerState,
    m: Seq<char>,
    off: int,
)
    requires
        0 <= off,
        off + a.len() <= b.len(),
        forall|e: int| 0 <= e < a.len() ==> #[trigger] b[off + e] == a[e],
        nearby_refresh_complete(a, st, m),
    ensures
        nearby_refresh_complete(b, st, m),
{
    assert forall|c: int|
        0 <= c < st.clients@.len() && spec_user(
            st.users@,
            (#[trigger] st.clients@[c]).user_id@,
        ).position.map_id@ == m && (exists|c2: int|
            0 <= c2 < st.clients@.len() && c2 != c && (#[trigger] st.clients@[c2]).user_id@
                != st.clients@[c].user_id@ && spec_user(
                st.users@,
                st.clients@[c2].user_id@,
            ).position.map_id@ == m) implies exists|e: int|
        0 <= e < b.len() && ((#[trigger] b[e]) matches Effect::Send { to, msg } && to@
            == st.clients@[c].user_id@) by {
        let e0 = choose|e: int|
            0 <= e < a.len() && ((#[trigger] a[e]) matches Effect::Send { to, msg } && to@
                == st.clients@[c].user_id@);
        assert(b[off + e0] == a[e0]);
    }
}

/// Any `server.room_info` among the effects tells the truth about the
/// stored rooms: the record it describes exists and reads exactly so.
pub open spec fn room_info_truthful(e: Effect, rooms: Seq<RoomState>) -> bool {
    e matches Effect::Send { to, msg: ServerMsg::RoomInfo(p) } ==> (crate::state::has_room(
        rooms,
        p.room_id@,
    ) && {
        let r = crate::state::spec_room(rooms, p.room_id@);
        &&& p.owner == r.owner_pubkey
        &&& p.price_xmr@ == r.price_xmr@
        &&& p.for_sale == r.for_sale
        &&& p.access.mode == r.access.mode
        &&& p.access.list@ == r.access.list@
        &&& p.display_name == r.display_name
        &&& p.door_color == r.door_color
    })
}

/// The `server.room_info` effect describing `room`, sent to `to`.
pub fn room_info_effect(to: &str, room: &RoomState) -> (r: Effect)
    ensures
        (r matches Effect::Send { to: t, msg: ServerMsg::RoomInfo(p) } && t@ == to@ && p.room_id@
            == room.room_id@ && p.owner == room.owner_pubkey && p.price_xmr@ == room.price_xmr@
            && p.for_sale == room.for_sale && p.access.mode == room.access.mode && p.access.list@
            == room.access.list@ && p.display_name == room.display_name && p.door_color
            == room.door_color),
{
    Effect::Send {
        to: to.to_owned(),
        msg: ServerMsg::RoomInfo(
            ServerRoomInfo {
                room_id: room.room_id.clone(),
                owner: clone_opt_string(&room.owner_pubkey),
                price_xmr: room.price_xmr.clone(),
                for_sale: room.for_sale,
                access: room.access.clone(),
                display_name: clone_opt_string(&room.display_name),
                door_color: clone_opt_string(&room.door_color),
            },
        ),
    }
}

/// The `server.train_state` snapshot of `trains`, sent to `to`.
pub fn train_state_effect(to: &str, trains: &Vec<TrainState>) -> (r: Effect)
    ensures
        (r matches Effect::Send { to: t, msg: ServerMsg::TrainState(p) } && t@ == to@
            && p.trains@.len() == trains@.len() && (forall|k: int|
            0 <= k < trains@.len() ==> #[trigger] p.trains@[k] == (TrainInfo {
                id: trains@[k].id,
                x_milli: trains@[k].x_milli,
                clockwise: trains@[k].clockwise,
            }))),
{
    let mut infos: Vec<TrainInfo> = Vec::new();
    let mut i: usize = 0;
    let n = trains.len();
    while i < n
        invariant
            i <= n,
            n == trains@.len(),
            infos@.len() == i,
            forall|k: int|
                0 <= k < i ==> #[trigger] infos@[k] == (TrainInfo {
                    id: trains@[k].id,
                    x_milli: trains@[k].x_milli,
                    clockwise: trains@[k].clockwise,
                }),
        decreases n - i,
    {
        infos.push(
            TrainInfo {
                id: trains[i].id,
                x_milli: trains[i].x_milli,
                clockwise: trains[i].clockwise,
            },
        );
        i = i + 1;
    }
    Effect::Send { to: to.to_owned(), msg: ServerMsg::TrainState(ServerTrainState { trains: infos }) }
}

/// Train snapshots go to users on the street or aboard a train.
pub fn should_receive_train_state(user: &UserState) -> (r: bool)
    ensures
        r == (user.position.map_id@ == "street"@ || (crate::monorail::spec_parse_train_map_id(
            user.position.map_id@,
        ) matches Some(v) && 0 <= v <= u32::MAX)),
{
    if str_eq(user.position.map_id.as_str(), "street") {
        true
    } else {
        crate::monorail::parse_train_map_id(user.position.map_id.as_str()).is_some()
    }
}

} // verus!
