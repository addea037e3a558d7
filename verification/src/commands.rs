//! The command router: `client.command` names a command and arguments;
//! each handler validates, touches the world or the wallet, and answers
//! with exactly one reply or error.
use vstd::prelude::*;

use crate::broadcast::{connected_users_in_map, room_info_effect};
use crate::chat::{LOCAL_CHAT_HEIGHT, LOCAL_CHAT_WIDTH};
use crate::config::RelayConfig;
use crate::in_box;
use crate::messages::{
    clone_string_vec, eff_is_error, eff_is_notice, eff_is_some_notice, send_error, send_notice,
    AccessMode, AccessPolicy, Effect, ServerMsg, ServerTxUpdate, ServerWho, WhoUser,
};
use crate::money::{compute_fee, spec_amount_or_zero};
use crate::state::{
    clone_opt_string, has_room, has_user, is_connected, kv_get, kv_has, kv_insert, room_like,
    spec_room, spec_user, user_matches_token, BoardingRequest, RoomState, ServerState, TrainRide,
};
use crate::wallet::{spec_balance, MockWallet};
use crate::text::str_eq;

verus! {

/// Whether the user stands orthogonally next to a room's customizer
/// tile (and inside a room at all).
pub open spec fn spec_adjacent_to_customizer(u: crate::state::UserState) -> bool {
    &&& (exists|side: crate::doors::RoomSide, sx: int|
        crate::doors::room_map_id_ok(#[trigger] u.position.map_id@, side, sx))
    &&& {
        let dx = if u.position.x >= 1 {
            u.position.x - 1
        } else {
            1 - u.position.x
        };
        let dy = if u.position.y >= 1 {
            u.position.y - 1
        } else {
            1 - u.position.y
        };
        dx + dy == 1
    }
}

pub fn is_adjacent_to_customizer(user: &crate::state::UserState) -> (r: bool)
    requires
        i32::MIN < user.position.x < i32::MAX,
        i32::MIN < user.position.y < i32::MAX,
    ensures
        r == spec_adjacent_to_customizer(*user),
{
    if crate::doors::parse_room_map_id(user.position.map_id.as_str()).is_none() {
        return false;
    }
    let (cx, cy) = crate::map::room_customizer_position();
    let px: i64 = user.position.x as i64;
    let py: i64 = user.position.y as i64;
    let dx: i64 = if px >= cx as i64 {
        px - cx as i64
    } else {
        cx as i64 - px
    };
    let dy: i64 = if py >= cy as i64 {
        py - cy as i64
    } else {
        cy as i64 - py
    };
    dx == 1 && dy == 0 || dx == 0 && dy == 1
}

/// A station named by compass label (any ASCII case) or by its literal
/// column number.
pub open spec fn spec_station_arg(s: Seq<char>) -> Option<int> {
    match crate::monorail::spec_station_x_for_label(s) {
        Some(v) => Some(v),
        None => match crate::text::spec_parse_sint(s) {
            Some(v) => if crate::monorail::spec_is_station_pos(v) && i64::MIN <= v <= i64::MAX {
                Some(v)
            } else {
                None
            },
            None => None,
        },
    }
}

pub fn parse_station_arg(args: &Vec<String>) -> (r: Option<i64>)
    ensures
        match r {
            Some(v) => args@.len() > 0 && spec_station_arg(args@[0]@) == Some(v as int),
            None => args@.len() == 0 || spec_station_arg(args@[0]@) is None,
        },
{
    if args.len() == 0 {
        return None;
    }
    let arg = &args[0];
    if let Some(v) = crate::monorail::station_x_for_label(arg.as_str()) {
        return Some(v);
    }
    match crate::text::parse_i64_str(arg.as_str()) {
        Some(v) => {
            if v == 0 || v == 1024 || v == 2048 || v == 3072 {
                Some(v)
            } else {
                None
            }
        },
        None => None,
    }
}

/// Everything `handle_who` promises of its result and effects.
pub open spec fn who_post(st: ServerState, user_id: Seq<char>, effects: Seq<Effect>) -> bool {
            let u = spec_user(st.users@, user_id);
            let m = u.position.map_id@;
            effects[0] matches Effect::Send { to, msg: ServerMsg::Who(w) } && to@ == user_id && (
            forall|k: int|
                0 <= k < w.users@.len() ==> has_user(st.users@, #[trigger] w.users@[k].id@)
                    && spec_user(st.users@, w.users@[k].id@).position.map_id@ == m) && (forall|
                c: int,
            |
                0 <= c < st.clients@.len() && spec_user(
                    st.users@,
                    (#[trigger] st.clients@[c]).user_id@,
                ).position.map_id@ == m && (m == "street"@ ==> crate::spec_in_box(
                    u.position.x as int,
                    u.position.y as int,
                    spec_user(st.users@, st.clients@[c].user_id@).position.x as int,
                    spec_user(st.users@, st.clients@[c].user_id@).position.y as int,
                    crate::chat::LOCAL_CHAT_WIDTH as int,
                    crate::chat::LOCAL_CHAT_HEIGHT as int,
                )) ==> exists|k: int|
                    0 <= k < w.users@.len() && #[trigger] w.users@[k].id@
                        == st.clients@[c].user_id@)
        }

/// `who`: the users sharing the caller's map; on the street only those
/// inside the local box.
pub fn handle_who(state: &ServerState, user_id: &str) -> (effects: Vec<Effect>)
    requires
        state.wf(),
        is_connected(state.clients@, user_id@),
        has_user(state.users@, user_id@),
    ensures
        effects@.len() == 1,
        who_post(*state, user_id@, effects@),
{
    let user = match state.get_user(user_id) {
        Some(u) => u,
        None => {
            proof {
                assert(false);
            }
            return Vec::new();
        },
    };
    let on_street = str_eq(user.position.map_id.as_str(), "street");
    let users_in_map = connected_users_in_map(state, user.position.map_id.as_str());
    let mut who: Vec<WhoUser> = Vec::new();
    let mut j: usize = 0;
    let n = users_in_map.len();
    while j < n
        invariant
            j <= n,
            n == users_in_map@.len(),
            state.wf(),
            has_user(state.users@, user_id@),
            user == spec_user(state.users@, user_id@),
            on_street == (spec_user(state.users@, user_id@).position.map_id@ == "street"@),
            forall|k: int|
                0 <= k < users_in_map@.len() ==> has_user(
                    state.users@,
                    #[trigger] users_in_map@[k].user_id@,
                ) && users_in_map@[k] == spec_user(state.users@, users_in_map@[k].user_id@)
                    && users_in_map@[k].position.map_id@ == spec_user(
                    state.users@,
                    user_id@,
                ).position.map_id@,
            forall|k: int|
                0 <= k < who@.len() ==> has_user(state.users@, #[trigger] who@[k].id@)
                    && spec_user(state.users@, who@[k].id@).position.map_id@ == spec_user(
                    state.users@,
                    user_id@,
                ).position.map_id@,
            forall|jj: int|
                0 <= jj < j && (on_street ==> crate::spec_in_box(
                    user.position.x as int,
                    user.position.y as int,
                    users_in_map@[jj].position.x as int,
                    users_in_map@[jj].position.y as int,
                    LOCAL_CHAT_WIDTH as int,
                    LOCAL_CHAT_HEIGHT as int,
                )) ==> exists|k: int|
                    0 <= k < who@.len() && #[trigger] who@[k].id@ == users_in_map@[jj].user_id@,
        decreases n - j,
    {
        let other = &users_in_map[j];
        let keep = if on_street {
            in_box(
                user.position.x,
                user.position.y,
                other.position.x,
                other.position.y,
                LOCAL_CHAT_WIDTH,
                LOCAL_CHAT_HEIGHT,
            )
        } else {
            true
        };
        if keep {
            let ghost before = who@;
            who.push(
                WhoUser {
                    id: other.user_id.clone(),
                    display_name: clone_opt_string(&other.display_name),
                },
            );
            proof {
                assert(forall|k: int| 0 <= k < before.len() ==> who@[k] == before[k]);
                assert(who@.last().id@ == users_in_map@[j as int].user_id@);
            }
        }
        j = j + 1;
    }
    proof {
        // the map listing is complete, so every eligible occupant is in
        assert forall|c: int|
            0 <= c < state.clients@.len() && spec_user(
                state.users@,
                (#[trigger] state.clients@[c]).user_id@,
            ).position.map_id@ == spec_user(state.users@, user_id@).position.map_id@ && (
            on_street ==> crate::spec_in_box(
                user.position.x as int,
                user.position.y as int,
                spec_user(state.users@, state.clients@[c].user_id@).position.x as int,
                spec_user(state.users@, state.clients@[c].user_id@).position.y as int,
                LOCAL_CHAT_WIDTH as int,
                LOCAL_CHAT_HEIGHT as int,
            )) implies exists|k: int|
            0 <= k < who@.len() && #[trigger] who@[k].id@ == state.clients@[c].user_id@ by {
            let id = state.clients@[c].user_id@;
            assert(exists|kk: int|
                0 <= kk < users_in_map@.len() && #[trigger] users_in_map@[kk].user_id@ == id);
            let kk = choose|kk: int|
                0 <= kk < users_in_map@.len() && #[trigger] users_in_map@[kk].user_id@ == id;
            assert(users_in_map@[kk] == spec_user(state.users@, id));
        }
    }
    let mut effects: Vec<Effect> = Vec::new();
    effects.push(Effect::Send { to: user_id.to_owned(), msg: ServerMsg::Who(ServerWho { users: who }) });
    effects
}

/// `balance`: a notice quoting the caller's balance, in the exact
/// `balance: <amount> XMR` form peers parse.
pub fn handle_balance(wallet: &MockWallet, user_id: &str, pubkey: &str) -> (effects: Vec<Effect>)
    requires
        wallet.wf(),
    ensures
        effects@.len() == 1,
        eff_is_notice(
            effects@[0],
            user_id@,
            "balance: "@ + crate::money::spec_format_xmr(spec_balance(wallet.balances@, pubkey@))
                + " XMR"@,
        ),
{
    let bal = match wallet.get_balance(pubkey) {
        Ok(b) => b,
        Err(_) => {
            proof {
                assert(false);
            }
            return Vec::new();
        },
    };
    let mut text = String::from_str("balance: ");
    text.append(bal.as_str());
    text.append(" XMR");
    let mut effects: Vec<Effect> = Vec::new();
    effects.push(send_notice(user_id, text.as_str()));
    proof {
        assert(text@ =~= "balance: "@ + crate::money::spec_format_xmr(
            spec_balance(wallet.balances@, pubkey@),
        ) + " XMR"@);
    }
    effects
}

/// Everything `handle_faucet` promises of its result and effects.
pub open spec fn faucet_post(wpre: MockWallet, wpost: MockWallet, user_id: Seq<char>, pubkey: Seq<char>, args: Seq<String>, effects: Seq<Effect>) -> bool {
            let amt = if args.len() > 0 && (crate::money::spec_parse_xmr(args[0]@) matches Some(
                v,
            ) && v <= u64::MAX as int) {
                crate::money::spec_parse_xmr(args[0]@)->0
            } else {
                500000000
            };
            &&& spec_balance(wpost.balances@, pubkey) == (if spec_balance(
                wpre.balances@,
                pubkey,
            ) + amt <= u64::MAX as int {
                spec_balance(wpre.balances@, pubkey) + amt
            } else {
                u64::MAX as int
            })
            &&& effects.len() == 2
            &&& eff_is_some_notice(effects[0], user_id)
            &&& eff_is_notice(
                effects[1],
                user_id,
                "balance: "@ + crate::money::spec_format_xmr(
                    spec_balance(wpost.balances@, pubkey),
                ) + " XMR"@,
            )
        }

/// `faucet [amount]`: credit the caller (five coins when no readable
/// amount is given) and quote the new balance.
pub fn handle_faucet(args: &Vec<String>, user_id: &str, pubkey: &str, wallet: &mut MockWallet)
    -> (effects: Vec<Effect>)
    requires
        old(wallet).wf(),
    ensures
        final(wallet).wf(),
        faucet_post(*old(wallet), *final(wallet), user_id@, pubkey@, args@, effects@),
{
    let amount: u64 = if args.len() > 0 {
        match crate::money::parse_xmr(args[0].as_str()) {
            Some(v) => v,
            None => 500000000,
        }
    } else {
        500000000
    };
    wallet.credit(pubkey, amount);
    let amount_text = crate::money::format_xmr(amount);
    let mut text = String::from_str("faucet: +");
    text.append(amount_text.as_str());
    text.append(" XMR");
    let mut effects: Vec<Effect> = Vec::new();
    effects.push(send_notice(user_id, text.as_str()));
    let mut bal = handle_balance(wallet, user_id, pubkey);
    effects.append(&mut bal);
    effects
}

/// Everything `handle_board` promises of its result and effects.
pub open spec fn board_post(pre: ServerState, post: ServerState, user_id: Seq<char>, args: Seq<String>, effects: Seq<Effect>) -> bool {
            let u = spec_user(pre.users@, user_id);
            let st = crate::monorail::spec_parse_station_map_id(u.position.map_id@);
            if !(st is Some && i64::MIN <= st->0 <= i64::MAX) {
                post.boarding@ == pre.boarding@ && eff_is_error(
                    effects[0],
                    user_id,
                    "invalid_command"@,
                )
            } else if args.len() == 0 || spec_station_arg(args[0]@) is None {
                post.boarding@ == pre.boarding@ && eff_is_error(
                    effects[0],
                    user_id,
                    "invalid_command"@,
                )
            } else if spec_station_arg(args[0]@) == Some(st->0) {
                post.boarding@ == pre.boarding@ && eff_is_error(
                    effects[0],
                    user_id,
                    "invalid_command"@,
                )
            } else if kv_has(pre.riders@, user_id) {
                post.boarding@ == pre.boarding@ && eff_is_error(
                    effects[0],
                    user_id,
                    "invalid_command"@,
                )
            } else {
                &&& (kv_get(post.boarding@, user_id) matches Some(req) && req.station_x
                    as int == st->0 && spec_station_arg(args[0]@) == Some(
                    req.destination_x as int,
                ))
                &&& eff_is_notice(effects[0], user_id, "waiting for train"@)
            }
        }

/// `board <station>`: file a boarding request from the station the
/// caller stands in toward another station.
pub fn handle_board(state: &mut ServerState, user_id: &str, args: &Vec<String>) -> (effects: Vec<
    Effect,
>)
    requires
        old(state).wf(),
        is_connected(old(state).clients@, user_id@),
    ensures
        final(state).wf(),
        final(state).users@ == old(state).users@,
        final(state).rooms@ == old(state).rooms@,
        final(state).clients@ == old(state).clients@,
        final(state).presence@ == old(state).presence@,
        final(state).riders@ == old(state).riders@,
        effects@.len() == 1,
        board_post(*old(state), *final(state), user_id@, args@, effects@),
{
    let mut effects: Vec<Effect> = Vec::new();
    let user = match state.get_user(user_id) {
        Some(u) => u,
        None => {
            proof {
                let c = choose|c: int|
                    0 <= c < state.clients@.len() && #[trigger] state.clients@[c].user_id@
                        == user_id@;
                assert(false);
            }
            return effects;
        },
    };
    let station_x = match crate::monorail::parse_station_map_id(user.position.map_id.as_str()) {
        Some(v) => v,
        None => {
            effects.push(send_error(user_id, "invalid_command", "not in a station"));
            return effects;
        },
    };
    let destination = match parse_station_arg(args) {
        Some(v) => v,
        None => {
            effects.push(
                send_error(user_id, "invalid_command", "usage: /board <north|east|south|west>"),
            );
            return effects;
        },
    };
    if destination == station_x {
        effects.push(send_error(user_id, "invalid_command", "already at destination"));
        return effects;
    }
    if crate::state::kv_find(&state.riders, user_id).is_some() {
        proof {
            let a = choose|a: int|
                0 <= a < state.riders@.len() && #[trigger] state.riders@[a].0@ == user_id@;
        }
        effects.push(send_error(user_id, "invalid_command", "already on train"));
        return effects;
    }
    proof {
        if kv_has(state.riders@, user_id@) {
            assert(false);
        }
    }
    kv_insert(
        &mut state.boarding,
        user_id,
        BoardingRequest { station_x, destination_x: destination },
    );
    proof {
        assert forall|id2: Seq<char>|
            !(#[trigger] kv_has(state.boarding@, id2) && #[trigger] kv_has(
                state.riders@,
                id2,
            )) by {
            if kv_has(state.boarding@, id2) && kv_has(state.riders@, id2) {
                if id2 != user_id@ {
                    assert(kv_get(state.boarding@, id2) == kv_get(old(state).boarding@, id2));
                    assert(kv_get(state.boarding@, id2) is Some);
                    assert(kv_has(old(state).boarding@, id2)) by {
                        if !kv_has(old(state).boarding@, id2) {
                            assert(kv_get(old(state).boarding@, id2) is None);
                        }
                    }
                }
            }
        }
    }
    effects.push(send_notice(user_id, "waiting for train"));
    effects
}

/// Everything `handle_depart` promises of its result and effects.
pub open spec fn depart_post(pre: ServerState, post: ServerState, user_id: Seq<char>, args: Seq<String>, effects: Seq<Effect>) -> bool {
            let on_train = has_user(pre.users@, user_id) && (
            crate::monorail::spec_parse_train_map_id(
                spec_user(pre.users@, user_id).position.map_id@,
            ) matches Some(t) && 0 <= t <= u32::MAX as int);
            if (on_train && (kv_get(pre.riders@, user_id) matches Some(ride)) && args.len()
                > 0 && spec_station_arg(args[0]@) is Some) {
                (kv_get(post.riders@, user_id) matches Some(r2) && r2.train_id
                    == kv_get(pre.riders@, user_id)->0.train_id && Some(
                    r2.destination_x as int,
                ) == spec_station_arg(args[0]@)) && eff_is_notice(
                    effects[0],
                    user_id,
                    "destination updated"@,
                )
            } else {
                post.riders@ == pre.riders@ && eff_is_error(
                    effects[0],
                    user_id,
                    "invalid_command"@,
                )
            }
        }

/// `depart <station>`: point an ongoing ride at a new destination.
pub fn handle_depart(state: &mut ServerState, user_id: &str, args: &Vec<String>) -> (effects: Vec<
    Effect,
>)
    requires
        old(state).wf(),
    ensures
        final(state).wf(),
        final(state).users@ == old(state).users@,
        final(state).rooms@ == old(state).rooms@,
        final(state).clients@ == old(state).clients@,
        final(state).presence@ == old(state).presence@,
        final(state).boarding@ == old(state).boarding@,
        effects@.len() == 1,
        depart_post(*old(state), *final(state), user_id@, args@, effects@),
        forall|q: Seq<char>|
            q != user_id@ ==> #[trigger] kv_get(final(state).riders@, q) == kv_get(
                old(state).riders@,
                q,
            ),
{
    let mut effects: Vec<Effect> = Vec::new();
    let on_train = match state.get_user(user_id) {
        Some(u) => crate::monorail::parse_train_map_id(u.position.map_id.as_str()).is_some(),
        None => false,
    };
    if !on_train {
        effects.push(send_error(user_id, "invalid_command", "not on a train"));
        return effects;
    }
    let destination = match parse_station_arg(args) {
        Some(v) => v,
        None => {
            effects.push(
                send_error(user_id, "invalid_command", "usage: /depart <north|east|south|west>"),
            );
            return effects;
        },
    };
    let ride = match crate::state::kv_find(&state.riders, user_id) {
        Some(i) => {
            proof {
                crate::state::lemma_kv_at(state.riders@, user_id@, i as int);
            }
            Some(state.riders[i].1)
        },
        None => None,
    };
    let ride = match ride {
        Some(r) => r,
        None => {
            effects.push(send_error(user_id, "invalid_command", "not riding"));
            return effects;
        },
    };
    kv_insert(
        &mut state.riders,
        user_id,
        TrainRide { train_id: ride.train_id, destination_x: destination },
    );
    proof {
        assert forall|id2: Seq<char>|
            !(#[trigger] kv_has(state.boarding@, id2) && #[trigger] kv_has(
                state.riders@,
                id2,
            )) by {
            if kv_has(state.boarding@, id2) && kv_has(state.riders@, id2) {
                if id2 == user_id@ {
                    assert(kv_has(old(state).riders@, id2)) by {
                        if !kv_has(old(state).riders@, id2) {
                            assert(kv_get(old(state).riders@, id2) is None);
                        }
                    }
                } else {
                    assert(kv_get(state.riders@, id2) == kv_get(old(state).riders@, id2));
                    assert(kv_get(state.riders@, id2) is Some);
                    assert(kv_has(old(state).riders@, id2)) by {
                        if !kv_has(old(state).riders@, id2) {
                            assert(kv_get(old(state).riders@, id2) is None);
                        }
                    }
                }
            }
        }
    }
    effects.push(send_notice(user_id, "destination updated"));
    effects
}


/// The word a policy mode prints as.
pub fn access_mode_label(mode: AccessMode) -> (r: &'static str)
    ensures
        r@ == match mode {
            AccessMode::Open => "open"@,
            AccessMode::Whitelist => "whitelist"@,
            AccessMode::Blacklist => "blacklist"@,
        },
{
    match mode {
        AccessMode::Open => "open",
        AccessMode::Whitelist => "whitelist",
        AccessMode::Blacklist => "blacklist",
    }
}

/// How many users `token` names, by id or display name.
pub open spec fn match_count(users: Seq<crate::state::UserState>, token: Seq<char>) -> int
    decreases users.len(),
{
    if users.len() == 0 {
        0
    } else {
        match_count(users.drop_last(), token) + if user_matches_token(users.last(), token) {
            1int
        } else {
            0int
        }
    }
}

proof fn lemma_match_count_nonneg(users: Seq<crate::state::UserState>, token: Seq<char>)
    ensures
        match_count(users, token) >= 0,
    decreases users.len(),
{
    if users.len() > 0 {
        lemma_match_count_nonneg(users.drop_last(), token);
    }
}

/// `token` names a user's key: it is a stored key itself, or it names
/// exactly one user.
pub open spec fn token_resolvable(st: ServerState, token: Seq<char>) -> bool {
    crate::state::has_pubkey(st.users@, token) || match_count(st.users@, token) == 1
}

/// `key` is what `token` resolves to: the token verbatim when it is a
/// stored key, else the named user's key.
pub open spec fn token_resolves_to(st: ServerState, token: Seq<char>, key: Seq<char>) -> bool {
    if crate::state::has_pubkey(st.users@, token) {
        key == token
    } else {
        exists|j: int|
            0 <= j < st.users@.len() && user_matches_token(#[trigger] st.users@[j], token)
                && st.users@[j].pubkey@ == key
    }
}

/// Resolve each token to a signing key: a token that is already a known
/// key passes through; otherwise it must name exactly one user by id or
/// display name; the result keeps the argument order. The error text
/// quotes the first token that is unknown or ambiguous.
pub fn resolve_pubkeys(state: &ServerState, args: &Vec<String>, start: usize) -> (r: Result<
    Vec<String>,
    String,
>)
    requires
        state.wf(),
        start <= args@.len(),
    ensures
        (r matches Ok(list) ==> list@.len() == args@.len() - start && (forall|k: int|
            0 <= k < list@.len() ==> token_resolves_to(
                *state,
                args@[start + k]@,
                #[trigger] list@[k]@,
            )) && (forall|i: int|
            start <= i < args@.len() ==> token_resolvable(*state, #[trigger] args@[i]@))),
        (r matches Err(msg) ==> exists|i: int|
            start <= i < args@.len() && !token_resolvable(*state, #[trigger] args@[i]@) && (msg@
                == "unknown user: "@ + args@[i]@ || msg@ == "ambiguous user: "@ + args@[i]@)),
{
    let mut results: Vec<String> = Vec::new();
    let mut i: usize = start;
    let n = args.len();
    while i < n
        invariant
            start <= i <= n,
            n == args@.len(),
            results@.len() == i - start,
            state.wf(),
            forall|k: int|
                0 <= k < results@.len() ==> token_resolves_to(
                    *state,
                    args@[start + k]@,
                    #[trigger] results@[k]@,
                ),
            forall|k: int|
                start <= k < i ==> token_resolvable(*state, #[trigger] args@[k]@),
        decreases n - i,
    {
        let token = &args[i];
        let direct = state.find_user_by_pubkey(token.as_str());
        if let Some(d) = direct {
            proof {
                assert(crate::state::has_pubkey(state.users@, token@));
            }
            let ghost before = results@;
            results.push(token.clone());
            proof {
                assert(forall|k: int| 0 <= k < before.len() ==> results@[k] == before[k]);
                assert(results@.last()@ == args@[i as int]@);
                assert(token_resolvable(*state, args@[i as int]@));
            }
            i = i + 1;
            continue ;
        }
        // count id/name matches to reject ambiguity
        let mut count: usize = 0;
        let mut hit: Option<usize> = None;
        let mut j: usize = 0;
        let m = state.users.len();
        proof {
            assert(state.users@.take(0) =~= Seq::<crate::state::UserState>::empty());
        }
        while j < m
            invariant
                j <= m,
                m == state.users@.len(),
                count <= j,
                count as int == match_count(state.users@.take(j as int), token@),
                token@ == args@[i as int]@,
                match hit {
                    Some(h) => h < m && count >= 1 && user_matches_token(
                        state.users@[h as int],
                        token@,
                    ),
                    None => count == 0,
                },
            decreases m - j,
        {
            let id_hit = str_eq(state.users[j].user_id.as_str(), token.as_str());
            let name_hit = match &state.users[j].display_name {
                Some(nm) => str_eq(nm.as_str(), token.as_str()),
                None => false,
            };
            let is_match = id_hit || name_hit;
            proof {
                assert(is_match == user_matches_token(state.users@[j as int], token@));
                assert(state.users@.take(j + 1).drop_last() =~= state.users@.take(j as int));
                assert(state.users@.take(j + 1).last() == state.users@[j as int]);
            }
            if is_match {
                count = count + 1;
                if hit.is_none() {
                    hit = Some(j);
                }
            }
            j = j + 1;
        }
        proof {
            assert(state.users@.take(m as int) =~= state.users@);
        }
        if count == 0 {
            proof {
                lemma_match_count_nonneg(state.users@, token@);
                assert(!token_resolvable(*state, args@[i as int]@));
            }
            let mut msg = String::from_str("unknown user: ");
            msg.append(token.as_str());
            proof {
                assert(msg@ =~= "unknown user: "@ + args@[i as int]@);
            }
            return Err(msg);
        }
        if count > 1 {
            proof {
                assert(!token_resolvable(*state, args@[i as int]@));
            }
            let mut msg = String::from_str("ambiguous user: ");
            msg.append(token.as_str());
            proof {
                assert(msg@ =~= "ambiguous user: "@ + args@[i as int]@);
            }
            return Err(msg);
        }
        let h = match hit {
            Some(h) => h,
            None => {
                proof {
                    assert(false);
                }
                return Err(String::new());
            },
        };
        let ghost before = results@;
        results.push(state.users[h].pubkey.clone());
        proof {
            assert(forall|k: int| 0 <= k < before.len() ==> results@[k] == before[k]);
            assert(results@.last()@ == state.users@[h as int].pubkey@);
            assert(token_resolves_to(*state, args@[i as int]@, results@.last()@));
            assert(token_resolvable(*state, args@[i as int]@));
        }
        i = i + 1;
    }
    Ok(results)
}

/// `e` reports a purchase confirmed outright.
pub open spec fn eff_is_confirmed_tx(e: Effect, to: Seq<char>) -> bool {
    e matches Effect::Send { to: t, msg: ServerMsg::TxUpdate(x) } && t@ == to && x.status@
        == "confirmed"@ && x.confirmations == 8
}

/// Everything `handle_buy` promises of its result and effects.
pub open spec fn buy_post(pre: ServerState, post: ServerState, wpre: MockWallet, wpost: MockWallet, user_id: Seq<char>, pubkey: Seq<char>, config: RelayConfig, effects: Seq<Effect>) -> bool {
            // when the purchase is owed, and the errors that refuse it
            let u = spec_user(pre.users@, user_id);
            let in_room = exists|side: crate::doors::RoomSide, sx: int|
                crate::doors::room_map_id_ok(#[trigger] u.position.map_id@, side, sx);
            &&& (!in_room ==> effects.len() == 1 && eff_is_error(
                effects[0],
                user_id,
                "invalid_command"@,
            ) && post.rooms@ == pre.rooms@ && wpost.balances@ == wpre.balances@)
            &&& (in_room ==> {
                let (side, sx) = choose|side: crate::doors::RoomSide, sx: int|
                    crate::doors::room_map_id_ok(u.position.map_id@, side, sx);
                let rid = crate::doors::spec_room_id(side, sx);
                let existed = has_room(pre.rooms@, rid);
                let sale = !existed || spec_room(pre.rooms@, rid).for_sale;
                let price = if existed {
                    spec_room(pre.rooms@, rid).price_xmr@
                } else {
                    config.room_price_xmr@
                };
                let amt = spec_amount_or_zero(price);
                let fee = crate::money::spec_fee_units(
                    amt,
                    config.dev_fee.mode,
                    config.dev_fee.value as int,
                );
                let b0 = spec_balance(wpre.balances@, pubkey);
                let dev = config.dev_wallet_pubkey@;
                let seller = if existed && spec_room(pre.rooms@, rid).owner_pubkey is Some {
                    spec_room(pre.rooms@, rid).owner_pubkey->0@
                } else {
                    dev
                };
                &&& (!sale ==> effects.len() == 1 && eff_is_error(
                    effects[0],
                    user_id,
                    "invalid_command"@,
                ) && post.rooms@ == pre.rooms@ && wpost.balances@ == wpre.balances@)
                &&& (sale && fee > u64::MAX as int ==> effects.len() == 1 && eff_is_error(
                    effects[0],
                    user_id,
                    "wallet_error"@,
                ) && wpost.balances@ == wpre.balances@)
                &&& (sale && fee <= u64::MAX as int && b0 < amt ==> effects.len() == 1
                    && eff_is_error(effects[0], user_id, "insufficient_funds"@) && (effects[0]
                    matches Effect::Send { to, msg: ServerMsg::Error(err) } && err.message@
                    == "insufficient funds"@) && wpost.balances@ == wpre.balances@
                    && (has_room(pre.rooms@, rid) ==> spec_room(post.rooms@, rid)
                    == spec_room(pre.rooms@, rid)))
                &&& (sale && fee <= u64::MAX as int && b0 >= amt && b0 < amt + fee && pubkey
                    != seller ==> effects.len() == 1 && eff_is_error(
                    effects[0],
                    user_id,
                    "insufficient_funds"@,
                ) && (effects[0] matches Effect::Send { to, msg: ServerMsg::Error(err) }
                    && err.message@ == "insufficient funds"@) && (has_room(pre.rooms@, rid)
                    ==> spec_room(post.rooms@, rid) == spec_room(pre.rooms@, rid)))
                &&& (sale && fee <= u64::MAX as int && b0 >= amt + fee ==> (has_room(
                    post.rooms@,
                    rid,
                ) && (spec_room(post.rooms@, rid).owner_pubkey matches Some(o) && o@
                    == pubkey) && !spec_room(post.rooms@, rid).for_sale && (exists|e: int|
                    0 <= e < effects.len() && eff_is_confirmed_tx(#[trigger] effects[e], user_id))
                    && (exists|e: int| 0 <= e < effects.len() && (#[trigger] effects[e]) is SaveRooms)
                    && (exists|e: int|
                    0 <= e < effects.len() && ((#[trigger] effects[e]) matches Effect::Send {
                        to,
                        msg: ServerMsg::RoomInfo(p),
                    } && to@ == user_id && p.room_id@ == rid))
                    && (exists|e: int|
                    0 <= e < effects.len() && eff_is_notice(
                        #[trigger] effects[e],
                        user_id,
                        "balance: "@ + crate::money::spec_format_xmr(
                            spec_balance(wpost.balances@, pubkey),
                        ) + " XMR"@,
                    ))
                    && (pubkey != seller && pubkey != dev ==> {
                        &&& spec_balance(wpost.balances@, pubkey) == b0 - amt - fee
                        &&& (seller != dev ==> spec_balance(wpost.balances@, seller) == (
                        if spec_balance(wpre.balances@, seller) + amt <= u64::MAX as int {
                            spec_balance(wpre.balances@, seller) + amt
                        } else {
                            u64::MAX as int
                        }) && spec_balance(wpost.balances@, dev) == (if spec_balance(
                            wpre.balances@,
                            dev,
                        ) + fee <= u64::MAX as int {
                            spec_balance(wpre.balances@, dev) + fee
                        } else {
                            u64::MAX as int
                        }))
                        &&& (seller == dev ==> {
                            let c1 = if spec_balance(wpre.balances@, dev) + amt
                                <= u64::MAX as int {
                                spec_balance(wpre.balances@, dev) + amt
                            } else {
                                u64::MAX as int
                            };
                            spec_balance(wpost.balances@, dev) == (if c1 + fee
                                <= u64::MAX as int {
                                c1 + fee
                            } else {
                                u64::MAX as int
                            })
                        })
                    })))
            })
        }

/// `buy`: purchase the room the caller stands in. The price goes to the
/// prior owner (or the dev wallet), the fee to the dev wallet; on
/// success the caller owns the room and it leaves the market.
pub fn handle_buy(
    state: &mut ServerState,
    wallet: &mut MockWallet,
    user_id: &str,
    pubkey: &str,
    config: &RelayConfig,
) -> (effects: Vec<Effect>)
    requires
        old(state).wf(),
        old(wallet).wf(),
        is_connected(old(state).clients@, user_id@),
    ensures
        final(state).wf(),
        final(wallet).wf(),
        final(state).users@ == old(state).users@,
        final(state).clients@ == old(state).clients@,
        final(state).presence@ == old(state).presence@,
        buy_post(*old(state), *final(state), *old(wallet), *final(wallet), user_id@, pubkey@, *config, effects@),
        ({
            // a confirmed update reports success: the caller then owns
            // the room its position names, and it is off the market
            (exists|e: int|
                0 <= e < effects@.len() && eff_is_confirmed_tx(
                    #[trigger] effects@[e],
                    user_id@,
                )) ==> (has_user(old(state).users@, user_id@) && exists|
                side: crate::doors::RoomSide,
                sx: int,
            |
                #![auto]
                crate::doors::room_map_id_ok(
                    spec_user(old(state).users@, user_id@).position.map_id@,
                    side,
                    sx,
                ) && has_room(final(state).rooms@, crate::doors::spec_room_id(side, sx)) && (
                spec_room(
                    final(state).rooms@,
                    crate::doors::spec_room_id(side, sx),
                ).owner_pubkey matches Some(o) && o@ == pubkey@) && !spec_room(
                    final(state).rooms@,
                    crate::doors::spec_room_id(side, sx),
                ).for_sale)
        }),
{
    let mut effects: Vec<Effect> = Vec::new();
    let user = match state.get_user(user_id) {
        Some(u) => u,
        None => {
            proof {
                let c = choose|c: int|
                    0 <= c < state.clients@.len() && #[trigger] state.clients@[c].user_id@
                        == user_id@;
                assert(false);
            }
            return effects;
        },
    };
    let room_id = match crate::doors::parse_room_map_id(user.position.map_id.as_str()) {
        Some((side, street_x)) => {
            proof {
                let (cside, csx) = choose|cside: crate::doors::RoomSide, csx: int|
                    crate::doors::room_map_id_ok(user.position.map_id@, cside, csx);
                crate::physics::lemma_room_map_id_unique(
                    user.position.map_id@,
                    side,
                    street_x as int,
                    cside,
                    csx,
                );
            }
            crate::doors::room_id_for_door(side, street_x)
        },
        None => {
            effects.push(send_error(user_id, "invalid_command", "not in a room"));
            return effects;
        },
    };
    let ghost rooms0 = state.rooms@;
    let room = state.get_or_create_room(room_id.as_str(), config.room_price_xmr.as_str());
    proof {
        // a freshly created record is the one the identifier names
        let rid = room_id@;
        if !has_room(rooms0, rid) {
            let n0 = rooms0.len() as int;
            assert(forall|a: int|
                0 <= a < n0 ==> #[trigger] state.rooms@[a] == state.rooms@.subrange(0, n0)[a]);
            assert(spec_room(state.rooms@, rid) == state.rooms@.last()) by {
                let a = choose|a: int|
                    0 <= a < state.rooms@.len() && #[trigger] state.rooms@[a].room_id@ == rid;
                if a < n0 {
                    assert(rooms0[a].room_id@ == rid);
                }
                crate::state::lemma_room_at(state.rooms@, rid, a);
            }
        }
        assert(room.for_sale == (if has_room(rooms0, rid) {
            spec_room(rooms0, rid).for_sale
        } else {
            true
        }));
        assert(room.price_xmr@ == (if has_room(rooms0, rid) {
            spec_room(rooms0, rid).price_xmr@
        } else {
            config.room_price_xmr@
        }));
        assert(room.owner_pubkey == (if has_room(rooms0, rid) {
            spec_room(rooms0, rid).owner_pubkey
        } else {
            None::<String>
        }));
    }
    if !room.for_sale {
        effects.push(send_error(user_id, "invalid_command", "room not for sale"));
        return effects;
    }
    let price = room.price_xmr.clone();
    let fee = match compute_fee(price.as_str(), &config.dev_fee) {
        Some(f) => f,
        None => {
            effects.push(send_error(user_id, "wallet_error", "fee out of range"));
            return effects;
        },
    };
    proof {
        lemma_zero_amount_literal();
        crate::money::lemma_format_parse_round_trip(
            crate::money::spec_fee_units(
                spec_amount_or_zero(price@),
                config.dev_fee.mode,
                config.dev_fee.value as int,
            ),
        );
    }
    let pay_to: &String = match &room.owner_pubkey {
        Some(owner) => owner,
        None => &config.dev_wallet_pubkey,
    };
    proof {
        let dev = config.dev_wallet_pubkey@;
        let seller = if has_room(rooms0, room_id@) && spec_room(
            rooms0,
            room_id@,
        ).owner_pubkey is Some {
            spec_room(rooms0, room_id@).owner_pubkey->0@
        } else {
            dev
        };
        assert(pay_to@ == seller);
    }
    let ghost bal0 = wallet.balances@;
    match wallet.send(pubkey, pay_to.as_str(), price.as_str(), "0") {
        Ok(_) => {},
        Err(e) => {
            effects.push(send_error(user_id, "insufficient_funds", e.message()));
            return effects;
        },
    }
    let ghost bal1 = wallet.balances@;
    match wallet.send(pubkey, config.dev_wallet_pubkey.as_str(), fee.as_str(), "0") {
        Ok(_) => {},
        Err(e) => {
            effects.push(send_error(user_id, "insufficient_funds", e.message()));
            return effects;
        },
    }
    let i = match state.find_room(room_id.as_str()) {
        Some(i) => i,
        None => {
            proof {
                assert(false);
            }
            return effects;
        },
    };
    let updated = RoomState {
        room_id: state.rooms[i].room_id.clone(),
        owner_pubkey: Some(pubkey.to_owned()),
        price_xmr: state.rooms[i].price_xmr.clone(),
        for_sale: false,
        access: state.rooms[i].access.clone(),
        display_name: clone_opt_string(&state.rooms[i].display_name),
        door_color: clone_opt_string(&state.rooms[i].door_color),
    };
    let snapshot = updated.clone();
    state.update_room(i, updated);
    proof {
        assert(spec_room(state.rooms@, room_id@).owner_pubkey matches Some(o) && o@ == pubkey@);
        assert(!spec_room(state.rooms@, room_id@).for_sale);
    }
    effects.push(Effect::SaveRooms);
    let tx_id = crate::codec::fresh_id();
    effects.push(
        Effect::Send {
            to: user_id.to_owned(),
            msg: ServerMsg::TxUpdate(
                ServerTxUpdate { tx_id, status: String::from_str("confirmed"), confirmations: 8 },
            ),
        },
    );
    effects.push(room_info_effect(user_id, &snapshot));
    let mut bal = handle_balance(wallet, user_id, pubkey);
    effects.append(&mut bal);
    proof {
        reveal_strlit("confirmed");
        assert(effects@[0] is SaveRooms);
        assert(eff_is_confirmed_tx(effects@[1], user_id@)) by {
            assert(effects@[1] matches Effect::Send { to, msg: ServerMsg::TxUpdate(x) } && to@
                == user_id@ && x.status@ == "confirmed"@ && x.confirmations == 8);
        }
        assert(effects@[2] matches Effect::Send { to, msg: ServerMsg::RoomInfo(p) } && to@
            == user_id@ && p.room_id@ == room_id@);
        assert(eff_is_notice(
            effects@[3],
            user_id@,
            "balance: "@ + crate::money::spec_format_xmr(spec_balance(wallet.balances@, pubkey@))
                + " XMR"@,
        ));
        // the two transfers, read as balance movements from the outset
        let dev = config.dev_wallet_pubkey@;
        let seller = if has_room(rooms0, room_id@) && spec_room(
            rooms0,
            room_id@,
        ).owner_pubkey is Some {
            spec_room(rooms0, room_id@).owner_pubkey->0@
        } else {
            dev
        };
        let amt = spec_amount_or_zero(price@);
        let fee_u = crate::money::spec_fee_units(
            amt,
            config.dev_fee.mode,
            config.dev_fee.value as int,
        );
        if pubkey@ != seller && pubkey@ != dev {
            assert(spec_balance(bal1, pubkey@) == spec_balance(bal0, pubkey@) - amt);
            assert(spec_balance(wallet.balances@, pubkey@) == spec_balance(bal0, pubkey@) - amt
                - fee_u);
            if seller != dev {
                assert(spec_balance(bal1, dev) == spec_balance(bal0, dev));
                assert(spec_balance(wallet.balances@, seller) == spec_balance(bal1, seller));
            }
        }
    }
    effects
}

/// The literal zero amount reads as zero units.
proof fn lemma_zero_amount_literal()
    ensures
        spec_amount_or_zero("0"@) == 0,
{
    reveal_strlit("0");
    assert("0"@ =~= seq!['0']);
    crate::text::lemma_first_idx_none(seq!['0'], '.');
    assert(crate::text::all_dec_digits(seq!['0']));
    lemma_zero_digits_val(seq!['0'] + crate::money::zeroes(8));
}

/// `e` reports a successful transfer still awaiting confirmations.
pub open spec fn eff_is_pending_tx(e: Effect, to: Seq<char>) -> bool {
    e matches Effect::Send { to: t, msg: ServerMsg::TxUpdate(x) } && t@ == to && x.status@
        == "pending"@ && x.confirmations == 0
}

/// Everything `handle_pay` promises of its result and effects.
pub open spec fn pay_post(st: ServerState, wpre: MockWallet, wpost: MockWallet, user_id: Seq<char>, pubkey: Seq<char>, args: Seq<String>, config: RelayConfig, effects: Seq<Effect>) -> bool {
            // when success is owed, and the errors that refuse it
            args.len() >= 2 ==> {
                let token = args[0]@;
                let has_match = exists|j: int|
                    0 <= j < st.users@.len() && user_matches_token(
                        #[trigger] st.users@[j],
                        token,
                    );
                let amt = spec_amount_or_zero(args[1]@);
                let fee = crate::money::spec_fee_units(
                    amt,
                    config.dev_fee.mode,
                    config.dev_fee.value as int,
                );
                let b0 = spec_balance(wpre.balances@, pubkey);
                &&& (!has_match ==> effects.len() == 1 && eff_is_error(
                    effects[0],
                    user_id,
                    "invalid_command"@,
                ) && wpost.balances@ == wpre.balances@)
                &&& (has_match && fee > u64::MAX as int ==> effects.len() == 1 && eff_is_error(
                    effects[0],
                    user_id,
                    "wallet_error"@,
                ) && wpost.balances@ == wpre.balances@)
                &&& (has_match && fee <= u64::MAX as int && b0 < amt ==> effects.len() == 1
                    && eff_is_error(effects[0], user_id, "insufficient_funds"@) && (effects[0]
                    matches Effect::Send { to, msg: ServerMsg::Error(err) } && err.message@
                    == "insufficient funds"@) && wpost.balances@ == wpre.balances@)
                &&& (has_match && fee <= u64::MAX as int && b0 >= amt + fee ==> (exists|e: int|
                    0 <= e < effects.len() && eff_is_pending_tx(#[trigger] effects[e], user_id))
                    && (exists|e: int|
                    0 <= e < effects.len() && eff_is_notice(
                        #[trigger] effects[e],
                        user_id,
                        "balance: "@ + crate::money::spec_format_xmr(
                            spec_balance(wpost.balances@, pubkey),
                        ) + " XMR"@,
                    )))
            }
        }

/// `pay <user> <amount>`: a transfer to a user named by id or display
/// name, plus the dev fee; the reply is a pending transfer update.
/// When the update is sent and the three parties are distinct accounts,
/// the payer is down the amount plus the fee, the payee is up the
/// amount, and the dev wallet is up the fee.
pub fn handle_pay(
    args: &Vec<String>,
    state: &ServerState,
    wallet: &mut MockWallet,
    user_id: &str,
    pubkey: &str,
    config: &RelayConfig,
) -> (effects: Vec<Effect>)
    requires
        state.wf(),
        old(wallet).wf(),
    ensures
        final(wallet).wf(),
        args@.len() < 2 ==> final(wallet).balances@ == old(wallet).balances@ && effects@.len() == 1
            && eff_is_error(effects@[0], user_id@, "invalid_command"@),
        pay_post(*state, *old(wallet), *final(wallet), user_id@, pubkey@, args@, *config, effects@),
        ({
            args@.len() >= 2 ==> {
                let amt = spec_amount_or_zero(args@[1]@);
                let fee = crate::money::spec_fee_units(
                    amt,
                    config.dev_fee.mode,
                    config.dev_fee.value as int,
                );
                let dev = config.dev_wallet_pubkey@;
                (exists|e: int|
                    0 <= e < effects@.len() && eff_is_pending_tx(
                        #[trigger] effects@[e],
                        user_id@,
                    )) ==> (0 <= fee <= u64::MAX as int && (exists|i: int|
                    0 <= i < state.users@.len() && user_matches_token(
                        #[trigger] state.users@[i],
                        args@[0]@,
                    ) && ({
                        let rk = state.users@[i].pubkey@;
                        (pubkey@ != rk && pubkey@ != dev && rk != dev) ==> {
                            &&& spec_balance(final(wallet).balances@, pubkey@) == spec_balance(
                                old(wallet).balances@,
                                pubkey@,
                            ) - amt - fee
                            &&& spec_balance(final(wallet).balances@, rk) == (if spec_balance(
                                old(wallet).balances@,
                                rk,
                            ) + amt <= u64::MAX as int {
                                spec_balance(old(wallet).balances@, rk) + amt
                            } else {
                                u64::MAX as int
                            })
                            &&& spec_balance(final(wallet).balances@, dev) == (if spec_balance(
                                old(wallet).balances@,
                                dev,
                            ) + fee <= u64::MAX as int {
                                spec_balance(old(wallet).balances@, dev) + fee
                            } else {
                                u64::MAX as int
                            })
                        }
                    })))
            }
        }),
{
    let mut effects: Vec<Effect> = Vec::new();
    if args.len() < 2 {
        effects.push(send_error(user_id, "invalid_command", "usage: /pay <user> <amount>"));
        return effects;
    }
    let target = &args[0];
    let amount = &args[1];
    let recipient = match state.find_user_match(target.as_str()) {
        Some(i) => state.users[i].pubkey.clone(),
        None => {
            effects.push(send_error(user_id, "invalid_command", "recipient not found"));
            return effects;
        },
    };
    let fee = match compute_fee(amount.as_str(), &config.dev_fee) {
        Some(f) => f,
        None => {
            effects.push(send_error(user_id, "wallet_error", "fee out of range"));
            return effects;
        },
    };
    proof {
        // the unreadable-fee-string case cannot reach here, and the
        // fee text reads back to the fee it renders
        reveal_strlit("0");
        let amt_s = spec_amount_or_zero(args@[1]@);
        let fee_s = crate::money::spec_fee_units(
            amt_s,
            config.dev_fee.mode,
            config.dev_fee.value as int,
        );
        assert(amt_s * (config.dev_fee.value as int) >= 0) by (nonlinear_arith)
            requires
                amt_s >= 0,
                config.dev_fee.value as int >= 0,
        ;
        match config.dev_fee.mode {
            crate::config::DevFeeMode::Bps => {
                vstd::arithmetic::div_mod::lemma_div_pos_is_pos(
                    amt_s * (config.dev_fee.value as int),
                    10000,
                );
            },
            crate::config::DevFeeMode::Percent => {
                vstd::arithmetic::div_mod::lemma_div_pos_is_pos(
                    amt_s * (config.dev_fee.value as int),
                    100,
                );
            },
        }
        assert(fee_s >= 0);
        crate::money::lemma_format_parse_round_trip(fee_s);
        crate::text::lemma_first_idx_none(seq!['0'], '.');
        assert("0"@ =~= seq!['0']);
        assert(spec_amount_or_zero("0"@) == 0) by {
            assert(crate::text::all_dec_digits(seq!['0']));
            assert(crate::text::digits_val(seq!['0'] + crate::money::zeroes(8)) == 0) by {
                lemma_zero_digits_val(seq!['0'] + crate::money::zeroes(8));
            }
        }
    }
    let tx_id = match wallet.send(pubkey, recipient.as_str(), amount.as_str(), "0") {
        Ok(t) => t,
        Err(e) => {
            effects.push(send_error(user_id, "insufficient_funds", e.message()));
            return effects;
        },
    };
    match wallet.send(pubkey, config.dev_wallet_pubkey.as_str(), fee.as_str(), "0") {
        Ok(_) => {},
        Err(e) => {
            effects.push(send_error(user_id, "insufficient_funds", e.message()));
            return effects;
        },
    }
    effects.push(
        Effect::Send {
            to: user_id.to_owned(),
            msg: ServerMsg::TxUpdate(
                ServerTxUpdate { tx_id, status: String::from_str("pending"), confirmations: 0 },
            ),
        },
    );
    let mut bal = handle_balance(wallet, user_id, pubkey);
    effects.append(&mut bal);
    proof {
        reveal_strlit("pending");
        assert(eff_is_pending_tx(effects@[0], user_id@)) by {
            assert(effects@[0] matches Effect::Send { to, msg: ServerMsg::TxUpdate(x) } && to@
                == user_id@ && x.status@ == "pending"@ && x.confirmations == 0);
        }
        assert(eff_is_notice(
            effects@[1],
            user_id@,
            "balance: "@ + crate::money::spec_format_xmr(
                spec_balance(wallet.balances@, pubkey@),
            ) + " XMR"@,
        ));
    }
    effects
}

/// A string of zero digits names the amount zero.
proof fn lemma_zero_digits_val(s: Seq<char>)
    requires
        forall|j: int| 0 <= j < s.len() ==> #[trigger] s[j] == '0',
    ensures
        crate::text::digits_val(s) == 0,
    decreases s.len(),
{
    if s.len() > 0 {
        lemma_zero_digits_val(s.drop_last());
        assert(forall|j: int| 0 <= j < s.len() - 1 ==> #[trigger] s.drop_last()[j] == s[j]);
    }
}

/// Everything `handle_claim_name` promises of its result and effects.
pub open spec fn claim_name_post(pre: ServerState, post: ServerState, wpre: MockWallet, wpost: MockWallet, user_id: Seq<char>, pubkey: Seq<char>, args: Seq<String>, config: RelayConfig, effects: Seq<Effect>) -> bool {
            let taken = exists|j: int|
                0 <= j < pre.users@.len() && ((#[trigger] pre.users@[j].display_name) matches Some(n2) && args.len() > 0 && n2@ == args[0]@);
            let uf = spec_amount_or_zero(config.username_fee_xmr@);
            let fee = crate::money::spec_fee_units(uf, config.dev_fee.mode, config.dev_fee.value as int);
            let dev = config.dev_wallet_pubkey@;
            let b0 = spec_balance(wpre.balances@, pubkey);
            let b1 = if pubkey == dev {
                b0
            } else {
                b0 - uf
            };
            if args.len() == 0 {
                effects.len() == 1 && eff_is_error(effects[0], user_id, "invalid_command"@)
                    && post.users@ == pre.users@ && wpost.balances@ == wpre.balances@
            } else if taken {
                // a taken name draws the error and changes nothing
                effects.len() == 1 && eff_is_error(effects[0], user_id, "invalid_command"@)
                    && post.users@ == pre.users@ && wpost.balances@ == wpre.balances@
            } else if fee > u64::MAX as int {
                effects.len() == 1 && eff_is_error(effects[0], user_id, "wallet_error"@)
                    && post.users@ == pre.users@ && wpost.balances@ == wpre.balances@
            } else if b0 < uf {
                effects.len() == 1 && eff_is_error(effects[0], user_id, "insufficient_funds"@)
                    && (effects[0] matches Effect::Send { to, msg: ServerMsg::Error(err) }
                    && err.message@ == "insufficient funds"@) && post.users@ == pre.users@
                    && wpost.balances@ == wpre.balances@
            } else if b1 < fee {
                // the name fee went through but the dev fee cannot
                effects.len() == 1 && eff_is_error(effects[0], user_id, "insufficient_funds"@)
                    && (effects[0] matches Effect::Send { to, msg: ServerMsg::Error(err) }
                    && err.message@ == "insufficient funds"@) && post.users@ == pre.users@
            } else {
                // the claim succeeds: name set, users persisted, notice
                &&& has_user(post.users@, user_id)
                &&& (spec_user(post.users@, user_id).display_name matches Some(nm) && nm@
                    == args[0]@)
                &&& (exists|e: int| 0 <= e < effects.len() && effects[e] is SaveUsers)
                &&& (exists|e: int|
                    0 <= e < effects.len() && eff_is_notice(
                        #[trigger] effects[e],
                        user_id,
                        "name updated"@,
                    ))
                &&& spec_balance(wpost.balances@, pubkey) == (if pubkey == dev {
                    b0
                } else {
                    b0 - uf - fee
                })
            }
        }

/// `claim_name <name>`: buy a unique display name. A name any user
/// already carries is rejected, so names stay unique.
#[verifier::rlimit(100)]
#[verifier::spinoff_prover]
pub fn handle_claim_name(
    args: &Vec<String>,
    state: &mut ServerState,
    wallet: &mut MockWallet,
    user_id: &str,
    pubkey: &str,
    config: &RelayConfig,
) -> (effects: Vec<Effect>)
    requires
        old(state).wf(),
        old(wallet).wf(),
        is_connected(old(state).clients@, user_id@),
    ensures
        final(state).wf(),
        final(wallet).wf(),
        final(state).rooms@ == old(state).rooms@,
        final(state).clients@ == old(state).clients@,
        final(state).presence@ == old(state).presence@,
        final(state).boarding@ == old(state).boarding@,
        final(state).riders@ == old(state).riders@,
        claim_name_post(*old(state), *final(state), *old(wallet), *final(wallet), user_id@, pubkey@, args@, *config, effects@),
{
    let mut effects: Vec<Effect> = Vec::new();
    if args.len() == 0 {
        effects.push(send_error(user_id, "invalid_command", "usage: /claim_name <name>"));
        return effects;
    }
    let name = &args[0];
    // reject a name any user carries
    let mut taken = false;
    let mut j: usize = 0;
    let m = state.users.len();
    while j < m
        invariant
            j <= m,
            m == state.users@.len(),
            name@ == args@[0]@,
            args@.len() > 0,
            !taken ==> forall|k: int|
                0 <= k < j ==> !(#[trigger] state.users@[k].display_name matches Some(nm) && nm@
                    == name@),
            taken ==> exists|k: int|
                0 <= k < m && ((#[trigger] state.users@[k].display_name) matches Some(nm) && nm@
                    == name@),
        decreases m - j,
    {
        let hit = match &state.users[j].display_name {
            Some(nm) => str_eq(nm.as_str(), name.as_str()),
            None => false,
        };
        if hit {
            taken = true;
            proof {
                assert(state.users@[j as int].display_name matches Some(nm) && nm@ == name@);
            }
        }
        j = j + 1;
    }
    if taken {
        effects.push(send_error(user_id, "invalid_command", "name already taken"));
        return effects;
    }
    let i = match state.find_user(user_id) {
        Some(i) => i,
        None => {
            proof {
                let c = choose|c: int|
                    0 <= c < state.clients@.len() && #[trigger] state.clients@[c].user_id@
                        == user_id@;
                assert(false);
            }
            return effects;
        },
    };
    let fee = match compute_fee(config.username_fee_xmr.as_str(), &config.dev_fee) {
        Some(f) => f,
        None => {
            effects.push(send_error(user_id, "wallet_error", "fee out of range"));
            return effects;
        },
    };
    proof {
        lemma_zero_amount_literal();
        crate::money::lemma_format_parse_round_trip(
            crate::money::spec_fee_units(
                spec_amount_or_zero(config.username_fee_xmr@),
                config.dev_fee.mode,
                config.dev_fee.value as int,
            ),
        );
    }
    match wallet.send(
        pubkey,
        config.dev_wallet_pubkey.as_str(),
        config.username_fee_xmr.as_str(),
        "0",
    ) {
        Ok(_) => {},
        Err(e) => {
            effects.push(send_error(user_id, "insufficient_funds", e.message()));
            return effects;
        },
    }
    match wallet.send(pubkey, config.dev_wallet_pubkey.as_str(), fee.as_str(), "0") {
        Ok(_) => {},
        Err(e) => {
            effects.push(send_error(user_id, "insufficient_funds", e.message()));
            return effects;
        },
    }
    let old_user = &state.users[i];
    let updated = crate::state::UserState {
        user_id: old_user.user_id.clone(),
        pubkey: old_user.pubkey.clone(),
        display_name: Some(name.clone()),
        position: old_user.position.clone(),
        x25519_pubkey: clone_opt_string(&old_user.x25519_pubkey),
    };
    proof {
        assert forall|j2: int|
            0 <= j2 < state.users@.len() && j2 != i as int
                && #[trigger] state.users@[j2].display_name is Some implies state.users@[j2].display_name->0@
            != name@ by {
            assert(!(state.users@[j2].display_name matches Some(nm) && nm@ == name@));
        }
    }
    proof {
        assert(i32::MIN < updated.position.x < i32::MAX);
        assert(i32::MIN < updated.position.y < i32::MAX);
        assert(updated.user_id@ == state.users@[i as int].user_id@);
        assert(updated.pubkey@ == state.users@[i as int].pubkey@);
        assert(updated.position.map_id@ == state.users@[i as int].position.map_id@);
    }
    state.update_user_same_map(i, updated);
    proof {
        assert(spec_user(state.users@, user_id@).display_name matches Some(nm) && nm@
            == args@[0]@);
    }
    effects.push(Effect::SaveUsers);
    effects.push(send_notice(user_id, "name updated"));
    let mut bal = handle_balance(wallet, user_id, pubkey);
    effects.append(&mut bal);
    proof {
        assert(effects@[0] is SaveUsers);
        assert(eff_is_notice(effects@[1], user_id@, "name updated"@));
    }
    effects
}

/// Update one room's record if the caller owns it and stands by the
/// customizer; shared by the room settings commands.
fn owned_room_update(
    state: &mut ServerState,
    user_id: &str,
    pubkey: &str,
    config: &RelayConfig,
) -> (r: Option<(usize, String)>)
    requires
        old(state).wf(),
        is_connected(old(state).clients@, user_id@),
    ensures
        final(state).wf(),
        final(state).users@ == old(state).users@,
        final(state).clients@ == old(state).clients@,
        final(state).presence@ == old(state).presence@,
        final(state).boarding@ == old(state).boarding@,
        final(state).riders@ == old(state).riders@,
        final(state).last_move_ms@ == old(state).last_move_ms@,
        final(state).next_user_id == old(state).next_user_id,
        ({
            // the update is allowed exactly for the adjacent owner of
            // an existing room
            let ok_cond = owner_gate_open(*old(state), user_id@, pubkey@);
            &&& ((r is Some) <==> ok_cond)
            &&& (r matches Some(p) ==> final(state).rooms@ == old(state).rooms@ && p.0
                < final(state).rooms@.len() && (final(state).rooms@[p.0 as int].owner_pubkey
                matches Some(o) && o@
                == pubkey@) && (exists|side: crate::doors::RoomSide, sx: int|
                #![auto]
                crate::doors::room_map_id_ok(
                    spec_user(old(state).users@, user_id@).position.map_id@,
                    side,
                    sx,
                ) && final(state).rooms@[p.0 as int].room_id@ == crate::doors::spec_room_id(
                    side,
                    sx,
                )))
        }),
{
    let user = match state.get_user(user_id) {
        Some(u) => u,
        None => {
            proof {
                let c = choose|c: int|
                    0 <= c < state.clients@.len() && #[trigger] state.clients@[c].user_id@
                        == user_id@;
                assert(false);
            }
            return None;
        },
    };
    if !is_adjacent_to_customizer(&user) {
        return None;
    }
    let room_id = match crate::doors::parse_room_map_id(user.position.map_id.as_str()) {
        Some((side, street_x)) => {
            proof {
                let (cside, csx) = choose|cside: crate::doors::RoomSide, csx: int|
                    crate::doors::room_map_id_ok(user.position.map_id@, cside, csx);
                crate::physics::lemma_room_map_id_unique(
                    user.position.map_id@,
                    side,
                    street_x as int,
                    cside,
                    csx,
                );
            }
            crate::doors::room_id_for_door(side, street_x)
        },
        None => {
            return None;
        },
    };
    let ghost rooms0 = state.rooms@;
    let _ = state.get_or_create_room(room_id.as_str(), config.room_price_xmr.as_str());
    proof {
        let rid = room_id@;
        if !has_room(rooms0, rid) {
            let n0 = rooms0.len() as int;
            assert(forall|a: int|
                0 <= a < n0 ==> #[trigger] state.rooms@[a] == state.rooms@.subrange(0, n0)[a]);
            assert(spec_room(state.rooms@, rid) == state.rooms@.last()) by {
                let a = choose|a: int|
                    0 <= a < state.rooms@.len() && #[trigger] state.rooms@[a].room_id@ == rid;
                if a < n0 {
                    assert(rooms0[a].room_id@ == rid);
                }
                crate::state::lemma_room_at(state.rooms@, rid, a);
            }
        }
    }
    let i = match state.find_room(room_id.as_str()) {
        Some(i) => i,
        None => {
            proof {
                assert(false);
            }
            return None;
        },
    };
    proof {
        crate::state::lemma_room_at(state.rooms@, room_id@, i as int);
    }
    let owner_hit = match &state.rooms[i].owner_pubkey {
        Some(o) => str_eq(o.as_str(), pubkey),
        None => false,
    };
    if !owner_hit {
        return None;
    }
    proof {
        assert(has_room(rooms0, room_id@)) by {
            if !has_room(rooms0, room_id@) {
                assert(state.rooms@.last().owner_pubkey is None);
            }
        }
        assert(state.rooms@ == rooms0);
    }
    Some((i, room_id))
}

/// The conditions under which a room-settings command goes through:
/// the caller stands in a room, beside the customizer, and its stored
/// record names the caller as owner.
pub open spec fn owner_gate_open(st: ServerState, user_id: Seq<char>, pubkey: Seq<char>) -> bool {
    let u = spec_user(st.users@, user_id);
    &&& (exists|side: crate::doors::RoomSide, sx: int|
        crate::doors::room_map_id_ok(#[trigger] u.position.map_id@, side, sx))
    &&& spec_adjacent_to_customizer(u)
    &&& ({
        let (side, sx) = choose|side: crate::doors::RoomSide, sx: int|
            crate::doors::room_map_id_ok(u.position.map_id@, side, sx);
        let rid = crate::doors::spec_room_id(side, sx);
        has_room(st.rooms@, rid) && (spec_room(st.rooms@, rid).owner_pubkey matches Some(o) && o@
            == pubkey)
    })
}

/// Everything `handle_room_name` promises of its result and effects.
pub open spec fn room_name_post(pre: ServerState, post: ServerState, user_id: Seq<char>, pubkey: Seq<char>, args: Seq<String>, effects: Seq<Effect>) -> bool {
            let gate = owner_gate_open(pre, user_id, pubkey);
            let u = spec_user(pre.users@, user_id);
            &&& (args.len() == 0 ==> effects.len() == 1 && eff_is_error(
                effects[0],
                user_id,
                "invalid_command"@,
            ) && post.rooms@ == pre.rooms@)
            &&& (args.len() > 0 && !gate ==> effects.len() == 1 && eff_is_error(
                effects[0],
                user_id,
                "room_access_denied"@,
            ))
            &&& (args.len() > 0 && gate ==> (exists|side: crate::doors::RoomSide, sx: int|
                #![auto]
                crate::doors::room_map_id_ok(u.position.map_id@, side, sx) && has_room(
                    post.rooms@,
                    crate::doors::spec_room_id(side, sx),
                ) && (spec_room(
                    post.rooms@,
                    crate::doors::spec_room_id(side, sx),
                ).display_name matches Some(nm) && nm@ == args[0]@)) && (exists|e: int|
                0 <= e < effects.len() && (#[trigger] effects[e]) is SaveRooms))
        }

/// `room_name <name>`: the owner renames the room from beside the
/// customizer.
pub fn handle_room_name(
    args: &Vec<String>,
    state: &mut ServerState,
    user_id: &str,
    pubkey: &str,
    config: &RelayConfig,
) -> (effects: Vec<Effect>)
    requires
        old(state).wf(),
        is_connected(old(state).clients@, user_id@),
    ensures
        final(state).wf(),
        final(state).users@ == old(state).users@,
        final(state).clients@ == old(state).clients@,
        final(state).presence@ == old(state).presence@,
        forall|e: int|
            0 <= e < effects@.len() ==> crate::broadcast::room_info_truthful(
                #[trigger] effects@[e],
                final(state).rooms@,
            ),
        room_name_post(*old(state), *final(state), user_id@, pubkey@, args@, effects@),
{
    let mut effects: Vec<Effect> = Vec::new();
    if args.len() == 0 {
        effects.push(send_error(user_id, "invalid_command", "usage: /room_name <name>"));
        return effects;
    }
    let name = args[0].clone();
    let target = match owned_room_update(state, user_id, pubkey, config) {
        Some(t) => t,
        None => {
            effects.push(send_error(user_id, "room_access_denied", "not room owner"));
            return effects;
        },
    };
    let (i, _room_id) = target;
    let updated = RoomState {
        room_id: state.rooms[i].room_id.clone(),
        owner_pubkey: clone_opt_string(&state.rooms[i].owner_pubkey),
        price_xmr: state.rooms[i].price_xmr.clone(),
        for_sale: state.rooms[i].for_sale,
        access: state.rooms[i].access.clone(),
        display_name: Some(name),
        door_color: clone_opt_string(&state.rooms[i].door_color),
    };
    let snapshot = updated.clone();
    state.update_room(i, updated);
    effects.push(Effect::SaveRooms);
    effects.push(room_info_effect(user_id, &snapshot));
    proof {
        assert(effects@[0] is SaveRooms);
        assert(spec_room(state.rooms@, snapshot.room_id@).display_name matches Some(nm) && nm@
            == args@[0]@);
    }
    effects
}

/// Everything `handle_door_color` promises of its result and effects.
pub open spec fn door_color_post(pre: ServerState, post: ServerState, user_id: Seq<char>, pubkey: Seq<char>, args: Seq<String>, effects: Seq<Effect>) -> bool {
            let gate = owner_gate_open(pre, user_id, pubkey);
            let u = spec_user(pre.users@, user_id);
            let folded = if args.len() > 0 {
                spec_door_color_of(args[0]@)
            } else {
                None
            };
            &&& (args.len() == 0 ==> effects.len() == 1 && eff_is_error(
                effects[0],
                user_id,
                "invalid_command"@,
            ) && post.rooms@ == pre.rooms@)
            &&& (args.len() > 0 && folded is None ==> effects.len() == 1 && eff_is_error(
                effects[0],
                user_id,
                "invalid_command"@,
            ) && post.rooms@ == pre.rooms@)
            &&& (folded is Some && !gate ==> effects.len() == 1 && eff_is_error(
                effects[0],
                user_id,
                "room_access_denied"@,
            ))
            &&& (folded is Some && gate ==> (exists|side: crate::doors::RoomSide, sx: int|
                #![auto]
                crate::doors::room_map_id_ok(u.position.map_id@, side, sx) && has_room(
                    post.rooms@,
                    crate::doors::spec_room_id(side, sx),
                ) && (spec_room(
                    post.rooms@,
                    crate::doors::spec_room_id(side, sx),
                ).door_color matches Some(cl) && cl@ == folded->0)) && (exists|e: int|
                0 <= e < effects.len() && (#[trigger] effects[e]) is SaveRooms) && (exists|
                e: int,
            |
                0 <= e < effects.len() && ((#[trigger] effects[e]) matches Effect::Send {
                    to,
                    msg: ServerMsg::RoomInfo(p),
                } && to@ == user_id)))
        }

/// `door_color <color>`: the owner paints the door from beside the
/// customizer; only the fixed palette is accepted.
pub fn handle_door_color(
    args: &Vec<String>,
    state: &mut ServerState,
    user_id: &str,
    pubkey: &str,
    config: &RelayConfig,
) -> (effects: Vec<Effect>)
    requires
        old(state).wf(),
        is_connected(old(state).clients@, user_id@),
    ensures
        final(state).wf(),
        final(state).users@ == old(state).users@,
        final(state).clients@ == old(state).clients@,
        final(state).presence@ == old(state).presence@,
        forall|e: int|
            0 <= e < effects@.len() ==> crate::broadcast::room_info_truthful(
                #[trigger] effects@[e],
                final(state).rooms@,
            ),
        door_color_post(*old(state), *final(state), user_id@, pubkey@, args@, effects@),
{
    let mut effects: Vec<Effect> = Vec::new();
    if args.len() == 0 {
        effects.push(send_error(user_id, "invalid_command", "usage: /door_color <color>"));
        return effects;
    }
    // the palette test ignores ASCII case; the stored word is lowercase
    let canonical: Option<&str> = if crate::text::str_eq_ignore_ascii_case(
        args[0].as_str(),
        "red",
    ) {
        Some("red")
    } else if crate::text::str_eq_ignore_ascii_case(args[0].as_str(), "green") {
        Some("green")
    } else if crate::text::str_eq_ignore_ascii_case(args[0].as_str(), "yellow") {
        Some("yellow")
    } else if crate::text::str_eq_ignore_ascii_case(args[0].as_str(), "blue") {
        Some("blue")
    } else if crate::text::str_eq_ignore_ascii_case(args[0].as_str(), "magenta") {
        Some("magenta")
    } else if crate::text::str_eq_ignore_ascii_case(args[0].as_str(), "cyan") {
        Some("cyan")
    } else if crate::text::str_eq_ignore_ascii_case(args[0].as_str(), "white") {
        Some("white")
    } else {
        None
    };
    let color = match canonical {
        Some(c) => c,
        None => {
            effects.push(send_error(user_id, "invalid_command", "invalid color"));
            return effects;
        },
    };
    let target = match owned_room_update(state, user_id, pubkey, config) {
        Some(t) => t,
        None => {
            effects.push(send_error(user_id, "room_access_denied", "not room owner"));
            return effects;
        },
    };
    let (i, _room_id) = target;
    let updated = RoomState {
        room_id: state.rooms[i].room_id.clone(),
        owner_pubkey: clone_opt_string(&state.rooms[i].owner_pubkey),
        price_xmr: state.rooms[i].price_xmr.clone(),
        for_sale: state.rooms[i].for_sale,
        access: state.rooms[i].access.clone(),
        display_name: clone_opt_string(&state.rooms[i].display_name),
        door_color: Some(color.to_owned()),
    };
    let snapshot = updated.clone();
    state.update_room(i, updated);
    effects.push(Effect::SaveRooms);
    effects.push(room_info_effect(user_id, &snapshot));
    proof {
        assert(effects@[0] is SaveRooms);
        assert(effects@[1] matches Effect::Send { to, msg: ServerMsg::RoomInfo(p) } && to@
            == user_id@);
        assert(spec_room(state.rooms@, snapshot.room_id@).door_color matches Some(cl) && cl@
            == spec_door_color_of(args@[0]@)->0);
    }
    effects
}

/// The lowercase palette word an argument names, compared without
/// ASCII case; `None` for anything off the palette.
pub open spec fn spec_door_color_of(s: Seq<char>) -> Option<Seq<char>> {
    if crate::text::ascii_eq_ci(s, "red"@) {
        Some("red"@)
    } else if crate::text::ascii_eq_ci(s, "green"@) {
        Some("green"@)
    } else if crate::text::ascii_eq_ci(s, "yellow"@) {
        Some("yellow"@)
    } else if crate::text::ascii_eq_ci(s, "blue"@) {
        Some("blue"@)
    } else if crate::text::ascii_eq_ci(s, "magenta"@) {
        Some("magenta"@)
    } else if crate::text::ascii_eq_ci(s, "cyan"@) {
        Some("cyan"@)
    } else if crate::text::ascii_eq_ci(s, "white"@) {
        Some("white"@)
    } else {
        None
    }
}

/// Everything `handle_access_command` promises of its result and effects.
pub open spec fn access_post(pre: ServerState, post: ServerState, user_id: Seq<char>, pubkey: Seq<char>, args: Seq<String>, effects: Seq<Effect>) -> bool {
            let u = spec_user(pre.users@, user_id);
            let in_room = exists|side: crate::doors::RoomSide, sx: int|
                crate::doors::room_map_id_ok(#[trigger] u.position.map_id@, side, sx);
            let show = args.len() == 0 || args[0]@ == "show"@ || args[0]@ == "list"@;
            let mode_ok = args.len() > 0 && (args[0]@ == "open"@ || args[0]@ == "whitelist"@
                || args[0]@ == "blacklist"@);
            let all_resolvable = forall|i: int|
                1 <= i < args.len() ==> token_resolvable(pre, #[trigger] args[i]@);
            let gate = owner_gate_open(pre, user_id, pubkey);
            &&& (!in_room ==> effects.len() == 1 && eff_is_error(
                effects[0],
                user_id,
                "invalid_command"@,
            ) && post.rooms@ == pre.rooms@)
            &&& (in_room && show ==> effects.len() == 1 && eff_is_some_notice(
                effects[0],
                user_id,
            ))
            &&& (in_room && !show && !mode_ok ==> effects.len() == 1 && eff_is_error(
                effects[0],
                user_id,
                "invalid_command"@,
            ) && post.rooms@ == pre.rooms@)
            &&& (in_room && !show && mode_ok && !all_resolvable ==> effects.len() == 1
                && eff_is_error(effects[0], user_id, "invalid_command"@) && post.rooms@
                == pre.rooms@)
            &&& (in_room && !show && mode_ok && all_resolvable && !gate ==> effects.len() == 1
                && eff_is_error(effects[0], user_id, "room_access_denied"@))
            &&& (in_room && !show && mode_ok && all_resolvable && gate ==> ((exists|
                side: crate::doors::RoomSide,
                sx: int,
            |
                #![auto]
                crate::doors::room_map_id_ok(u.position.map_id@, side, sx) && has_room(
                    post.rooms@,
                    crate::doors::spec_room_id(side, sx),
                ) && ({
                    let r2 = spec_room(post.rooms@, crate::doors::spec_room_id(side, sx));
                    &&& r2.access.mode == (if args[0]@ == "open"@ {
                        AccessMode::Open
                    } else if args[0]@ == "whitelist"@ {
                        AccessMode::Whitelist
                    } else {
                        AccessMode::Blacklist
                    })
                    &&& r2.access.list@.len() == args.len() - 1
                    &&& forall|k: int|
                        0 <= k < r2.access.list@.len() ==> token_resolves_to(
                            pre,
                            args[1 + k]@,
                            #[trigger] r2.access.list@[k]@,
                        )
                }) && (exists|e: int|
                0 <= e < effects.len() && ((#[trigger] effects[e]) matches Effect::Send {
                    to,
                    msg: ServerMsg::RoomInfo(p),
                } && to@ == user_id && p.room_id@ == crate::doors::spec_room_id(side, sx)))) && (
            exists|e: int|
                0 <= e < effects.len() && (#[trigger] effects[e]) is SaveRooms)))
        }

/// `access [show|open|whitelist|blacklist] [who ...]`: read or set the
/// room's access policy; list entries resolve to signing keys.
pub fn handle_access_command(
    args: &Vec<String>,
    state: &mut ServerState,
    user_id: &str,
    pubkey: &str,
    config: &RelayConfig,
) -> (effects: Vec<Effect>)
    requires
        old(state).wf(),
        is_connected(old(state).clients@, user_id@),
    ensures
        final(state).wf(),
        final(state).users@ == old(state).users@,
        final(state).clients@ == old(state).clients@,
        final(state).presence@ == old(state).presence@,
        forall|e: int|
            0 <= e < effects@.len() ==> crate::broadcast::room_info_truthful(
                #[trigger] effects@[e],
                final(state).rooms@,
            ),
        access_post(*old(state), *final(state), user_id@, pubkey@, args@, effects@),
{
    let mut effects: Vec<Effect> = Vec::new();
    let user = match state.get_user(user_id) {
        Some(u) => u,
        None => {
            proof {
                let c = choose|c: int|
                    0 <= c < state.clients@.len() && #[trigger] state.clients@[c].user_id@
                        == user_id@;
                assert(false);
            }
            return effects;
        },
    };
    let room_id = match crate::doors::parse_room_map_id(user.position.map_id.as_str()) {
        Some((side, street_x)) => crate::doors::room_id_for_door(side, street_x),
        None => {
            effects.push(send_error(user_id, "invalid_command", "not in a room"));
            return effects;
        },
    };
    let show = args.len() == 0 || str_eq(args[0].as_str(), "show") || str_eq(
        args[0].as_str(),
        "list",
    );
    if show {
        let room = state.get_or_create_room(room_id.as_str(), config.room_price_xmr.as_str());
        let mut text = String::from_str("access: ");
        text.append(access_mode_label(room.access.mode));
        text.append("\nlist: ");
        if room.access.list.len() == 0 {
            text.append("(empty)");
        } else {
            let mut k: usize = 0;
            while k < room.access.list.len()
                decreases room.access.list@.len() - k,
            {
                if k > 0 {
                    text.append(", ");
                }
                text.append(room.access.list[k].as_str());
                k = k + 1;
            }
        }
        effects.push(send_notice(user_id, text.as_str()));
        return effects;
    }
    let mode = if str_eq(args[0].as_str(), "open") {
        AccessMode::Open
    } else if str_eq(args[0].as_str(), "whitelist") {
        AccessMode::Whitelist
    } else if str_eq(args[0].as_str(), "blacklist") {
        AccessMode::Blacklist
    } else {
        effects.push(send_error(user_id, "invalid_command", "invalid access mode"));
        return effects;
    };
    let list = match resolve_pubkeys(state, args, 1) {
        Ok(list) => list,
        Err(msg) => {
            effects.push(send_error(user_id, "invalid_command", msg.as_str()));
            return effects;
        },
    };
    let target = match owned_room_update(state, user_id, pubkey, config) {
        Some(t) => t,
        None => {
            effects.push(send_error(user_id, "room_access_denied", "not room owner"));
            return effects;
        },
    };
    let (i, _rid) = target;
    let ghost resolved = list@;
    let updated = RoomState {
        room_id: state.rooms[i].room_id.clone(),
        owner_pubkey: clone_opt_string(&state.rooms[i].owner_pubkey),
        price_xmr: state.rooms[i].price_xmr.clone(),
        for_sale: state.rooms[i].for_sale,
        access: AccessPolicy { mode, list },
        display_name: clone_opt_string(&state.rooms[i].display_name),
        door_color: clone_opt_string(&state.rooms[i].door_color),
    };
    let snapshot = updated.clone();
    state.update_room(i, updated);
    effects.push(Effect::SaveRooms);
    effects.push(room_info_effect(user_id, &snapshot));
    proof {
        assert(effects@[0] is SaveRooms);
        assert(effects@[1] matches Effect::Send { to, msg: ServerMsg::RoomInfo(p) } && to@
            == user_id@ && p.room_id@ == snapshot.room_id@);
        let r2 = spec_room(state.rooms@, snapshot.room_id@);
        assert(r2.access.mode == mode);
        assert(r2.access.list@ == resolved);
    }
    effects
}

/// Everything `handle_room_info` promises of its result and effects.
pub open spec fn room_info_post(pre: ServerState, post: ServerState, user_id: Seq<char>, args: Seq<String>, effects: Seq<Effect>) -> bool {
            let valid = args.len() > 0 && (exists|side: crate::doors::RoomSide, sx: int|
                crate::doors::room_id_ok(#[trigger] args[0]@, side, sx));
            if valid {
                has_room(post.rooms@, args[0]@) && effects.len() == 1 && (effects[0]
                    matches Effect::Send { to, msg: ServerMsg::RoomInfo(p) } && to@ == user_id
                    && p.room_id@ == args[0]@)
            } else {
                effects.len() == 1 && eff_is_error(effects[0], user_id, "invalid_command"@)
                    && post.rooms@ == pre.rooms@
            }
        }

/// `room_info <room_id>`: materialize the room if need be and describe it.
pub fn handle_room_info(
    args: &Vec<String>,
    state: &mut ServerState,
    user_id: &str,
    config: &RelayConfig,
) -> (effects: Vec<Effect>)
    requires
        old(state).wf(),
    ensures
        final(state).wf(),
        final(state).users@ == old(state).users@,
        final(state).clients@ == old(state).clients@,
        final(state).presence@ == old(state).presence@,
        forall|e: int|
            0 <= e < effects@.len() ==> crate::broadcast::room_info_truthful(
                #[trigger] effects@[e],
                final(state).rooms@,
            ),
        room_info_post(*old(state), *final(state), user_id@, args@, effects@),
{
    let mut effects: Vec<Effect> = Vec::new();
    if args.len() == 0 {
        effects.push(send_error(user_id, "invalid_command", "usage: room_info <room_id>"));
        return effects;
    }
    let room_id = &args[0];
    if crate::doors::parse_room_id(room_id.as_str()).is_none() {
        effects.push(send_error(user_id, "invalid_command", "invalid room_id"));
        return effects;
    }
    let room = state.get_or_create_room(room_id.as_str(), config.room_price_xmr.as_str());
    effects.push(room_info_effect(user_id, &room));
    effects
}

/// `help`: the command summary, one fixed notice.
/// The command list the `help` notice carries.
pub open spec fn help_text() -> Seq<char> {
    "commands:\n/say <msg> - local chat\n/who - list nearby users\n/whisper <user> <msg> - 5x5 local whisper\n/buy - buy current room\n/pay <user> <amount> - send XMR (mock)\n/balance - show balance (mock)\n/faucet [amount] - dev credit (mock)\n/board <north|east|south|west> - board train from station\n/depart <north|east|south|west> - set train destination\n/room_name <name> - set room name\n/door_color <color> - set door color\n/claim_name <name> - purchase unique name\n/access <open|whitelist|blacklist> [user|pubkey...] - set room access\n/access show - show current access list\n/exit - client quit\n/help - show this help"@
}

pub fn handle_help(user_id: &str) -> (effects: Vec<Effect>)
    ensures
        effects@.len() == 1,
        eff_is_notice(effects@[0], user_id@, help_text()),
{
    let text =
        "commands:\n/say <msg> - local chat\n/who - list nearby users\n/whisper <user> <msg> - 5x5 local whisper\n/buy - buy current room\n/pay <user> <amount> - send XMR (mock)\n/balance - show balance (mock)\n/faucet [amount] - dev credit (mock)\n/board <north|east|south|west> - board train from station\n/depart <north|east|south|west> - set train destination\n/room_name <name> - set room name\n/door_color <color> - set door color\n/claim_name <name> - purchase unique name\n/access <open|whitelist|blacklist> [user|pubkey...] - set room access\n/access show - show current access list\n/exit - client quit\n/help - show this help";
    let mut effects: Vec<Effect> = Vec::new();
    effects.push(send_notice(user_id, text));
    effects
}

/// Dispatch one authenticated `client.command` by name.
/// What each named command owes, wired to its handler's promise, and
/// the unknown-command error for every other name.
pub open spec fn command_post(
    pre: ServerState,
    post: ServerState,
    wpre: MockWallet,
    wpost: MockWallet,
    user_id: Seq<char>,
    pubkey: Seq<char>,
    name: Seq<char>,
    args: Seq<String>,
    config: RelayConfig,
    effects: Seq<Effect>,
) -> bool {
    let known = name == "who"@ || name == "buy"@ || name == "pay"@ || name == "claim_name"@
        || name == "access"@ || name == "help"@ || name == "balance"@ || name == "room_info"@
        || name == "faucet"@ || name == "board"@ || name == "depart"@ || name == "room_name"@
        || name == "door_color"@;
    &&& (!known ==> (post == pre && wpost == wpre && effects.len() == 1 && eff_is_error(
        effects[0],
        user_id,
        "invalid_command"@,
    )))
    &&& (name == "who"@ ==> who_post(pre, user_id, effects) && post == pre && wpost == wpre)
    &&& (name == "buy"@ ==> buy_post(pre, post, wpre, wpost, user_id, pubkey, config, effects))
    &&& (name == "pay"@ ==> pay_post(pre, wpre, wpost, user_id, pubkey, args, config, effects)
        && post == pre)
    &&& (name == "claim_name"@ ==> claim_name_post(
        pre,
        post,
        wpre,
        wpost,
        user_id,
        pubkey,
        args,
        config,
        effects,
    ))
    &&& (name == "access"@ ==> access_post(pre, post, user_id, pubkey, args, effects) && wpost
        == wpre)
    &&& (name == "help"@ ==> post == pre && wpost == wpre && effects.len() == 1 && eff_is_notice(
        effects[0],
        user_id,
        help_text(),
    ))
    &&& (name == "balance"@ ==> post == pre && wpost == wpre && effects.len() == 1
        && eff_is_notice(
        effects[0],
        user_id,
        "balance: "@ + crate::money::spec_format_xmr(spec_balance(wpre.balances@, pubkey))
            + " XMR"@,
    ))
    &&& (name == "room_info"@ ==> room_info_post(pre, post, user_id, args, effects) && wpost
        == wpre)
    &&& (name == "faucet"@ ==> faucet_post(wpre, wpost, user_id, pubkey, args, effects) && post
        == pre)
    &&& (name == "board"@ ==> board_post(pre, post, user_id, args, effects) && wpost == wpre)
    &&& (name == "depart"@ ==> depart_post(pre, post, user_id, args, effects) && wpost == wpre)
    &&& (name == "room_name"@ ==> room_name_post(pre, post, user_id, pubkey, args, effects)
        && wpost == wpre)
    &&& (name == "door_color"@ ==> door_color_post(pre, post, user_id, pubkey, args, effects)
        && wpost == wpre)
}

#[verifier::rlimit(100)]
#[verifier::spinoff_prover]
pub fn handle_command(
    name: &str,
    args: &Vec<String>,
    state: &mut ServerState,
    wallet: &mut MockWallet,
    user_id: &str,
    pubkey: &str,
    now: i64,
    config: &RelayConfig,
) -> (effects: Vec<Effect>)
    requires
        old(state).wf(),
        old(wallet).wf(),
        is_connected(old(state).clients@, user_id@),
    ensures
        final(state).wf(),
        final(wallet).wf(),
        final(state).clients@ == old(state).clients@,
        command_post(
            *old(state),
            *final(state),
            *old(wallet),
            *final(wallet),
            user_id@,
            pubkey@,
            name@,
            args@,
            *config,
            effects@,
        ),
{
    let _ = now;
    let effects = if str_eq(name, "who") {
        handle_who(state, user_id)
    } else if str_eq(name, "buy") {
        handle_buy(state, wallet, user_id, pubkey, config)
    } else if str_eq(name, "pay") {
        handle_pay(args, state, wallet, user_id, pubkey, config)
    } else if str_eq(name, "claim_name") {
        handle_claim_name(args, state, wallet, user_id, pubkey, config)
    } else if str_eq(name, "access") {
        handle_access_command(args, state, user_id, pubkey, config)
    } else if str_eq(name, "help") {
        handle_help(user_id)
    } else if str_eq(name, "balance") {
        handle_balance(wallet, user_id, pubkey)
    } else if str_eq(name, "room_info") {
        handle_room_info(args, state, user_id, config)
    } else if str_eq(name, "faucet") {
        handle_faucet(args, user_id, pubkey, wallet)
    } else if str_eq(name, "board") {
        handle_board(state, user_id, args)
    } else if str_eq(name, "depart") {
        handle_depart(state, user_id, args)
    } else if str_eq(name, "room_name") {
        handle_room_name(args, state, user_id, pubkey, config)
    } else if str_eq(name, "door_color") {
        handle_door_color(args, state, user_id, pubkey, config)
    } else {
        let mut effects: Vec<Effect> = Vec::new();
        effects.push(send_error(user_id, "invalid_command", "unknown command"));
        effects
    };
    proof {
        reveal_strlit("who");
        reveal_strlit("buy");
        reveal_strlit("pay");
        reveal_strlit("claim_name");
        reveal_strlit("access");
        reveal_strlit("help");
        reveal_strlit("balance");
        reveal_strlit("room_info");
        reveal_strlit("faucet");
        reveal_strlit("board");
        reveal_strlit("depart");
        reveal_strlit("room_name");
        reveal_strlit("door_color");
        assert("who"@ != "buy"@) by {
            if "who"@ == "buy"@ {
                assert("who"@[0] == "buy"@[0]);
            }
        }
        assert("who"@ != "pay"@) by {
            if "who"@ == "pay"@ {
                assert("who"@[0] == "pay"@[0]);
            }
        }
        assert("who"@ != "claim_name"@) by {
            if "who"@ == "claim_name"@ {
                assert("who"@.len() == "claim_name"@.len());
            }
        }
        assert("who"@ != "access"@) by {
            if "who"@ == "access"@ {
                assert("who"@.len() == "access"@.len());
            }
        }
        assert("who"@ != "help"@) by {
            if "who"@ == "help"@ {
                assert("who"@.len() == "help"@.len());
            }
        }
        assert("who"@ != "balance"@) by {
            if "who"@ == "balance"@ {
                assert("who"@.len() == "balance"@.len());
            }
        }
        assert("who"@ != "room_info"@) by {
            if "who"@ == "room_info"@ {
                assert("who"@.len() == "room_info"@.len());
            }
        }
        assert("who"@ != "faucet"@) by {
            if "who"@ == "faucet"@ {
                assert("who"@.len() == "faucet"@.len());
            }
        }
        assert("who"@ != "board"@) by {
            if "who"@ == "board"@ {
                assert("who"@.len() == "board"@.len());
            }
        }
        assert("who"@ != "depart"@) by {
            if "who"@ == "depart"@ {
                assert("who"@.len() == "depart"@.len());
            }
        }
        assert("who"@ != "room_name"@) by {
            if "who"@ == "room_name"@ {
                assert("who"@.len() == "room_name"@.len());
            }
        }
        assert("who"@ != "door_color"@) by {
            if "who"@ == "door_color"@ {
                assert("who"@.len() == "door_color"@.len());
            }
        }
        assert("buy"@ != "pay"@) by {
            if "buy"@ == "pay"@ {
                assert("buy"@[0] == "pay"@[0]);
            }
        }
        assert("buy"@ != "claim_name"@) by {
            if "buy"@ == "claim_name"@ {
                assert("buy"@.len() == "claim_name"@.len());
            }
        }
        assert("buy"@ != "access"@) by {
            if "buy"@ == "access"@ {
                assert("buy"@.len() == "access"@.len());
            }
        }
        assert("buy"@ != "help"@) by {
            if "buy"@ == "help"@ {
                assert("buy"@.len() == "help"@.len());
            }
        }
        assert("buy"@ != "balance"@) by {
            if "buy"@ == "balance"@ {
                assert("buy"@.len() == "balance"@.len());
            }
        }
        assert("buy"@ != "room_info"@) by {
            if "buy"@ == "room_info"@ {
                assert("buy"@.len() == "room_info"@.len());
            }
        }
        assert("buy"@ != "faucet"@) by {
            if "buy"@ == "faucet"@ {
                assert("buy"@.len() == "faucet"@.len());
            }
        }
        assert("buy"@ != "board"@) by {
            if "buy"@ == "board"@ {
                assert("buy"@.len() == "board"@.len());
            }
        }
        assert("buy"@ != "depart"@) by {
            if "buy"@ == "depart"@ {
                assert("buy"@.len() == "depart"@.len());
            }
        }
        assert("buy"@ != "room_name"@) by {
            if "buy"@ == "room_name"@ {
                assert("buy"@.len() == "room_name"@.len());
            }
        }
        assert("buy"@ != "door_color"@) by {
            if "buy"@ == "door_color"@ {
                assert("buy"@.len() == "door_color"@.len());
            }
        }
        assert("pay"@ != "claim_name"@) by {
            if "pay"@ == "claim_name"@ {
                assert("pay"@.len() == "claim_name"@.len());
            }
        }
        assert("pay"@ != "access"@) by {
            if "pay"@ == "access"@ {
                assert("pay"@.len() == "access"@.len());
            }
        }
        assert("pay"@ != "help"@) by {
            if "pay"@ == "help"@ {
                assert("pay"@.len() == "help"@.len());
            }
        }
        assert("pay"@ != "balance"@) by {
            if "pay"@ == "balance"@ {
                assert("pay"@.len() == "balance"@.len());
            }
        }
        assert("pay"@ != "room_info"@) by {
            if "pay"@ == "room_info"@ {
                assert("pay"@.len() == "room_info"@.len());
            }
        }
        assert("pay"@ != "faucet"@) by {
            if "pay"@ == "faucet"@ {
                assert("pay"@.len() == "faucet"@.len());
            }
        }
        assert("pay"@ != "board"@) by {
            if "pay"@ == "board"@ {
                assert("pay"@.len() == "board"@.len());
            }
        }
        assert("pay"@ != "depart"@) by {
            if "pay"@ == "depart"@ {
                assert("pay"@.len() == "depart"@.len());
            }
        }
        assert("pay"@ != "room_name"@) by {
            if "pay"@ == "room_name"@ {
                assert("pay"@.len() == "room_name"@.len());
            }
        }
        assert("pay"@ != "door_color"@) by {
            if "pay"@ == "door_color"@ {
                assert("pay"@.len() == "door_color"@.len());
            }
        }
        assert("claim_name"@ != "access"@) by {
            if "claim_name"@ == "access"@ {
                assert("claim_name"@.len() == "access"@.len());
            }
        }
        assert("claim_name"@ != "help"@) by {
            if "claim_name"@ == "help"@ {
                assert("claim_name"@.len() == "help"@.len());
            }
        }
        assert("claim_name"@ != "balance"@) by {
            if "claim_name"@ == "balance"@ {
                assert("claim_name"@.len() == "balance"@.len());
            }
        }
        assert("claim_name"@ != "room_info"@) by {
            if "claim_name"@ == "room_info"@ {
                assert("claim_name"@.len() == "room_info"@.len());
            }
        }
        assert("claim_name"@ != "faucet"@) by {
            if "claim_name"@ == "faucet"@ {
                assert("claim_name"@.len() == "faucet"@.len());
            }
        }
        assert("claim_name"@ != "board"@) by {
            if "claim_name"@ == "board"@ {
                assert("claim_name"@.len() == "board"@.len());
            }
        }
        assert("claim_name"@ != "depart"@) by {
            if "claim_name"@ == "depart"@ {
                assert("claim_name"@.len() == "depart"@.len());
            }
        }
        assert("claim_name"@ != "room_name"@) by {
            if "claim_name"@ == "room_name"@ {
                assert("claim_name"@.len() == "room_name"@.len());
            }
        }
        assert("claim_name"@ != "door_color"@) by {
            if "claim_name"@ == "door_color"@ {
                assert("claim_name"@[0] == "door_color"@[0]);
            }
        }
        assert("access"@ != "help"@) by {
            if "access"@ == "help"@ {
                assert("access"@.len() == "help"@.len());
            }
        }
        assert("access"@ != "balance"@) by {
            if "access"@ == "balance"@ {
                assert("access"@.len() == "balance"@.len());
            }
        }
        assert("access"@ != "room_info"@) by {
            if "access"@ == "room_info"@ {
                assert("access"@.len() == "room_info"@.len());
            }
        }
        assert("access"@ != "faucet"@) by {
            if "access"@ == "faucet"@ {
                assert("access"@[0] == "faucet"@[0]);
            }
        }
        assert("access"@ != "board"@) by {
            if "access"@ == "board"@ {
                assert("access"@.len() == "board"@.len());
            }
        }
        assert("access"@ != "depart"@) by {
            if "access"@ == "depart"@ {
                assert("access"@[0] == "depart"@[0]);
            }
        }
        assert("access"@ != "room_name"@) by {
            if "access"@ == "room_name"@ {
                assert("access"@.len() == "room_name"@.len());
            }
        }
        assert("access"@ != "door_color"@) by {
            if "access"@ == "door_color"@ {
                assert("access"@.len() == "door_color"@.len());
            }
        }
        assert("help"@ != "balance"@) by {
            if "help"@ == "balance"@ {
                assert("help"@.len() == "balance"@.len());
            }
        }
        assert("help"@ != "room_info"@) by {
            if "help"@ == "room_info"@ {
                assert("help"@.len() == "room_info"@.len());
            }
        }
        assert("help"@ != "faucet"@) by {
            if "help"@ == "faucet"@ {
                assert("help"@.len() == "faucet"@.len());
            }
        }
        assert("help"@ != "board"@) by {
            if "help"@ == "board"@ {
                assert("help"@.len() == "board"@.len());
            }
        }
        assert("help"@ != "depart"@) by {
            if "help"@ == "depart"@ {
                assert("help"@.len() == "depart"@.len());
            }
        }
        assert("help"@ != "room_name"@) by {
            if "help"@ == "room_name"@ {
                assert("help"@.len() == "room_name"@.len());
            }
        }
        assert("help"@ != "door_color"@) by {
            if "help"@ == "door_color"@ {
                assert("help"@.len() == "door_color"@.len());
            }
        }
        assert("balance"@ != "room_info"@) by {
            if "balance"@ == "room_info"@ {
                assert("balance"@.len() == "room_info"@.len());
            }
        }
        assert("balance"@ != "faucet"@) by {
            if "balance"@ == "faucet"@ {
                assert("balance"@.len() == "faucet"@.len());
            }
        }
        assert("balance"@ != "board"@) by {
            if "balance"@ == "board"@ {
                assert("balance"@.len() == "board"@.len());
            }
        }
        assert("balance"@ != "depart"@) by {
            if "balance"@ == "depart"@ {
                assert("balance"@.len() == "depart"@.len());
            }
        }
        assert("balance"@ != "room_name"@) by {
            if "balance"@ == "room_name"@ {
                assert("balance"@.len() == "room_name"@.len());
            }
        }
        assert("balance"@ != "door_color"@) by {
            if "balance"@ == "door_color"@ {
                assert("balance"@.len() == "door_color"@.len());
            }
        }
        assert("room_info"@ != "faucet"@) by {
            if "room_info"@ == "faucet"@ {
                assert("room_info"@.len() == "faucet"@.len());
            }
        }
        assert("room_info"@ != "board"@) by {
            if "room_info"@ == "board"@ {
                assert("room_info"@.len() == "board"@.len());
            }
        }
        assert("room_info"@ != "depart"@) by {
            if "room_info"@ == "depart"@ {
                assert("room_info"@.len() == "depart"@.len());
            }
        }
        assert("room_info"@ != "room_name"@) by {
            if "room_info"@ == "room_name"@ {
                assert("room_info"@[5] == "room_name"@[5]);
            }
        }
        assert("room_info"@ != "door_color"@) by {
            if "room_info"@ == "door_color"@ {
                assert("room_info"@.len() == "door_color"@.len());
            }
        }
        assert("faucet"@ != "board"@) by {
            if "faucet"@ == "board"@ {
                assert("faucet"@.len() == "board"@.len());
            }
        }
        assert("faucet"@ != "depart"@) by {
            if "faucet"@ == "depart"@ {
                assert("faucet"@[0] == "depart"@[0]);
            }
        }
        assert("faucet"@ != "room_name"@) by {
            if "faucet"@ == "room_name"@ {
                assert("faucet"@.len() == "room_name"@.len());
            }
        }
        assert("faucet"@ != "door_color"@) by {
            if "faucet"@ == "door_color"@ {
                assert("faucet"@.len() == "door_color"@.len());
            }
        }
        assert("board"@ != "depart"@) by {
            if "board"@ == "depart"@ {
                assert("board"@.len() == "depart"@.len());
            }
        }
        assert("board"@ != "room_name"@) by {
            if "board"@ == "room_name"@ {
                assert("board"@.len() == "room_name"@.len());
            }
        }
        assert("board"@ != "door_color"@) by {
            if "board"@ == "door_color"@ {
                assert("board"@.len() == "door_color"@.len());
            }
        }
        assert("depart"@ != "room_name"@) by {
            if "depart"@ == "room_name"@ {
                assert("depart"@.len() == "room_name"@.len());
            }
        }
        assert("depart"@ != "door_color"@) by {
            if "depart"@ == "door_color"@ {
                assert("depart"@.len() == "door_color"@.len());
            }
        }
        assert("room_name"@ != "door_color"@) by {
            if "room_name"@ == "door_color"@ {
                assert("room_name"@.len() == "door_color"@.len());
            }
        }
        assert(name@ == "buy"@ ==> buy_post(
            *old(state),
            *state,
            *old(wallet),
            *wallet,
            user_id@,
            pubkey@,
            *config,
            effects@,
        ));
        assert(name@ == "who"@ ==> who_post(*old(state), user_id@, effects@) && *state == *old(
            state,
        ) && *wallet == *old(wallet));
        assert(name@ == "pay"@ ==> pay_post(
            *old(state),
            *old(wallet),
            *wallet,
            user_id@,
            pubkey@,
            args@,
            *config,
            effects@,
        ) && *state == *old(state));
        assert(name@ == "claim_name"@ ==> claim_name_post(
            *old(state),
            *state,
            *old(wallet),
            *wallet,
            user_id@,
            pubkey@,
            args@,
            *config,
            effects@,
        ));
        assert(name@ == "access"@ ==> access_post(
            *old(state),
            *state,
            user_id@,
            pubkey@,
            args@,
            effects@,
        ) && *wallet == *old(wallet));
        assert(name@ == "help"@ ==> *state == *old(state) && *wallet == *old(wallet)
            && effects@.len() == 1 && eff_is_notice(effects@[0], user_id@, help_text()));
        assert(name@ == "balance"@ ==> *state == *old(state) && *wallet == *old(wallet)
            && effects@.len() == 1 && eff_is_notice(
            effects@[0],
            user_id@,
            "balance: "@ + crate::money::spec_format_xmr(
                spec_balance(old(wallet).balances@, pubkey@),
            ) + " XMR"@,
        ));
        assert(name@ == "room_info"@ ==> room_info_post(
            *old(state),
            *state,
            user_id@,
            args@,
            effects@,
        ) && *wallet == *old(wallet));
        assert(name@ == "faucet"@ ==> faucet_post(
            *old(wallet),
            *wallet,
            user_id@,
            pubkey@,
            args@,
            effects@,
        ) && *state == *old(state));
        assert(name@ == "board"@ ==> board_post(*old(state), *state, user_id@, args@, effects@)
            && *wallet == *old(wallet));
        assert(name@ == "depart"@ ==> depart_post(*old(state), *state, user_id@, args@, effects@)
            && *wallet == *old(wallet));
        assert(name@ == "room_name"@ ==> room_name_post(
            *old(state),
            *state,
            user_id@,
            pubkey@,
            args@,
            effects@,
        ) && *wallet == *old(wallet));
        assert(name@ == "door_color"@ ==> door_color_post(
            *old(state),
            *state,
            user_id@,
            pubkey@,
            args@,
            effects@,
        ) && *wallet == *old(wallet));
        assert(!(name@ == "who"@ || name@ == "buy"@ || name@ == "pay"@ || name@ == "claim_name"@
            || name@ == "access"@ || name@ == "help"@ || name@ == "balance"@ || name@
            == "room_info"@ || name@ == "faucet"@ || name@ == "board"@ || name@ == "depart"@
            || name@ == "room_name"@ || name@ == "door_color"@) ==> (*state == *old(state)
            && *wallet == *old(wallet) && effects@.len() == 1 && eff_is_error(
            effects@[0],
            user_id@,
            "invalid_command"@,
        )));
        assert(command_post(
            *old(state),
            *state,
            *old(wallet),
            *wallet,
            user_id@,
            pubkey@,
            name@,
            args@,
            *config,
            effects@,
        ));
    }
    effects
}

/// Everything `handle_room_access` promises of the stored policy.
pub open spec fn room_access_post(pre: ServerState, post: ServerState, room_id: Seq<char>, mode: AccessMode, list: Seq<String>, user_id: Seq<char>, pubkey: Seq<char>, effects: Seq<Effect>) -> bool {
            let u = spec_user(pre.users@, user_id);
            let adj = spec_adjacent_to_customizer(u);
            let owned = adj && has_room(pre.rooms@, room_id) && (spec_room(
                pre.rooms@,
                room_id,
            ).owner_pubkey matches Some(o) && o@ == pubkey);
            &&& (!adj ==> effects.len() == 1 && eff_is_error(
                effects[0],
                user_id,
                "invalid_command"@,
            ) && post.rooms@ == pre.rooms@)
            &&& (adj && !owned ==> effects.len() == 1 && eff_is_error(
                effects[0],
                user_id,
                "room_access_denied"@,
            ))
            &&& (owned ==> ({
                let r2 = spec_room(post.rooms@, room_id);
                has_room(post.rooms@, room_id) && r2.access.mode == mode
                    && r2.access.list@ == list
            }) && (exists|e: int| 0 <= e < effects.len() && (#[trigger] effects[e]) is SaveRooms))
        }

/// `client.room_access_update`: replace a room's whole policy; owner
/// only, from beside the customizer.
pub fn handle_room_access(
    room_id_arg: &String,
    mode: AccessMode,
    list: &Vec<String>,
    state: &mut ServerState,
    user_id: &str,
    pubkey: &str,
    config: &RelayConfig,
) -> (effects: Vec<Effect>)
    requires
        old(state).wf(),
        is_connected(old(state).clients@, user_id@),
    ensures
        final(state).wf(),
        final(state).users@ == old(state).users@,
        final(state).clients@ == old(state).clients@,
        final(state).presence@ == old(state).presence@,
        forall|e: int|
            0 <= e < effects@.len() ==> crate::broadcast::room_info_truthful(
                #[trigger] effects@[e],
                final(state).rooms@,
            ),
        room_access_post(*old(state), *final(state), room_id_arg@, mode, list@, user_id@, pubkey@, effects@),
{
    let mut effects: Vec<Effect> = Vec::new();
    let user = match state.get_user(user_id) {
        Some(u) => u,
        None => {
            proof {
                let c = choose|c: int|
                    0 <= c < state.clients@.len() && #[trigger] state.clients@[c].user_id@
                        == user_id@;
                assert(false);
            }
            return effects;
        },
    };
    if !is_adjacent_to_customizer(&user) {
        effects.push(send_error(user_id, "invalid_command", "must be adjacent to room customizer"));
        return effects;
    }
    let ghost rooms0 = state.rooms@;
    let _ = state.get_or_create_room(room_id_arg.as_str(), config.room_price_xmr.as_str());
    proof {
        let rid = room_id_arg@;
        if !has_room(rooms0, rid) {
            let n0 = rooms0.len() as int;
            assert(forall|a: int|
                0 <= a < n0 ==> #[trigger] state.rooms@[a] == state.rooms@.subrange(0, n0)[a]);
            assert(spec_room(state.rooms@, rid) == state.rooms@.last()) by {
                let a = choose|a: int|
                    0 <= a < state.rooms@.len() && #[trigger] state.rooms@[a].room_id@ == rid;
                if a < n0 {
                    assert(rooms0[a].room_id@ == rid);
                }
                crate::state::lemma_room_at(state.rooms@, rid, a);
            }
        }
    }
    let i = match state.find_room(room_id_arg.as_str()) {
        Some(i) => i,
        None => {
            proof {
                assert(false);
            }
            return effects;
        },
    };
    proof {
        crate::state::lemma_room_at(state.rooms@, room_id_arg@, i as int);
    }
    let owner_hit = match &state.rooms[i].owner_pubkey {
        Some(o) => str_eq(o.as_str(), pubkey),
        None => false,
    };
    if !owner_hit {
        effects.push(send_error(user_id, "room_access_denied", "not room owner"));
        return effects;
    }
    proof {
        assert(has_room(rooms0, room_id_arg@)) by {
            if !has_room(rooms0, room_id_arg@) {
                assert(state.rooms@.last().owner_pubkey is None);
            }
        }
        assert(state.rooms@ == rooms0);
    }
    let updated = RoomState {
        room_id: state.rooms[i].room_id.clone(),
        owner_pubkey: clone_opt_string(&state.rooms[i].owner_pubkey),
        price_xmr: state.rooms[i].price_xmr.clone(),
        for_sale: state.rooms[i].for_sale,
        access: AccessPolicy { mode, list: clone_string_vec(list) },
        display_name: clone_opt_string(&state.rooms[i].display_name),
        door_color: clone_opt_string(&state.rooms[i].door_color),
    };
    let ghost given = updated.access.list@;
    let snapshot = updated.clone();
    state.update_room(i, updated);
    effects.push(Effect::SaveRooms);
    effects.push(room_info_effect(user_id, &snapshot));
    proof {
        assert(effects@[0] is SaveRooms);
        let r2 = spec_room(state.rooms@, snapshot.room_id@);
        assert(r2.access.mode == mode);
        assert(r2.access.list@ == given);
        assert(given == list@);
    }
    effects
}

} // verus!
