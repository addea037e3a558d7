//! The chat subsystem: whispers within a small box, encrypted room
//! chat, and street-local chat within sight. The relay only routes;
//! encrypted payloads pass through unread.
use vstd::prelude::*;

use crate::broadcast::connected_users_in_map;
use crate::in_box;
use crate::messages::{
    eff_is_error, eff_is_notice, send_error, send_notice, ChatScope, ClientChat, Effect,
    EncryptedPayload, ServerChat, ServerMsg, ServerRoomKey, ClientRoomKey,
};
use crate::state::{
    clone_opt_string, has_user, is_connected, spec_user, ServerState, UserState,
};
use crate::text::{str_eq, strip_prefix_str};

verus! {

/// The box around a speaker inside which street chat and `who` see
/// other users.
pub const LOCAL_CHAT_WIDTH: i32 = 16;

pub const LOCAL_CHAT_HEIGHT: i32 = 16;

/// The box around a whisperer inside which the target must stand.
pub const WHISPER_WIDTH: i32 = 5;

pub const WHISPER_HEIGHT: i32 = 5;

/// Whispers reach a target at most two tiles away on each axis.
pub open spec fn whisper_in_range(ax: int, ay: int, bx: int, by: int) -> bool {
    crate::spec_in_box(ax, ay, bx, by, WHISPER_WIDTH as int, WHISPER_HEIGHT as int)
}

/// `id` is a connected user standing on map `m` whose id or display
/// name is `token`: a candidate whisper target.
pub open spec fn chat_match(st: ServerState, m: Seq<char>, token: Seq<char>, id: Seq<char>) -> bool {
    &&& is_connected(st.clients@, id)
    &&& has_user(st.users@, id)
    &&& spec_user(st.users@, id).position.map_id@ == m
    &&& crate::state::user_matches_token(spec_user(st.users@, id), token)
}

/// A candidate target within whisper range of the speaker `u`.
pub open spec fn chat_match_in_range(
    st: ServerState,
    u: UserState,
    token: Seq<char>,
    id: Seq<char>,
) -> bool {
    chat_match(st, u.position.map_id@, token, id) && whisper_in_range(
        u.position.x as int,
        u.position.y as int,
        spec_user(st.users@, id).position.x as int,
        spec_user(st.users@, id).position.y as int,
    )
}

/// The forwarded line carries the message and its sender verbatim:
/// the text, the sender's stored display name, the encryption envelope
/// field for field, and the room name exactly on room maps.
pub open spec fn chat_content_ok(
    c: ServerChat,
    st: ServerState,
    user_id: Seq<char>,
    payload: ClientChat,
) -> bool {
    let m = spec_user(st.users@, user_id).position.map_id@;
    let in_room = m.len() >= "room/"@.len() && m.subrange(0, "room/"@.len() as int) == "room/"@;
    &&& c.text@ == payload.text@
    &&& c.display_name == spec_user(st.users@, user_id).display_name
    &&& (in_room ==> (c.room_id matches Some(r) && r@ == m.skip("room/"@.len() as int)))
    &&& (!in_room ==> c.room_id is None)
    &&& (payload.enc is None ==> c.enc is None)
    &&& (payload.enc matches Some(pe) ==> (c.enc matches Some(ce) && ce.alg@ == pe.alg@
        && ce.nonce@ == pe.nonce@ && ce.ciphertext@ == pe.ciphertext@ && ce.sender_key
        == pe.sender_key))
}

/// A delivered whisper: one or two chat lines from the speaker, one of
/// them to the speaker, one to a matched target, every other recipient
/// a matched target within range.
pub open spec fn whisper_delivered(
    st: ServerState,
    u: UserState,
    user_id: Seq<char>,
    token: Seq<char>,
    payload: ClientChat,
    effects: Seq<Effect>,
) -> bool {
    &&& 1 <= effects.len() <= 2
    &&& forall|k: int|
        0 <= k < effects.len() ==> ((#[trigger] effects[k]) matches Effect::Send {
            to,
            msg: ServerMsg::Chat(c),
        } && c.from@ == user_id && c.scope == ChatScope::Whisper && chat_content_ok(
            c,
            st,
            user_id,
            payload,
        ) && (to@ == user_id || chat_match_in_range(st, u, token, to@)))
    &&& exists|k: int|
        0 <= k < effects.len() && ((#[trigger] effects[k]) matches Effect::Send { to, msg } && to@
            == user_id)
    &&& exists|k: int|
        0 <= k < effects.len() && ((#[trigger] effects[k]) matches Effect::Send { to, msg }
            && chat_match(st, u.position.map_id@, token, to@))
}

/// Chat lines delivered to exactly the connected users of map `m`
/// that satisfy `eligible` (always including the speaker): every
/// effect is such a line, and every eligible user gets one.
pub open spec fn map_chat_delivered(
    st: ServerState,
    user_id: Seq<char>,
    m: Seq<char>,
    scope: ChatScope,
    on_street_box: bool,
    ux: int,
    uy: int,
    payload: ClientChat,
    effects: Seq<Effect>,
) -> bool {
    &&& effects.len() >= 1
    &&& forall|k: int|
        0 <= k < effects.len() ==> ((#[trigger] effects[k]) matches Effect::Send {
            to,
            msg: ServerMsg::Chat(c),
        } && c.from@ == user_id && c.scope == scope && chat_content_ok(
            c,
            st,
            user_id,
            payload,
        ) && is_connected(st.clients@, to@) && has_user(
            st.users@,
            to@,
        ) && spec_user(st.users@, to@).position.map_id@ == m && (on_street_box
            ==> crate::spec_in_box(
            ux,
            uy,
            spec_user(st.users@, to@).position.x as int,
            spec_user(st.users@, to@).position.y as int,
            LOCAL_CHAT_WIDTH as int,
            LOCAL_CHAT_HEIGHT as int,
        )))
    &&& forall|c: int|
        0 <= c < st.clients@.len() && spec_user(
            st.users@,
            (#[trigger] st.clients@[c]).user_id@,
        ).position.map_id@ == m && (on_street_box ==> crate::spec_in_box(
            ux,
            uy,
            spec_user(st.users@, st.clients@[c].user_id@).position.x as int,
            spec_user(st.users@, st.clients@[c].user_id@).position.y as int,
            LOCAL_CHAT_WIDTH as int,
            LOCAL_CHAT_HEIGHT as int,
        )) ==> exists|k: int|
            0 <= k < effects.len() && ((#[trigger] effects[k]) matches Effect::Send { to, msg }
                && to@ == st.clients@[c].user_id@)
}

/// Everything `handle_chat` promises of its routing and replies.
pub open spec fn chat_post(st: ServerState, user_id: Seq<char>, pl: ClientChat, effects: Seq<Effect>) -> bool {
            let u = spec_user(st.users@, user_id);
            let m = u.position.map_id@;
            let scope = match pl.scope {
                Some(sc) => sc,
                None => ChatScope::Local,
            };
            match scope {
                ChatScope::Whisper => {
                    let shape_ok = (pl.enc matches Some(e) && e.sender_key is Some)
                        && pl.target is Some;
                    if !shape_ok {
                        effects.len() == 1 && eff_is_error(effects[0], user_id, "invalid_command"@)
                    } else {
                        let token = pl.target->0@;
                        if !(exists|id: Seq<char>| chat_match(st, m, token, id)) {
                            effects.len() == 1 && eff_is_error(
                                effects[0],
                                user_id,
                                "invalid_command"@,
                            )
                        } else if (forall|id: Seq<char>|
                            chat_match(st, m, token, id) ==> chat_match_in_range(
                                st,
                                u,
                                token,
                                id,
                            )) {
                            // the target stands within the box: delivered
                            whisper_delivered(st, u, user_id, token, pl, effects)
                        } else if (forall|id: Seq<char>|
                            chat_match(st, m, token, id) ==> !chat_match_in_range(
                                st,
                                u,
                                token,
                                id,
                            )) {
                            effects.len() == 1 && eff_is_notice(
                                effects[0],
                                user_id,
                                "whisper target out of range"@,
                            )
                        } else {
                            // an ambiguous token with matches both in and out
                            // of range goes whichever way the first match lies
                            whisper_delivered(st, u, user_id, token, pl, effects)
                                || (
                            effects.len() == 1 && eff_is_notice(
                                effects[0],
                                user_id,
                                "whisper target out of range"@,
                            ))
                        }
                    }
                },
                ChatScope::Room => {
                    if m == "street"@ || pl.enc is None {
                        effects.len() == 1 && eff_is_error(effects[0], user_id, "invalid_command"@)
                    } else {
                        map_chat_delivered(
                            st,
                            user_id,
                            m,
                            ChatScope::Room,
                            false,
                            u.position.x as int,
                            u.position.y as int,
                            pl,
                            effects,
                        )
                    }
                },
                ChatScope::Local => {
                    if (m != "street"@ && pl.enc is None) || (m == "street"@
                        && pl.enc is Some) {
                        effects.len() == 1 && eff_is_error(effects[0], user_id, "invalid_command"@)
                    } else {
                        map_chat_delivered(
                            st,
                            user_id,
                            m,
                            ChatScope::Local,
                            m == "street"@,
                            u.position.x as int,
                            u.position.y as int,
                            pl,
                            effects,
                        )
                    }
                },
            }
        }

/// Route one chat line. The state is read, never written. Whispers go
/// to the speaker and an in-range target or come back as an error or
/// range notice; room and local chat reach every eligible occupant.
#[verifier::rlimit(100)]
#[verifier::spinoff_prover]
pub fn handle_chat(state: &ServerState, user_id: &str, payload: &ClientChat) -> (effects: Vec<
    Effect,
>)
    requires
        state.wf(),
        is_connected(state.clients@, user_id@),
        has_user(state.users@, user_id@),
    ensures
        chat_post(*state, user_id@, *payload, effects@),
{
    let user = match state.get_user(user_id) {
        Some(u) => u,
        None => {
            proof {
                assert(false);
            }
            return Vec::new();
        },
    };
    let scope = match payload.scope {
        Some(sc) => sc,
        None => ChatScope::Local,
    };
    let room_id: Option<String> = match strip_prefix_str(user.position.map_id.as_str(), "room/") {
        Some(rest) => Some(rest.to_owned()),
        None => None,
    };
    proof {
        let mm = user.position.map_id@;
        if room_id is Some {
            assert(mm.subrange(0, "room/"@.len() as int) =~= "room/"@);
            assert(room_id->0@ =~= mm.skip("room/"@.len() as int));
        }
    }
    let on_street = str_eq(user.position.map_id.as_str(), "street");
    let users_in_map = connected_users_in_map(state, user.position.map_id.as_str());
    let ghost m = user.position.map_id@;
    let ghost mut chosen_id: Seq<char> = Seq::empty();
    let mut recipients: Vec<UserState> = Vec::new();
    match scope {
        ChatScope::Whisper => {
            let enc_ok = match &payload.enc {
                Some(e) => e.sender_key.is_some(),
                None => false,
            };
            if payload.enc.is_none() {
                let mut r: Vec<Effect> = Vec::new();
                r.push(send_error(user_id, "invalid_command", "whisper must be encrypted"));
                return r;
            }
            if !enc_ok {
                let mut r: Vec<Effect> = Vec::new();
                r.push(send_error(user_id, "invalid_command", "missing whisper sender key"));
                return r;
            }
            let target = match &payload.target {
                Some(t) => t,
                None => {
                    let mut r: Vec<Effect> = Vec::new();
                    r.push(send_error(user_id, "invalid_command", "usage: /whisper <user> <msg>"));
                    return r;
                },
            };
            let ghost token = target@;
            let mut found: Option<usize> = None;
            let mut j: usize = 0;
            let n = users_in_map.len();
            while j < n
                invariant
                    j <= n,
                    n == users_in_map@.len(),
                    state.wf(),
                    token == payload.target->0@,
                    target@ == token,
                    forall|k: int|
                        0 <= k < users_in_map@.len() ==> is_connected(
                            state.clients@,
                            #[trigger] users_in_map@[k].user_id@,
                        ) && has_user(state.users@, users_in_map@[k].user_id@) && users_in_map@[k]
                            == spec_user(state.users@, users_in_map@[k].user_id@)
                            && users_in_map@[k].position.map_id@ == m,
                    match found {
                        Some(f) => f < n && chat_match(
                            *state,
                            m,
                            token,
                            users_in_map@[f as int].user_id@,
                        ),
                        None => forall|k: int|
                            0 <= k < j ==> !crate::state::user_matches_token(
                                #[trigger] users_in_map@[k],
                                token,
                            ),
                    },
                decreases n - j,
            {
                if found.is_none() {
                    let id_hit = str_eq(users_in_map[j].user_id.as_str(), target.as_str());
                    let name_hit = match &users_in_map[j].display_name {
                        Some(nm) => str_eq(nm.as_str(), target.as_str()),
                        None => false,
                    };
                    proof {
                        let cand = users_in_map@[j as int];
                        assert(id_hit == (cand.user_id@ == token));
                        assert(name_hit == (cand.display_name matches Some(nm) && nm@ == token));
                        assert((id_hit || name_hit) == crate::state::user_matches_token(
                            cand,
                            token,
                        ));
                    }
                    if id_hit || name_hit {
                        found = Some(j);
                        proof {
                            let id = users_in_map@[j as int].user_id@;
                            assert(users_in_map@[j as int] == spec_user(state.users@, id));
                            assert(chat_match(*state, m, token, id));
                        }
                    }
                }
                j = j + 1;
            }
            let tj = match found {
                Some(f) => f,
                None => {
                    proof {
                        // nobody on the map carries the token
                        if exists|id: Seq<char>| chat_match(*state, m, token, id) {
                            let id = choose|id: Seq<char>| chat_match(*state, m, token, id);
                            let c = choose|c: int|
                                0 <= c < state.clients@.len()
                                    && (#[trigger] state.clients@[c].user_id@) == id;
                            assert(exists|k: int|
                                0 <= k < users_in_map@.len()
                                    && #[trigger] users_in_map@[k].user_id@
                                    == state.clients@[c].user_id@);
                        }
                    }
                    let mut r: Vec<Effect> = Vec::new();
                    r.push(send_error(user_id, "invalid_command", "whisper target not found"));
                    return r;
                },
            };
            let target_user = &users_in_map[tj];
            proof {
                chosen_id = users_in_map@[tj as int].user_id@;
            }
            let ghost chosen = users_in_map@[tj as int].user_id@;
            if !in_box(
                user.position.x,
                user.position.y,
                target_user.position.x,
                target_user.position.y,
                WHISPER_WIDTH,
                WHISPER_HEIGHT,
            ) {
                proof {
                    assert(!chat_match_in_range(*state, user, token, chosen));
                }
                let mut r: Vec<Effect> = Vec::new();
                r.push(send_notice(user_id, "whisper target out of range"));
                return r;
            }
            proof {
                assert(chat_match_in_range(*state, user, token, chosen));
            }
            recipients.push(user.clone());
            if !str_eq(target_user.user_id.as_str(), user_id) {
                recipients.push(target_user.clone());
            }
            proof {
                assert(recipients@[0].user_id@ == user_id@);
                assert(forall|k: int|
                    0 <= k < recipients@.len() ==> #[trigger] recipients@[k].user_id@ == user_id@
                        || recipients@[k].user_id@ == chosen);
                if chosen != user_id@ {
                    assert(recipients@.len() == 2 && recipients@[1].user_id@ == chosen);
                }
                assert(chosen_id == chosen);
                assert(chat_match(*state, m, payload.target->0@, chosen_id));
                assert(chat_match_in_range(*state, user, payload.target->0@, chosen_id));
            }
        },
        ChatScope::Room => {
            if on_street {
                let mut r: Vec<Effect> = Vec::new();
                r.push(send_error(user_id, "invalid_command", "not in a room"));
                return r;
            }
            if payload.enc.is_none() {
                let mut r: Vec<Effect> = Vec::new();
                r.push(send_error(user_id, "invalid_command", "room chat must be encrypted"));
                return r;
            }
            let mut j: usize = 0;
            let n = users_in_map.len();
            while j < n
                invariant
                    j <= n,
                    n == users_in_map@.len(),
                    recipients@ =~= users_in_map@.subrange(0, j as int),
                decreases n - j,
            {
                recipients.push(users_in_map[j].clone());
                proof {
                    assert(recipients@ =~= users_in_map@.subrange(0, j + 1));
                }
                j = j + 1;
            }
            proof {
                assert(recipients@ =~= users_in_map@);
            }
        },
        ChatScope::Local => {
            if !on_street && payload.enc.is_none() {
                let mut r: Vec<Effect> = Vec::new();
                r.push(send_error(user_id, "invalid_command", "room chat must be encrypted"));
                return r;
            }
            if on_street && payload.enc.is_some() {
                let mut r: Vec<Effect> = Vec::new();
                r.push(send_error(user_id, "invalid_command", "street chat cannot be encrypted"));
                return r;
            }
            let mut j: usize = 0;
            let n = users_in_map.len();
            while j < n
                invariant
                    j <= n,
                    n == users_in_map@.len(),
                    state.wf(),
                    has_user(state.users@, user_id@),
                    user == spec_user(state.users@, user_id@),
                    on_street == (spec_user(state.users@, user_id@).position.map_id@ == "street"@),
                    forall|k: int|
                        0 <= k < users_in_map@.len() ==> has_user(
                            state.users@,
                            #[trigger] users_in_map@[k].user_id@,
                        ) && is_connected(state.clients@, users_in_map@[k].user_id@)
                            && users_in_map@[k] == spec_user(state.users@, users_in_map@[k].user_id@)
                            && users_in_map@[k].position.map_id@ == spec_user(
                            state.users@,
                            user_id@,
                        ).position.map_id@,
                    forall|k: int|
                        0 <= k < recipients@.len() ==> has_user(
                            state.users@,
                            #[trigger] recipients@[k].user_id@,
                        ) && is_connected(state.clients@, recipients@[k].user_id@)
                            && recipients@[k] == spec_user(state.users@, recipients@[k].user_id@)
                            && recipients@[k].position.map_id@ == spec_user(
                            state.users@,
                            user_id@,
                        ).position.map_id@ && (on_street ==> crate::spec_in_box(
                            user.position.x as int,
                            user.position.y as int,
                            recipients@[k].position.x as int,
                            recipients@[k].position.y as int,
                            LOCAL_CHAT_WIDTH as int,
                            LOCAL_CHAT_HEIGHT as int,
                        )),
                    forall|jj: int|
                        0 <= jj < j && (on_street ==> crate::spec_in_box(
                            user.position.x as int,
                            user.position.y as int,
                            users_in_map@[jj].position.x as int,
                            users_in_map@[jj].position.y as int,
                            LOCAL_CHAT_WIDTH as int,
                            LOCAL_CHAT_HEIGHT as int,
                        )) ==> exists|k: int|
                            0 <= k < recipients@.len() && #[trigger] recipients@[k].user_id@
                                == users_in_map@[jj].user_id@,
                decreases n - j,
            {
                let other = &users_in_map[j];
                let allow = if on_street {
                    in_box(
                        user.position.x,
                        user.position.y,
                        other.position.x,
                        other.position.y,
                        LOCAL_CHAT_WIDTH,
                        LOCAL_CHAT_HEIGHT,
                    )
                } else {
                    true
                };
                if allow {
                    let ghost before = recipients@;
                    recipients.push(other.clone());
                    proof {
                        assert(forall|k: int| 0 <= k < before.len() ==> recipients@[k] == before[k]);
                        assert(recipients@.last() == users_in_map@[j as int]);
                        if on_street {
                            assert(crate::spec_in_box(
                                user.position.x as int,
                                user.position.y as int,
                                recipients@.last().position.x as int,
                                recipients@.last().position.y as int,
                                LOCAL_CHAT_WIDTH as int,
                                LOCAL_CHAT_HEIGHT as int,
                            ));
                        }
                    }
                }
                j = j + 1;
            }
        },
    }
    let mut effects: Vec<Effect> = Vec::new();
    let no_recipients = recipients.len() == 0;
    let mut k: usize = 0;
    let n = recipients.len();
    while k < n
        invariant
            k <= n,
            n == recipients@.len(),
            effects@.len() == k,
            state.wf(),
            has_user(state.users@, user_id@),
            user == spec_user(state.users@, user_id@),
            ({
                let mm = spec_user(state.users@, user_id@).position.map_id@;
                let in_room = mm.len() >= "room/"@.len() && mm.subrange(
                    0,
                    "room/"@.len() as int,
                ) == "room/"@;
                &&& (in_room ==> (room_id matches Some(r) && r@ == mm.skip(
                    "room/"@.len() as int,
                )))
                &&& (!in_room ==> room_id is None)
            }),
            forall|e: int|
                0 <= e < effects@.len() ==> ((#[trigger] effects@[e]) matches Effect::Send {
                    to,
                    msg: ServerMsg::Chat(c),
                } && to@ == recipients@[e].user_id@ && c.from@ == user_id@ && c.scope == scope
                    && chat_content_ok(c, *state, user_id@, *payload)),
        decreases n - k,
    {
        let enc_copy: Option<EncryptedPayload> = match &payload.enc {
            Some(e) => Some(e.clone()),
            None => None,
        };
        let chat = ServerChat {
            from: user_id.to_owned(),
            display_name: clone_opt_string(&user.display_name),
            text: payload.text.clone(),
            scope,
            room_id: clone_opt_string(&room_id),
            enc: enc_copy,
        };
        effects.push(
            Effect::Send { to: recipients[k].user_id.clone(), msg: ServerMsg::Chat(chat) },
        );
        proof {
            assert(effects@.last() matches Effect::Send { to, msg: ServerMsg::Chat(c) }
                && chat_content_ok(c, *state, user_id@, *payload));
        }
        k = k + 1;
    }
    proof {
        // the speaker always qualifies as a recipient, so the list is
        // never empty on a delivery path
        match scope {
            ChatScope::Whisper => {
                assert(recipients@.len() >= 1);
            },
            ChatScope::Room => {
                let c = choose|c: int|
                    0 <= c < state.clients@.len() && (#[trigger] state.clients@[c].user_id@)
                        == user_id@;
                assert(exists|kk: int|
                    0 <= kk < users_in_map@.len() && #[trigger] users_in_map@[kk].user_id@
                        == state.clients@[c].user_id@);
                assert(recipients@.len() >= 1);
            },
            ChatScope::Local => {
                let c = choose|c: int|
                    0 <= c < state.clients@.len() && (#[trigger] state.clients@[c].user_id@)
                        == user_id@;
                assert(exists|kk: int|
                    0 <= kk < users_in_map@.len() && #[trigger] users_in_map@[kk].user_id@
                        == state.clients@[c].user_id@);
                let kk = choose|kk: int|
                    0 <= kk < users_in_map@.len() && #[trigger] users_in_map@[kk].user_id@
                        == user_id@;
                if on_street {
                    assert(users_in_map@[kk] == spec_user(state.users@, user_id@));
                    assert(crate::spec_in_box(
                        user.position.x as int,
                        user.position.y as int,
                        users_in_map@[kk].position.x as int,
                        users_in_map@[kk].position.y as int,
                        LOCAL_CHAT_WIDTH as int,
                        LOCAL_CHAT_HEIGHT as int,
                    ));
                }
                assert(exists|q: int|
                    0 <= q < recipients@.len() && #[trigger] recipients@[q].user_id@ == user_id@);
                assert(recipients@.len() >= 1);
            },
        }
        assert(!no_recipients);
        // completeness carries from the recipient list to the effects
        assert(forall|q: int|
            0 <= q < recipients@.len() ==> ((#[trigger] effects@[q]) matches Effect::Send {
                to,
                msg,
            } && to@ == recipients@[q].user_id@));
        match scope {
            ChatScope::Whisper => {
                assert(effects@[0] matches Effect::Send { to, msg } && to@ == user_id@);
                if chosen_id == user_id@ {
                    assert(effects@[0] matches Effect::Send { to, msg } && chat_match(
                        *state,
                        m,
                        payload.target->0@,
                        to@,
                    ));
                } else {
                    assert(recipients@[1].user_id@ == chosen_id);
                    assert(effects@[1] matches Effect::Send { to, msg } && chat_match(
                        *state,
                        m,
                        payload.target->0@,
                        to@,
                    ));
                }
            },
            ChatScope::Room => {
                assert forall|c: int|
                    0 <= c < state.clients@.len() && spec_user(
                        state.users@,
                        (#[trigger] state.clients@[c]).user_id@,
                    ).position.map_id@ == m implies exists|kq: int|
                    0 <= kq < effects@.len() && ((#[trigger] effects@[kq]) matches Effect::Send {
                        to,
                        msg,
                    } && to@ == state.clients@[c].user_id@) by {
                    let id = state.clients@[c].user_id@;
                    assert(exists|kk: int|
                        0 <= kk < users_in_map@.len() && #[trigger] users_in_map@[kk].user_id@
                            == id);
                    let kk = choose|kk: int|
                        0 <= kk < users_in_map@.len() && #[trigger] users_in_map@[kk].user_id@
                            == id;
                    assert(recipients@[kk].user_id@ == id);
                    assert(effects@[kk] matches Effect::Send { to, msg } && to@ == id);
                }
            },
            ChatScope::Local => {
                assert forall|c: int|
                    0 <= c < state.clients@.len() && spec_user(
                        state.users@,
                        (#[trigger] state.clients@[c]).user_id@,
                    ).position.map_id@ == m && (on_street ==> crate::spec_in_box(
                        user.position.x as int,
                        user.position.y as int,
                        spec_user(state.users@, state.clients@[c].user_id@).position.x as int,
                        spec_user(state.users@, state.clients@[c].user_id@).position.y as int,
                        LOCAL_CHAT_WIDTH as int,
                        LOCAL_CHAT_HEIGHT as int,
                    )) implies exists|kq: int|
                    0 <= kq < effects@.len() && ((#[trigger] effects@[kq]) matches Effect::Send {
                        to,
                        msg,
                    } && to@ == state.clients@[c].user_id@) by {
                    let id = state.clients@[c].user_id@;
                    assert(exists|kk: int|
                        0 <= kk < users_in_map@.len() && #[trigger] users_in_map@[kk].user_id@
                            == id);
                    let kk = choose|kk: int|
                        0 <= kk < users_in_map@.len() && #[trigger] users_in_map@[kk].user_id@
                            == id;
                    assert(users_in_map@[kk] == spec_user(state.users@, id));
                    assert(exists|q: int|
                        0 <= q < recipients@.len() && #[trigger] recipients@[q].user_id@ == id);
                    let q = choose|q: int|
                        0 <= q < recipients@.len() && #[trigger] recipients@[q].user_id@ == id;
                    assert(effects@[q] matches Effect::Send { to, msg } && to@ == id);
                }
                assert(effects@.len() >= 1);
                assert(forall|kq: int|
                    0 <= kq < effects@.len() ==> ((#[trigger] effects@[kq]) matches Effect::Send {
                        to,
                        msg: ServerMsg::Chat(c),
                    } && c.from@ == user_id@ && c.scope == ChatScope::Local && is_connected(
                        state.clients@,
                        to@,
                    ) && has_user(state.users@, to@) && spec_user(state.users@, to@).position.map_id@
                        == m && (on_street ==> crate::spec_in_box(
                        user.position.x as int,
                        user.position.y as int,
                        spec_user(state.users@, to@).position.x as int,
                        spec_user(state.users@, to@).position.y as int,
                        LOCAL_CHAT_WIDTH as int,
                        LOCAL_CHAT_HEIGHT as int,
                    ))));
                assert(map_chat_delivered(
                    *state,
                    user_id@,
                    m,
                    ChatScope::Local,
                    on_street,
                    user.position.x as int,
                    user.position.y as int,
                    *payload,
                    effects@,
                ));
            },
        }
    }
    if no_recipients {
        effects.push(send_notice(user_id, "no recipients"));
    }
    effects
}

/// `payload.target` has a live session and stands on map `m`.
pub open spec fn target_on_map(st: ServerState, target: Seq<char>, m: Seq<char>) -> bool {
    exists|c: int|
        0 <= c < st.clients@.len() && (#[trigger] st.clients@[c].user_id@) == target && spec_user(
            st.users@,
            target,
        ).position.map_id@ == m
}

/// Everything `handle_room_key` promises of the forwarded key.
pub open spec fn room_key_post(st: ServerState, user_id: Seq<char>, pl: ClientRoomKey, effects: Seq<Effect>) -> bool {
            let u = spec_user(st.users@, user_id);
            let in_room = u.position.map_id@ == "room/"@ + pl.room_id@;
            let fields_ok = pl.sender_key@.len() > 0 && pl.nonce@.len() > 0
                && pl.ciphertext@.len() > 0;
            if in_room && fields_ok && target_on_map(st, pl.target@, u.position.map_id@) {
                effects.len() == 1 && (effects[0] matches Effect::Send {
                    to,
                    msg: ServerMsg::RoomKey(rk),
                } && to@ == pl.target@ && rk.room_id@ == pl.room_id@ && rk.from@
                    == user_id && rk.sender_key@ == pl.sender_key@ && rk.nonce@
                    == pl.nonce@ && rk.ciphertext@ == pl.ciphertext@)
            } else {
                effects.len() == 1 && eff_is_error(effects[0], user_id, "invalid_command"@)
            }
        }

/// Relay a room key to one fellow occupant of the sender's room. When
/// the sender stands in the named room, the payload fields are
/// non-empty and the target shares the room, exactly one
/// `server.room_key` goes to the target, fields copied verbatim;
/// otherwise the sender gets one error. The relay reads no plaintext
/// and stores nothing.
pub fn handle_room_key(state: &ServerState, user_id: &str, payload: &ClientRoomKey) -> (effects:
    Vec<Effect>)
    requires
        state.wf(),
        is_connected(state.clients@, user_id@),
        has_user(state.users@, user_id@),
    ensures
        room_key_post(*state, user_id@, *payload, effects@),
{
    let user = match state.get_user(user_id) {
        Some(u) => u,
        None => {
            proof {
                assert(false);
            }
            return Vec::new();
        },
    };
    let ghost m = user.position.map_id@;
    let current_room = match strip_prefix_str(user.position.map_id.as_str(), "room/") {
        Some(rest) => rest,
        None => {
            proof {
                if m == "room/"@ + payload.room_id@ {
                    assert(m.subrange(0, "room/"@.len() as int) =~= "room/"@);
                }
            }
            let mut r: Vec<Effect> = Vec::new();
            r.push(send_error(user_id, "invalid_command", "not in a room"));
            return r;
        },
    };
    if !str_eq(payload.room_id.as_str(), current_room) {
        proof {
            if m == "room/"@ + payload.room_id@ {
                assert(current_room@ =~= payload.room_id@) by {
                    reveal_strlit("room/");
                    assert(m =~= "room/"@ + current_room@);
                    assert(forall|q: int|
                        0 <= q < current_room@.len() ==> #[trigger] current_room@[q] == ("room/"@
                            + current_room@)[q + 5]);
                    assert(forall|q: int|
                        0 <= q < payload.room_id@.len() ==> #[trigger] payload.room_id@[q] == ("room/"@
                            + payload.room_id@)[q + 5]);
                }
            }
        }
        let mut r: Vec<Effect> = Vec::new();
        r.push(send_error(user_id, "invalid_command", "room mismatch"));
        return r;
    }
    proof {
        assert(m =~= "room/"@ + payload.room_id@);
    }
    if payload.sender_key.unicode_len() == 0 || payload.ciphertext.unicode_len() == 0
        || payload.nonce.unicode_len() == 0 {
        let mut r: Vec<Effect> = Vec::new();
        r.push(send_error(user_id, "invalid_command", "invalid room key payload"));
        return r;
    }
    let users_in_map = connected_users_in_map(state, user.position.map_id.as_str());
    let mut found = false;
    let mut j: usize = 0;
    let n = users_in_map.len();
    while j < n
        invariant
            j <= n,
            n == users_in_map@.len(),
            state.wf(),
            forall|k: int|
                0 <= k < users_in_map@.len() ==> is_connected(
                    state.clients@,
                    #[trigger] users_in_map@[k].user_id@,
                ) && users_in_map@[k] == spec_user(state.users@, users_in_map@[k].user_id@)
                    && users_in_map@[k].position.map_id@ == m,
            found ==> target_on_map(*state, payload.target@, m),
            !found ==> forall|k: int|
                0 <= k < j ==> #[trigger] users_in_map@[k].user_id@ != payload.target@,
        decreases n - j,
    {
        if !found && str_eq(users_in_map[j].user_id.as_str(), payload.target.as_str()) {
            found = true;
            proof {
                let id = users_in_map@[j as int].user_id@;
                let c = choose|c: int|
                    0 <= c < state.clients@.len() && #[trigger] state.clients@[c].user_id@ == id;
                assert(state.clients@[c].user_id@ == payload.target@);
            }
        }
        j = j + 1;
    }
    if !found {
        proof {
            if target_on_map(*state, payload.target@, m) {
                let c = choose|c: int|
                    0 <= c < state.clients@.len() && (#[trigger] state.clients@[c].user_id@)
                        == payload.target@;
                // the map listing is complete, so the target would be in it
                assert(exists|k: int|
                    0 <= k < users_in_map@.len() && #[trigger] users_in_map@[k].user_id@
                        == state.clients@[c].user_id@);
            }
        }
        let mut r: Vec<Effect> = Vec::new();
        r.push(send_error(user_id, "invalid_command", "target not found in room"));
        return r;
    }
    let mut effects: Vec<Effect> = Vec::new();
    let rk = ServerRoomKey {
        room_id: payload.room_id.clone(),
        from: user_id.to_owned(),
        sender_key: payload.sender_key.clone(),
        nonce: payload.nonce.clone(),
        ciphertext: payload.ciphertext.clone(),
    };
    effects.push(Effect::Send { to: payload.target.clone(), msg: ServerMsg::RoomKey(rk) });
    effects
}

} // verus!
