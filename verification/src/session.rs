//! The per-connection session machine: the hello/challenge handshake,
//! find-or-create on first auth, the one-session-per-user rule, the
//! signature check on live messages, and the disconnect cleanup.
//! The network shell delivers the returned effects; whatever comes
//! back before authentication goes to the connecting socket itself.
use vstd::prelude::*;

use crate::broadcast::{refresh_nearby_for_map, train_state_effect};
use crate::chat::{handle_chat, handle_room_key};
use crate::codec::{b64_decode, verify_signature, Envelope, SigError};
use crate::commands::{handle_command, handle_room_access};
use crate::config::RelayConfig;
use crate::messages::{
    eff_is_error, eff_is_notice, send_error, send_notice, ClientAuth, ClientChat, ClientCommand, ClientMove,
    ClientRoomAccessUpdate, ClientRoomKey, DevFeeConfig, Effect, ServerHello, ServerMsg,
    ServerWelcome,
};
use crate::movement::handle_move;
use crate::state::{has_user, is_connected, spec_user, ServerState};
use crate::text::{str_eq, strip_prefix_str};
use crate::wallet::MockWallet;

verus! {

/// New users start with this many atomic units.
pub const STARTING_CREDIT_UNITS: u64 = 1000000000;

/// Everything `client.*` must be signed except the auth itself and
/// heartbeats; nothing else needs a signature.
pub open spec fn spec_requires_signature(t: Seq<char>) -> bool {
    &&& t != "client.auth"@
    &&& t != "client.heartbeat"@
    &&& t.len() >= "client."@.len() && t.subrange(0, "client."@.len() as int) == "client."@
}

pub fn requires_signature(message_type: &str) -> (r: bool)
    ensures
        r == spec_requires_signature(message_type@),
{
    if str_eq(message_type, "client.auth") || str_eq(message_type, "client.heartbeat") {
        return false;
    }
    match strip_prefix_str(message_type, "client.") {
        Some(rest) => {
            proof {
                assert(message_type@.subrange(0, "client."@.len() as int) =~= "client."@);
            }
            true
        },
        None => false,
    }
}

/// The greeting sent on connect, carrying the fresh challenge and the
/// fee terms.
pub fn hello_message(config: &RelayConfig, challenge: &str) -> (r: ServerHello)
    ensures
        r.challenge@ == challenge@,
        r.fee_config.mode@ == crate::config::spec_fee_mode_str(config.dev_fee.mode),
        r.fee_config.value == config.dev_fee.value,
        r.room_price_xmr@ == config.room_price_xmr@,
        r.username_fee_xmr@ == config.username_fee_xmr@,
{
    ServerHello {
        server_version: String::from_str("0.1"),
        challenge: challenge.to_owned(),
        fee_config: DevFeeConfig {
            mode: config.dev_fee.mode.as_str().to_owned(),
            value: config.dev_fee.value,
        },
        room_price_xmr: config.room_price_xmr.clone(),
        username_fee_xmr: config.username_fee_xmr.clone(),
    }
}

/// What authentication came to.
pub enum AuthResult {
    /// The session is live for this user.
    Accepted { user_id: String, effects: Vec<Effect> },
    /// The attempt is rejected and the connection closes.
    Rejected { effects: Vec<Effect> },
}

/// The challenge signature verifies under the claimed key: both fields
/// decode from base64 and strict verification accepts.
pub open spec fn auth_sig_ok(pubkey_b64: Seq<char>, challenge: Seq<char>, sig_b64: Seq<char>)
    -> bool {
    match (
        crate::codec::b64_decode_spec(pubkey_b64),
        crate::codec::b64_decode_spec(sig_b64),
    ) {
        (Some(pk), Some(sb)) => crate::codec::ed25519_valid(
            pk,
            vstd::utf8::encode_utf8(challenge),
            sb,
        ),
        _ => false,
    }
}

/// This signing key's user already holds a live session.
pub open spec fn auth_already_connected(st: ServerState, pubkey: Seq<char>) -> bool {
    crate::state::has_pubkey(st.users@, pubkey) && is_connected(
        st.clients@,
        crate::state::spec_user_by_pubkey(st.users@, pubkey).user_id@,
    )
}

/// First message of a connection: check the challenge signature,
/// find or create the user, refuse a second session, and greet.
/// Acceptance happens exactly when the signature verifies, no session
/// exists for the key's user, and (for a new key) an identifier is
/// left to assign.
pub fn handle_auth(
    state: &mut ServerState,
    wallet: &mut MockWallet,
    challenge: &str,
    auth: &ClientAuth,
) -> (r: AuthResult)
    requires
        old(state).wf(),
        old(wallet).wf(),
    ensures
        final(state).wf(),
        final(wallet).wf(),
        ({
            let sig_ok = auth_sig_ok(auth.pubkey@, challenge@, auth.challenge_sig@);
            let already = auth_already_connected(*old(state), auth.pubkey@);
            let known = crate::state::has_pubkey(old(state).users@, auth.pubkey@);
            let id_room = known || old(state).next_user_id < u64::MAX - 1;
            &&& ((r is Accepted) <==> (sig_ok && !already && id_room))
            &&& (!sig_ok ==> (r matches AuthResult::Rejected { effects } && effects@.len() == 1
                && eff_is_error(effects@[0], ""@, "auth_failed"@) && *final(state) == *old(state)
                && *final(wallet) == *old(wallet)))
            &&& (sig_ok && already ==> (r matches AuthResult::Rejected { effects } && effects@.len()
                == 1 && eff_is_error(effects@[0], ""@, "already_connected"@) && final(state).clients@ == old(state).clients@ && final(state).presence@ == old(state).presence@
                && final(state).boarding@ == old(state).boarding@ && final(state).riders@ == old(state).riders@))
            &&& (sig_ok && !already && !id_room ==> (r matches AuthResult::Rejected { effects }
                && effects@.len() == 1 && eff_is_error(effects@[0], ""@, "auth_failed"@)))
            &&& match r {
                AuthResult::Accepted { user_id, effects } => {
                    &&& is_connected(final(state).clients@, user_id@)
                    &&& has_user(final(state).users@, user_id@)
                    &&& spec_user(final(state).users@, user_id@).pubkey@ == auth.pubkey@
                    &&& !is_connected(old(state).clients@, user_id@)
                    &&& crate::state::present_on(
                        final(state).presence@,
                        user_id@,
                        spec_user(final(state).users@, user_id@).position.map_id@,
                    )
                    &&& effects@.len() >= 2
                    &&& (effects@[0] matches Effect::Send { to, msg: ServerMsg::Welcome(w) } && to@
                        == user_id@ && w.client_id@ == user_id@ && w.session_id@.len() == 36
                        && w.position.map_id@ == spec_user(
                        final(state).users@,
                        user_id@,
                    ).position.map_id@ && w.position.x == spec_user(
                        final(state).users@,
                        user_id@,
                    ).position.x && w.position.y == spec_user(
                        final(state).users@,
                        user_id@,
                    ).position.y)
                    &&& (effects@[1] matches Effect::Send { to, msg: ServerMsg::TrainState(ts) }
                        && to@ == user_id@)
                },
                AuthResult::Rejected { effects } => {
                    effects@.len() >= 1
                },
            }
        }),
{
    // the challenge signature must verify under the claimed key
    if !verify_signature(auth.pubkey.as_str(), challenge.as_bytes(), auth.challenge_sig.as_str()) {
        let mut effects: Vec<Effect> = Vec::new();
        effects.push(send_error("", "auth_failed", "invalid challenge signature"));
        return AuthResult::Rejected { effects };
    }
    let ghost known = crate::state::has_pubkey(state.users@, auth.pubkey@);
    let ghost already = auth_already_connected(*state, auth.pubkey@);
    let existing = state.find_user_by_pubkey(auth.pubkey.as_str());
    let user = match existing {
        Some(i) => {
            proof {
                crate::state::lemma_user_by_pubkey_at(state.users@, auth.pubkey@, i as int);
            }
            state.users[i].clone()
        },
        None => {
            if state.next_user_id >= u64::MAX - 1 {
                let mut effects: Vec<Effect> = Vec::new();
                effects.push(send_error("", "auth_failed", "no identifiers left"));
                return AuthResult::Rejected { effects };
            }
            let user = state.create_user(auth.pubkey.as_str());
            wallet.credit(auth.pubkey.as_str(), STARTING_CREDIT_UNITS);
            proof {
                // the fresh canonical id belongs to no session: every
                // session's user exists, and no user carries it
                assert(!is_connected(state.clients@, user.user_id@)) by {
                    if is_connected(state.clients@, user.user_id@) {
                        let c = choose|c: int|
                            0 <= c < state.clients@.len()
                                && (#[trigger] state.clients@[c].user_id@) == user.user_id@;
                        assert(has_user(old(state).users@, state.clients@[c].user_id@));
                        let j = choose|j: int|
                            0 <= j < old(state).users@.len()
                                && (#[trigger] old(state).users@[j].user_id@) == user.user_id@;
                        assert(old(state).users@[j].user_id@ != "u_"@ + crate::text::dec_digits(
                            old(state).next_user_id as int,
                        ));
                    }
                }
            }
            user
        },
    };
    // record a key-exchange key offered at this auth
    if let Some(xk) = &auth.x25519_pubkey {
        if let Some(i) = state.find_user(user.user_id.as_str()) {
            let stored = &state.users[i];
            let updated = crate::state::UserState {
                user_id: stored.user_id.clone(),
                pubkey: stored.pubkey.clone(),
                display_name: crate::state::clone_opt_string(&stored.display_name),
                position: stored.position.clone(),
                x25519_pubkey: Some(xk.clone()),
            };
            state.update_user_same_map(i, updated);
        }
    }
    if state.is_client(user.user_id.as_str()) {
        proof {
            assert(already);
        }
        let mut effects: Vec<Effect> = Vec::new();
        effects.push(send_error("", "already_connected", "user already connected"));
        return AuthResult::Rejected { effects };
    }
    proof {
        assert(!already);
    }
    let fresh = match state.find_user(user.user_id.as_str()) {
        Some(i) => {
            proof {
                crate::state::lemma_user_at(state.users@, user.user_id@, i as int);
            }
            state.users[i].clone()
        },
        None => {
            proof {
                assert(false);
            }
            return AuthResult::Rejected { effects: Vec::new() };
        },
    };
    state.add_session(fresh.user_id.as_str(), fresh.pubkey.as_str());
    let session_id = crate::codec::fresh_id();
    let welcome = ServerWelcome {
        client_id: fresh.user_id.clone(),
        display_name: crate::state::clone_opt_string(&fresh.display_name),
        position: crate::messages::Position {
            map_id: fresh.position.map_id.clone(),
            x: fresh.position.x,
            y: fresh.position.y,
        },
        session_id,
    };
    let mut effects: Vec<Effect> = Vec::new();
    effects.push(
        Effect::Send { to: fresh.user_id.clone(), msg: ServerMsg::Welcome(welcome) },
    );
    effects.push(train_state_effect(fresh.user_id.as_str(), &state.trains));
    let mut nb = refresh_nearby_for_map(state, fresh.position.map_id.as_str());
    effects.append(&mut nb);
    AuthResult::Accepted { user_id: fresh.user_id.clone(), effects }
}

/// The message may be handled: its type needs no signature, or the
/// envelope's signature verifies under the session's key.
pub open spec fn envelope_gate_ok(envelope: Envelope, pubkey_b64: Seq<char>) -> bool {
    ||| !spec_requires_signature(envelope.message_type@)
    ||| (crate::codec::b64_decode_spec(pubkey_b64) matches Some(pk)
        && crate::codec::spec_verify_envelope(
        envelope.message_type@,
        envelope.id@,
        envelope.ts as int,
        envelope.payload@,
        match envelope.sig {
            Some(sg) => Some(sg@),
            None => None,
        },
        pk,
    ) == Ok::<bool, crate::codec::SigError>(true))
}

/// A live message from an authenticated user: check its signature
/// where one is required, then dispatch by type. An unsigned or
/// wrongly signed message draws `invalid_signature` and changes
/// nothing; a signature that cannot even be decoded ends the session
/// (`Err`); heartbeats answer `pong`, unknown types `invalid_command`.
pub fn handle_envelope(
    state: &mut ServerState,
    wallet: &mut MockWallet,
    user_id: &str,
    pubkey_b64: &str,
    envelope: &Envelope,
    payload: &ClientPayload,
    now: i64,
    config: &RelayConfig,
) -> (r: Result<Vec<Effect>, SigError>)
    requires
        old(state).wf(),
        old(wallet).wf(),
        is_connected(old(state).clients@, user_id@),
        has_user(old(state).users@, user_id@),
    ensures
        final(state).wf(),
        final(wallet).wf(),
        ({
            let needs = spec_requires_signature(envelope.message_type@);
            let pk_dec = crate::codec::b64_decode_spec(pubkey_b64@);
            let sig_view = match envelope.sig {
                Some(sg) => Some(sg@),
                None => None,
            };
            &&& (needs && pk_dec is None ==> r is Err)
            &&& (needs ==> (pk_dec matches Some(pk) ==> {
                let v = crate::codec::spec_verify_envelope(
                    envelope.message_type@,
                    envelope.id@,
                    envelope.ts as int,
                    envelope.payload@,
                    sig_view,
                    pk,
                );
                &&& (v is Err ==> r is Err)
                &&& (v == Ok::<bool, crate::codec::SigError>(false) ==> (r matches Ok(effs)
                    && effs@.len() == 1 && eff_is_error(effs@[0], user_id@, "invalid_signature"@)
                    && *final(state) == *old(state) && *final(wallet) == *old(wallet)))
            }))
            &&& (envelope_gate_ok(*envelope, pubkey_b64@) && payload is Heartbeat ==> (r matches Ok(effs) && effs@.len() == 1 && eff_is_notice(effs@[0], user_id@, "pong"@) && *final(state)
                == *old(state) && *final(wallet) == *old(wallet)))
            &&& (envelope_gate_ok(*envelope, pubkey_b64@) && payload is Unknown ==> (r matches Ok(effs) && effs@.len() == 1 && eff_is_error(effs@[0], user_id@, "invalid_command"@) && *final(state) == *old(state) && *final(wallet) == *old(wallet)))
            &&& (envelope_gate_ok(*envelope, pubkey_b64@) ==> {
                &&& ((*payload) matches ClientPayload::Move(mm) ==> (r matches Ok(effs)
                    && crate::movement::move_post(
                    *old(state),
                    *final(state),
                    user_id@,
                    crate::messages::spec_world_dir(mm.dir),
                    now,
                    effs@,
                ) && *final(wallet) == *old(wallet)))
                &&& ((*payload) matches ClientPayload::Chat(cc) ==> (r matches Ok(effs)
                    && crate::chat::chat_post(*old(state), user_id@, cc, effs@) && *final(state)
                    == *old(state) && *final(wallet) == *old(wallet)))
                &&& ((*payload) matches ClientPayload::Command(cc) ==> (r matches Ok(effs)
                    && crate::commands::command_post(
                    *old(state),
                    *final(state),
                    *old(wallet),
                    *final(wallet),
                    user_id@,
                    pubkey_b64@,
                    cc.name@,
                    cc.args@,
                    *config,
                    effs@,
                )))
                &&& ((*payload) matches ClientPayload::RoomAccessUpdate(uu) ==> (r matches Ok(effs)
                    && crate::commands::room_access_post(
                    *old(state),
                    *final(state),
                    uu.room_id@,
                    uu.mode,
                    uu.list@,
                    user_id@,
                    pubkey_b64@,
                    effs@,
                ) && *final(wallet) == *old(wallet)))
                &&& ((*payload) matches ClientPayload::RoomKey(kk) ==> (r matches Ok(effs)
                    && crate::chat::room_key_post(*old(state), user_id@, kk, effs@)
                    && *final(state) == *old(state) && *final(wallet) == *old(wallet)))
            })
        }),
{
    if requires_signature(envelope.message_type.as_str()) {
        let pk = match b64_decode(pubkey_b64) {
            Some(v) => v,
            None => {
                proof {
                    if crate::codec::b64_decode_spec(pubkey_b64@) is Some {
                        let b = choose|b: Seq<u8>| crate::codec::b64_of(b) == pubkey_b64@;
                    }
                }
                return Err(SigError::BadEncoding);
            },
        };
        proof {
            assert(crate::codec::b64_decode_spec(pubkey_b64@) == Some(pk@)) by {
                assert(crate::codec::b64_of(pk@) == pubkey_b64@);
            }
        }
        match crate::codec::verify_envelope(envelope, pk.as_slice()) {
            Ok(true) => {},
            Ok(false) => {
                let mut effects: Vec<Effect> = Vec::new();
                effects.push(send_error(user_id, "invalid_signature", "signature required"));
                return Ok(effects);
            },
            Err(e) => {
                return Err(e);
            },
        }
    }
    let effects = match payload {
        ClientPayload::Move(m) => handle_move(state, user_id, m.dir.to_world(), now, config),
        ClientPayload::Chat(c) => handle_chat(state, user_id, c),
        ClientPayload::Command(c) => handle_command(
            c.name.as_str(),
            &c.args,
            state,
            wallet,
            user_id,
            pubkey_b64,
            now,
            config,
        ),
        ClientPayload::RoomAccessUpdate(u) => handle_room_access(
            &u.room_id,
            u.mode,
            &u.list,
            state,
            user_id,
            pubkey_b64,
            config,
        ),
        ClientPayload::RoomKey(k) => handle_room_key(state, user_id, k),
        ClientPayload::Heartbeat => {
            let mut effects: Vec<Effect> = Vec::new();
            effects.push(send_notice(user_id, "pong"));
            effects
        },
        ClientPayload::Unknown => {
            let mut effects: Vec<Effect> = Vec::new();
            effects.push(send_error(user_id, "invalid_command", "unknown message type"));
            effects
        },
    };
    Ok(effects)
}

/// A decoded client payload, matched to its envelope type by the shell.
pub enum ClientPayload {
    Move(ClientMove),
    Chat(ClientChat),
    Command(ClientCommand),
    RoomAccessUpdate(ClientRoomAccessUpdate),
    RoomKey(ClientRoomKey),
    Heartbeat,
    Unknown,
}

/// The end of a session: the user leaves the presence index, its
/// boarding request and ride die with it, and the world is saved.
pub fn handle_disconnect(state: &mut ServerState, user_id: &str) -> (effects: Vec<Effect>)
    requires
        old(state).wf(),
    ensures
        final(state).wf(),
        !is_connected(final(state).clients@, user_id@),
        (crate::state::kv_get(final(state).presence@, user_id@) is None),
        (crate::state::kv_get(final(state).boarding@, user_id@) is None),
        (crate::state::kv_get(final(state).riders@, user_id@) is None),
        final(state).users@ == old(state).users@,
        final(state).rooms@ == old(state).rooms@,
        // the records are persisted, and the map left is refreshed
        effects@.len() >= 2,
        effects@[effects@.len() - 2] is SaveUsers,
        effects@[effects@.len() - 1] is SaveRooms,
        has_user(old(state).users@, user_id@) ==> ({
            let m = spec_user(old(state).users@, user_id@).position.map_id@;
            &&& forall|e: int|
                0 <= e < effects@.len() - 2 ==> crate::broadcast::nearby_effect_ok(
                    #[trigger] effects@[e],
                    final(state).clients@,
                    final(state).users@,
                    m,
                )
            &&& crate::broadcast::nearby_refresh_complete(effects@, *final(state), m)
        }),
        !has_user(old(state).users@, user_id@) ==> effects@.len() == 2,
{
    let map_id: Option<String> = match state.get_user(user_id) {
        Some(u) => Some(u.position.map_id),
        None => None,
    };
    state.remove_session(user_id);
    let mut effects: Vec<Effect> = Vec::new();
    if let Some(m) = map_id {
        let mut nb = refresh_nearby_for_map(state, m.as_str());
        let ghost nbv = nb@;
        effects.append(&mut nb);
        effects.push(Effect::SaveUsers);
        effects.push(Effect::SaveRooms);
        proof {
            assert(forall|e: int| 0 <= e < nbv.len() ==> #[trigger] effects@[e] == nbv[e]);
            crate::broadcast::lemma_nearby_complete_embed(nbv, effects@, *state, m@, 0);
        }
        return effects;
    }
    effects.push(Effect::SaveUsers);
    effects.push(Effect::SaveRooms);
    effects
}

} // verus!
