use base64::Engine;
use ed25519_dalek::Signer;
use street_relay::chat::{handle_chat, handle_room_key};
use street_relay::codec::random_challenge;
use street_relay::commands::handle_command;
use street_relay::config::{DevFeeConfig, DevFeeMode, RelayConfig};
use street_relay::map::Position;
use street_relay::messages::{
    ChatScope, ClientAuth, ClientChat, ClientRoomKey, Effect, ServerMsg,
};
use street_relay::movement::handle_move;
use street_relay::physics::Direction;
use street_relay::session::{handle_auth, handle_disconnect, AuthResult};
use street_relay::state::ServerState;
use street_relay::trains::train_tick;
use street_relay::wallet::MockWallet;

fn b64(bytes: &[u8]) -> String {
    base64::engine::general_purpose::STANDARD.encode(bytes)
}

fn test_config() -> RelayConfig {
    RelayConfig {
        bind_addr: "127.0.0.1:0".to_string(),
        data_dir: ".".to_string(),
        dev_fee: DevFeeConfig { mode: DevFeeMode::Bps, value: 100 },
        dev_wallet_pubkey: "dev-wallet-key".to_string(),
        room_price_xmr: "1.0".to_string(),
        username_fee_xmr: "0.5".to_string(),
    }
}

fn auth_user(state: &mut ServerState, wallet: &mut MockWallet, seed: u8) -> (String, String) {
    let signing = ed25519_dalek::SigningKey::from_bytes(&[seed; 32]);
    let pubkey = b64(&signing.verifying_key().to_bytes());
    let challenge = random_challenge();
    let sig = b64(&signing.sign(challenge.as_bytes()).to_bytes());
    let auth = ClientAuth {
        pubkey: pubkey.clone(),
        challenge_sig: sig,
        client_version: "0.1".to_string(),
        x25519_pubkey: None,
    };
    match handle_auth(state, wallet, &challenge, &auth) {
        AuthResult::Accepted { user_id, effects } => {
            // the welcome carries the street spawn tile
            let mut saw_welcome = false;
            for e in &effects {
                if let Effect::Send { msg: ServerMsg::Welcome(w), .. } = e {
                    assert_eq!(w.position.map_id, "street");
                    assert_eq!((w.position.x, w.position.y), (0, 1));
                    assert_eq!(w.session_id.len(), 36);
                    saw_welcome = true;
                }
            }
            assert!(saw_welcome);
            (user_id, pubkey)
        },
        AuthResult::Rejected { .. } => panic!("auth rejected"),
    }
}

fn error_codes(effects: &[Effect]) -> Vec<String> {
    let mut out = Vec::new();
    for e in effects {
        if let Effect::Send { msg: ServerMsg::Error(err), .. } = e {
            out.push(err.code.clone());
        }
    }
    out
}

fn notices(effects: &[Effect]) -> Vec<String> {
    let mut out = Vec::new();
    for e in effects {
        if let Effect::Send { msg: ServerMsg::Notice(n), .. } = e {
            out.push(n.text.clone());
        }
    }
    out
}

fn position_of(state: &ServerState, user_id: &str) -> Position {
    for u in &state.users {
        if u.user_id == user_id {
            return Position { map_id: u.position.map_id.clone(), x: u.position.x, y: u.position.y };
        }
    }
    panic!("no such user");
}

fn presence_map_of(state: &ServerState, user_id: &str) -> Option<String> {
    for (id, map) in &state.presence {
        if id == user_id {
            return Some(map.clone());
        }
    }
    None
}

#[test]
fn fresh_peer_authenticates_and_a_second_session_is_refused() {
    let mut state = ServerState::empty();
    let mut wallet = MockWallet::new();
    let (uid, pubkey) = auth_user(&mut state, &mut wallet, 1);
    assert_eq!(uid, "u_1");
    // a new user starts with the fixed credit
    assert_eq!(wallet.get_balance(&pubkey).unwrap(), "10.00000000");
    assert_eq!(presence_map_of(&state, &uid).as_deref(), Some("street"));

    // the same signing key cannot open a second concurrent session
    let signing = ed25519_dalek::SigningKey::from_bytes(&[1; 32]);
    let challenge = random_challenge();
    let sig = b64(&signing.sign(challenge.as_bytes()).to_bytes());
    let auth = ClientAuth {
        pubkey: pubkey.clone(),
        challenge_sig: sig,
        client_version: "0.1".to_string(),
        x25519_pubkey: None,
    };
    match handle_auth(&mut state, &mut wallet, &challenge, &auth) {
        AuthResult::Rejected { effects } => {
            assert_eq!(error_codes(&effects), vec!["already_connected".to_string()]);
        },
        AuthResult::Accepted { .. } => panic!("second session accepted"),
    }

    // a bad challenge signature fails authentication
    let other = ed25519_dalek::SigningKey::from_bytes(&[2; 32]);
    let challenge2 = random_challenge();
    let bad = ClientAuth {
        pubkey: b64(&other.verifying_key().to_bytes()),
        challenge_sig: b64(&other.sign(b"wrong bytes").to_bytes()),
        client_version: "0.1".to_string(),
        x25519_pubkey: None,
    };
    match handle_auth(&mut state, &mut wallet, &challenge2, &bad) {
        AuthResult::Rejected { effects } => {
            assert_eq!(error_codes(&effects), vec!["auth_failed".to_string()]);
        },
        AuthResult::Accepted { .. } => panic!("bad signature accepted"),
    }
}

#[test]
fn moving_up_from_spawn_enters_the_north_room() {
    let config = test_config();
    let mut state = ServerState::empty();
    let mut wallet = MockWallet::new();
    let (uid, _pk) = auth_user(&mut state, &mut wallet, 3);

    let effects = handle_move(&mut state, &uid, Direction::Up, 1_000, &config);
    let p = position_of(&state, &uid);
    assert_eq!(p.map_id, "room/north:0");
    assert_eq!((p.x, p.y), (16, 14));
    assert_eq!(presence_map_of(&state, &uid).as_deref(), Some("room/north:0"));
    match &effects[0] {
        Effect::Send { to, msg: ServerMsg::MapChange(mc) } => {
            assert_eq!(to, &uid);
            assert_eq!(mc.map_id, "room/north:0");
            assert_eq!((mc.position.x, mc.position.y), (16, 14));
        },
        other => panic!("expected a map change first, got {:?}", other),
    }
    // entering a room also describes it
    assert!(effects.iter().any(|e| matches!(
        e,
        Effect::Send { msg: ServerMsg::RoomInfo(ri), .. } if ri.room_id == "north:0"
    )));
    assert!(effects.iter().any(|e| matches!(e, Effect::SaveRooms)));
}

#[test]
fn walls_block_and_leave_everything_in_place() {
    let config = test_config();
    let mut state = ServerState::empty();
    let mut wallet = MockWallet::new();
    let (uid, _pk) = auth_user(&mut state, &mut wallet, 4);

    // walk right once, to x=1 where the tile above is a wall
    let effects = handle_move(&mut state, &uid, Direction::Right, 1_000, &config);
    assert!(error_codes(&effects).is_empty());
    let before = position_of(&state, &uid);
    assert_eq!((before.x, before.y), (1, 1));

    let blocked = handle_move(&mut state, &uid, Direction::Up, 2_000, &config);
    assert_eq!(error_codes(&blocked), vec!["move_blocked".to_string()]);
    let after = position_of(&state, &uid);
    assert_eq!((after.x, after.y), (1, 1));
    assert_eq!(after.map_id, before.map_id);
}

#[test]
fn a_second_move_inside_the_rate_window_is_dropped() {
    let config = test_config();
    let mut state = ServerState::empty();
    let mut wallet = MockWallet::new();
    let (uid, _pk) = auth_user(&mut state, &mut wallet, 5);

    let first = handle_move(&mut state, &uid, Direction::Right, 1_000, &config);
    assert!(!first.is_empty());
    assert_eq!(position_of(&state, &uid).x, 1);

    // 10 ms later: silently dropped, no reply, no movement
    let second = handle_move(&mut state, &uid, Direction::Right, 1_010, &config);
    assert!(second.is_empty());
    assert_eq!(position_of(&state, &uid).x, 1);

    // 60 ms later it works again
    let third = handle_move(&mut state, &uid, Direction::Right, 1_060, &config);
    assert!(!third.is_empty());
    assert_eq!(position_of(&state, &uid).x, 2);
}

fn plain_chat(scope: ChatScope, text: &str, target: Option<String>) -> ClientChat {
    ClientChat { scope: Some(scope), text: text.to_string(), target, enc: None }
}

fn enc_chat(scope: ChatScope, text: &str, target: Option<String>) -> ClientChat {
    ClientChat {
        scope: Some(scope),
        text: text.to_string(),
        target,
        enc: Some(street_relay::messages::EncryptedPayload {
            alg: "test".to_string(),
            nonce: "n".to_string(),
            ciphertext: "c".to_string(),
            sender_key: Some("k".to_string()),
        }),
    }
}

#[test]
fn whispers_respect_the_five_by_five_box() {
    let mut state = ServerState::empty();
    let mut wallet = MockWallet::new();
    let (u1, _) = auth_user(&mut state, &mut wallet, 6);
    let (u2, _) = auth_user(&mut state, &mut wallet, 7);

    // six tiles away on the x axis: out of range
    state.set_position_and_move(&u2, Position { map_id: "street".to_string(), x: 6, y: 1 });
    let far = handle_chat(&state, &u1, &enc_chat(ChatScope::Whisper, "psst", Some(u2.clone())));
    assert_eq!(notices(&far), vec!["whisper target out of range".to_string()]);

    // two tiles away: delivered to both ends
    state.set_position_and_move(&u2, Position { map_id: "street".to_string(), x: 2, y: 1 });
    let near = handle_chat(&state, &u1, &enc_chat(ChatScope::Whisper, "psst", Some(u2.clone())));
    let mut to: Vec<String> = Vec::new();
    for e in &near {
        if let Effect::Send { to: t, msg: ServerMsg::Chat(c) } = e {
            assert_eq!(c.scope, ChatScope::Whisper);
            to.push(t.clone());
        }
    }
    to.sort();
    assert_eq!(to, vec![u1.clone(), u2.clone()]);

    // a whisper without encryption is refused
    let plain = handle_chat(&state, &u1, &plain_chat(ChatScope::Whisper, "psst", Some(u2)));
    assert_eq!(error_codes(&plain), vec!["invalid_command".to_string()]);
}

#[test]
fn street_chat_reaches_the_local_box_only() {
    let mut state = ServerState::empty();
    let mut wallet = MockWallet::new();
    let (u1, _) = auth_user(&mut state, &mut wallet, 8);
    let (u2, _) = auth_user(&mut state, &mut wallet, 9);
    let (u3, _) = auth_user(&mut state, &mut wallet, 10);
    state.set_position_and_move(&u2, Position { map_id: "street".to_string(), x: 5, y: 1 });
    state.set_position_and_move(&u3, Position { map_id: "street".to_string(), x: 200, y: 1 });

    let effects = handle_chat(&state, &u1, &plain_chat(ChatScope::Local, "hey", None));
    let mut to: Vec<String> = Vec::new();
    for e in &effects {
        if let Effect::Send { to: t, msg: ServerMsg::Chat(_) } = e {
            to.push(t.clone());
        }
    }
    to.sort();
    let mut expected = vec![u1.clone(), u2.clone()];
    expected.sort();
    assert_eq!(to, expected);
}

#[test]
fn room_keys_relay_to_the_target_only() {
    let mut state = ServerState::empty();
    let mut wallet = MockWallet::new();
    let (u1, _) = auth_user(&mut state, &mut wallet, 11);
    let (u2, _) = auth_user(&mut state, &mut wallet, 12);
    state.set_position_and_move(&u1, Position { map_id: "room/north:0".to_string(), x: 16, y: 14 });
    state.set_position_and_move(&u2, Position { map_id: "room/north:0".to_string(), x: 17, y: 14 });

    // the lexicographically smallest id generates the key
    let ids = vec![u1.clone(), u2.clone()];
    assert_eq!(street_relay::peer::room_leader_id(&ids).as_deref(), Some(u1.as_str()));

    let payload = ClientRoomKey {
        room_id: "north:0".to_string(),
        target: u2.clone(),
        sender_key: "sk".to_string(),
        nonce: "n".to_string(),
        ciphertext: "ct".to_string(),
    };
    let effects = handle_room_key(&state, &u1, &payload);
    assert_eq!(effects.len(), 1);
    match &effects[0] {
        Effect::Send { to, msg: ServerMsg::RoomKey(rk) } => {
            assert_eq!(to, &u2);
            assert_eq!(rk.from, u1);
            assert_eq!(rk.room_id, "north:0");
        },
        other => panic!("expected a room key, got {:?}", other),
    }

    // a mismatched room is refused
    let wrong = ClientRoomKey { room_id: "south:3".to_string(), ..payload };
    let refused = handle_room_key(&state, &u1, &wrong);
    assert_eq!(error_codes(&refused), vec!["invalid_command".to_string()]);
}

#[test]
fn an_empty_whitelist_blocks_everyone_but_the_owner() {
    let config = test_config();
    let mut state = ServerState::empty();
    let mut wallet = MockWallet::new();
    let (_u1, pk1) = auth_user(&mut state, &mut wallet, 13);
    let (u2, _pk2) = auth_user(&mut state, &mut wallet, 14);

    // u1 owns north:0 with an empty whitelist
    let room = state.get_or_create_room("north:0", "1.0");
    let idx = state.find_room("north:0").unwrap();
    state.update_room(
        idx,
        street_relay::state::RoomState {
            room_id: room.room_id.clone(),
            owner_pubkey: Some(pk1.clone()),
            price_xmr: room.price_xmr.clone(),
            for_sale: false,
            access: street_relay::messages::AccessPolicy {
                mode: street_relay::messages::AccessMode::Whitelist,
                list: Vec::new(),
            },
            display_name: None,
            door_color: None,
        },
    );

    // u2 walks into the door: denied, nothing moves
    let denied = handle_move(&mut state, &u2, Direction::Up, 1_000, &config);
    assert_eq!(error_codes(&denied), vec!["room_access_denied".to_string()]);
    assert_eq!(position_of(&state, &u2).map_id, "street");

    // whitelisted, the same step succeeds
    let idx = state.find_room("north:0").unwrap();
    let room = state.get_or_create_room("north:0", "1.0");
    let mut list = Vec::new();
    list.push(state.users.iter().find(|u| u.user_id == u2).unwrap().pubkey.clone());
    state.update_room(
        idx,
        street_relay::state::RoomState {
            room_id: room.room_id.clone(),
            owner_pubkey: Some(pk1),
            price_xmr: room.price_xmr.clone(),
            for_sale: false,
            access: street_relay::messages::AccessPolicy {
                mode: street_relay::messages::AccessMode::Whitelist,
                list,
            },
            display_name: None,
            door_color: None,
        },
    );
    let allowed = handle_move(&mut state, &u2, Direction::Up, 2_000, &config);
    assert!(error_codes(&allowed).is_empty());
    assert_eq!(position_of(&state, &u2).map_id, "room/north:0");
}

#[test]
fn boarding_rides_and_disembarks_around_the_ring() {
    let config = test_config();
    let mut state = ServerState::empty();
    let mut wallet = MockWallet::new();
    let (uid, pk) = auth_user(&mut state, &mut wallet, 15);

    // stand in the north station
    state.set_position_and_move(&uid, Position { map_id: "station/0".to_string(), x: 16, y: 14 });
    let args = vec!["east".to_string()];
    let effects = handle_command("board", &args, &mut state, &mut wallet, &uid, &pk, 0, &config);
    assert_eq!(notices(&effects), vec!["waiting for train".to_string()]);
    assert!(state.boarding.iter().any(|(id, req)| id == &uid && req.destination_x == 1024));

    let mut boarded = false;
    let mut disembarked = false;
    for _tick in 0..400 {
        let effects = train_tick(&mut state, 200, false);
        // a user never both waits and rides
        let waits = state.boarding.iter().any(|(id, _)| id == &uid);
        let rides = state.riders.iter().any(|(id, _)| id == &uid);
        assert!(!(waits && rides));
        for n in notices(&effects) {
            if n == "boarded train" {
                boarded = true;
                assert!(position_of(&state, &uid).map_id.starts_with("train/"));
            }
            if n == "disembarked train" {
                disembarked = true;
            }
        }
        if disembarked {
            break;
        }
    }
    assert!(boarded, "no train picked the passenger up");
    assert!(disembarked, "the passenger never arrived");
    let p = position_of(&state, &uid);
    assert_eq!(p.map_id, "station/1024");
    // clockwise arrival stands by the bottom door
    assert_eq!((p.x, p.y), (16, 14));
    assert!(!state.riders.iter().any(|(id, _)| id == &uid));
}

#[test]
fn paying_moves_the_amount_and_the_fee() {
    let config = test_config();
    let mut state = ServerState::empty();
    let mut wallet = MockWallet::new();
    let (u1, pk1) = auth_user(&mut state, &mut wallet, 16);
    let (u2, pk2) = auth_user(&mut state, &mut wallet, 17);
    assert_eq!(wallet.get_balance(&pk1).unwrap(), "10.00000000");

    let args = vec![u2.clone(), "1.0".to_string()];
    let effects = handle_command("pay", &args, &mut state, &mut wallet, &u1, &pk1, 0, &config);
    // with a 100 bps fee: payer down 1.01, payee up 1.0, dev up 0.01
    assert_eq!(wallet.get_balance(&pk1).unwrap(), "8.99000000");
    assert_eq!(wallet.get_balance(&pk2).unwrap(), "11.00000000");
    assert_eq!(wallet.get_balance("dev-wallet-key").unwrap(), "0.01000000");
    assert!(effects.iter().any(|e| matches!(
        e,
        Effect::Send { msg: ServerMsg::TxUpdate(t), .. }
            if t.status == "pending" && t.confirmations == 0
    )));
    // the balance notice quotes the exact form peers parse
    assert!(notices(&effects).iter().any(|n| n == "balance: 8.99000000 XMR"));
}

#[test]
fn names_are_claimed_once() {
    let config = test_config();
    let mut state = ServerState::empty();
    let mut wallet = MockWallet::new();
    let (u1, pk1) = auth_user(&mut state, &mut wallet, 18);
    let (u2, pk2) = auth_user(&mut state, &mut wallet, 19);

    let args = vec!["zed".to_string()];
    let ok = handle_command("claim_name", &args, &mut state, &mut wallet, &u1, &pk1, 0, &config);
    assert!(notices(&ok).iter().any(|n| n == "name updated"));
    assert!(state.users.iter().any(|u| u.user_id == u1
        && u.display_name.as_deref() == Some("zed")));

    let dup = handle_command("claim_name", &args, &mut state, &mut wallet, &u2, &pk2, 0, &config);
    assert_eq!(error_codes(&dup), vec!["invalid_command".to_string()]);
}

#[test]
fn buying_a_room_transfers_ownership() {
    let config = test_config();
    let mut state = ServerState::empty();
    let mut wallet = MockWallet::new();
    let (u1, pk1) = auth_user(&mut state, &mut wallet, 20);
    // walk into the room first
    handle_move(&mut state, &u1, Direction::Up, 1_000, &config);
    assert_eq!(position_of(&state, &u1).map_id, "room/north:0");

    let args: Vec<String> = Vec::new();
    let effects = handle_command("buy", &args, &mut state, &mut wallet, &u1, &pk1, 0, &config);
    assert!(effects.iter().any(|e| matches!(
        e,
        Effect::Send { msg: ServerMsg::TxUpdate(t), .. }
            if t.status == "confirmed" && t.confirmations == 8
    )));
    let idx = state.find_room("north:0").unwrap();
    assert_eq!(state.rooms[idx].owner_pubkey.as_deref(), Some(pk1.as_str()));
    assert!(!state.rooms[idx].for_sale);
    // price 1.0 plus 100 bps fee
    assert_eq!(wallet.get_balance(&pk1).unwrap(), "8.99000000");

    // a second purchase finds nothing for sale
    let again = handle_command("buy", &args, &mut state, &mut wallet, &u1, &pk1, 0, &config);
    assert_eq!(error_codes(&again), vec!["invalid_command".to_string()]);
}

#[test]
fn presence_follows_the_user_and_ends_with_the_session() {
    let config = test_config();
    let mut state = ServerState::empty();
    let mut wallet = MockWallet::new();
    let (u1, _pk) = auth_user(&mut state, &mut wallet, 21);
    assert_eq!(presence_map_of(&state, &u1).as_deref(), Some("street"));

    handle_move(&mut state, &u1, Direction::Up, 1_000, &config);
    assert_eq!(presence_map_of(&state, &u1).as_deref(), Some("room/north:0"));
    // listed under exactly one map
    assert_eq!(state.presence.iter().filter(|(id, _)| id == &u1).count(), 1);

    let effects = handle_disconnect(&mut state, &u1);
    assert!(presence_map_of(&state, &u1).is_none());
    assert!(!state.clients.iter().any(|c| c.user_id == u1));
    assert!(effects.iter().any(|e| matches!(e, Effect::SaveUsers)));
    assert!(effects.iter().any(|e| matches!(e, Effect::SaveRooms)));
}

#[test]
fn worlds_restore_from_stored_records() {
    let mut state = ServerState::empty();
    let mut wallet = MockWallet::new();
    let (u1, _) = auth_user(&mut state, &mut wallet, 22);
    handle_move(&mut state, &u1, Direction::Up, 1_000, &test_config());

    let users: Vec<street_relay::state::UserState> = state.users.clone();
    let rooms: Vec<street_relay::state::RoomState> = state.rooms.clone();
    let restored = ServerState::new(users, rooms);
    assert_eq!(restored.users.len(), 1);
    assert_eq!(restored.users[0].user_id, u1);
    assert_eq!(restored.rooms.len(), state.rooms.len());
    assert!(restored.clients.is_empty());
    // the id counter continues past the stored ids
    assert_eq!(restored.next_user_id, 2);
}

#[test]
fn door_colors_ignore_ascii_case_and_store_lowercase() {
    let config = test_config();
    let mut state = ServerState::empty();
    let mut wallet = MockWallet::new();
    let (u1, pk1) = auth_user(&mut state, &mut wallet, 30);
    handle_move(&mut state, &u1, Direction::Up, 1_000, &config);
    let no_args: Vec<String> = Vec::new();
    handle_command("buy", &no_args, &mut state, &mut wallet, &u1, &pk1, 0, &config);
    // stand beside the customizer
    state.set_position_and_move(&u1, Position { map_id: "room/north:0".to_string(), x: 2, y: 1 });

    let args = vec!["RED".to_string()];
    let effects = handle_command("door_color", &args, &mut state, &mut wallet, &u1, &pk1, 0, &config);
    assert!(error_codes(&effects).is_empty());
    let idx = state.find_room("north:0").unwrap();
    assert_eq!(state.rooms[idx].door_color.as_deref(), Some("red"));

    let args = vec!["Magenta".to_string()];
    let effects = handle_command("door_color", &args, &mut state, &mut wallet, &u1, &pk1, 0, &config);
    assert!(error_codes(&effects).is_empty());
    let idx = state.find_room("north:0").unwrap();
    assert_eq!(state.rooms[idx].door_color.as_deref(), Some("magenta"));

    let args = vec!["chartreuse".to_string()];
    let effects = handle_command("door_color", &args, &mut state, &mut wallet, &u1, &pk1, 0, &config);
    assert_eq!(error_codes(&effects), vec!["invalid_command".to_string()]);
}

#[test]
fn buying_pays_the_prior_owner_and_the_dev_wallet() {
    let config = test_config();
    let mut state = ServerState::empty();
    let mut wallet = MockWallet::new();
    let (u1, pk1) = auth_user(&mut state, &mut wallet, 31);
    let (_u2, pk2) = auth_user(&mut state, &mut wallet, 32);

    // the prior owner relists north:0 at 2.0
    let room = state.get_or_create_room("north:0", "1.0");
    let idx = state.find_room("north:0").unwrap();
    state.update_room(
        idx,
        street_relay::state::RoomState {
            room_id: room.room_id.clone(),
            owner_pubkey: Some(pk2.clone()),
            price_xmr: "2.0".to_string(),
            for_sale: true,
            access: room.access.clone(),
            display_name: None,
            door_color: None,
        },
    );

    handle_move(&mut state, &u1, Direction::Up, 1_000, &config);
    assert_eq!(position_of(&state, &u1).map_id, "room/north:0");
    let no_args: Vec<String> = Vec::new();
    let effects = handle_command("buy", &no_args, &mut state, &mut wallet, &u1, &pk1, 0, &config);

    // price to the seller, the 100 bps fee to the dev wallet
    assert_eq!(wallet.get_balance(&pk1).unwrap(), "7.98000000");
    assert_eq!(wallet.get_balance(&pk2).unwrap(), "12.00000000");
    assert_eq!(wallet.get_balance("dev-wallet-key").unwrap(), "0.02000000");
    // the buyer is told the room's new state and the new balance
    assert!(effects.iter().any(|e| matches!(
        e,
        Effect::Send { to, msg: ServerMsg::RoomInfo(p) }
            if to == &u1 && p.room_id == "north:0" && !p.for_sale
    )));
    assert!(notices(&effects).iter().any(|n| n == "balance: 7.98000000 XMR"));
}
