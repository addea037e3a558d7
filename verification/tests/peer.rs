use street_relay::peer::{room_key_context, room_leader_id, whisper_context, ChatInputMode};

#[test]
fn chat_input_mode_toggles() {
    assert_eq!(ChatInputMode::Say.next(), ChatInputMode::Whisper);
    assert_eq!(ChatInputMode::Whisper.next(), ChatInputMode::Say);
}

#[test]
fn contexts_are_order_independent() {
    assert_eq!(whisper_context("u_2", "u_1"), "whisper:u_1:u_2");
    assert_eq!(whisper_context("u_1", "u_2"), "whisper:u_1:u_2");
    assert_eq!(room_key_context("north:0", "u_9", "u_10"), "room-key:north:0:u_10:u_9");
    assert_eq!(
        room_key_context("north:0", "u_10", "u_9"),
        room_key_context("north:0", "u_9", "u_10")
    );
}

#[test]
fn the_smallest_id_leads() {
    let ids = vec!["u_3".to_string(), "u_1".to_string(), "u_2".to_string()];
    assert_eq!(room_leader_id(&ids).as_deref(), Some("u_1"));
    let empty: Vec<String> = Vec::new();
    assert_eq!(room_leader_id(&empty), None);
}
