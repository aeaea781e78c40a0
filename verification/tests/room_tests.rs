use vrserver::messages::GameMessage;
use vrserver::rooms::{PlayerState, PlayerTransform, Quaternion, Vector3};
use vrserver::server::{JoinError, MultiplayerServer};
use vrserver::strmap::StrMap;
use vrserver::voice::VoiceChatServer;

fn vec3(x: f32, y: f32, z: f32) -> Vector3 {
    Vector3 { x: x.to_bits(), y: y.to_bits(), z: z.to_bits() }
}

fn quat(x: f32, y: f32, z: f32, w: f32) -> Quaternion {
    Quaternion { x: x.to_bits(), y: y.to_bits(), z: z.to_bits(), w: w.to_bits() }
}

fn rest_transform() -> PlayerTransform {
    PlayerTransform {
        position: vec3(0.0, 0.0, 0.0),
        rotation: quat(0.0, 0.0, 0.0, 1.0),
        head_position: vec3(0.0, 1.7, 0.0),
        head_rotation: quat(0.0, 0.0, 0.0, 1.0),
        left_hand_position: vec3(-0.3, 1.2, 0.3),
        left_hand_rotation: quat(0.0, 0.0, 0.0, 1.0),
        right_hand_position: vec3(0.3, 1.2, 0.3),
        right_hand_rotation: quat(0.0, 0.0, 0.0, 1.0),
    }
}

fn sample_player(id: &str, name: &str) -> PlayerState {
    PlayerState {
        player_id: id.to_string(),
        username: name.to_string(),
        transform: rest_transform(),
        avatar_url: None,
        is_talking: false,
        custom_data: StrMap::new(),
    }
}

#[test]
fn test_room_creation() {
    let mut server = MultiplayerServer::new();
    let room_id = server.create_room("game123".to_string(), "player1".to_string(), 4);

    assert!(!room_id.is_empty());

    let room = server.get_room(&room_id);
    assert!(room.is_some());
}

#[test]
fn test_player_join() {
    let mut server = MultiplayerServer::new();
    let room_id = server.create_room("game123".to_string(), "host".to_string(), 4);

    let player = PlayerState {
        player_id: "player1".to_string(),
        username: "TestPlayer".to_string(),
        transform: PlayerTransform {
            position: vec3(0.0, 0.0, 0.0),
            rotation: quat(0.0, 0.0, 0.0, 1.0),
            head_position: vec3(0.0, 1.7, 0.0),
            head_rotation: quat(0.0, 0.0, 0.0, 1.0),
            left_hand_position: vec3(-0.3, 1.2, 0.3),
            left_hand_rotation: quat(0.0, 0.0, 0.0, 1.0),
            right_hand_position: vec3(0.3, 1.2, 0.3),
            right_hand_rotation: quat(0.0, 0.0, 0.0, 1.0),
        },
        avatar_url: None,
        is_talking: false,
        custom_data: StrMap::new(),
    };

    let result = server.join_room(&room_id, player);
    assert!(result.is_ok());
}

#[test]
fn capacity_is_enforced() {
    let mut server = MultiplayerServer::new();
    let room_id = server.create_room("g".to_string(), "host".to_string(), 2);

    assert!(server.join_room(&room_id, sample_player("p1", "One")).is_ok());
    assert!(server.join_room(&room_id, sample_player("p2", "Two")).is_ok());
    let third = server.join_room(&room_id, sample_player("p3", "Three"));
    assert_eq!(third, Err(JoinError::RoomFull));

    let players = server.get_room_players(&room_id);
    assert_eq!(players.len(), 2);
    assert_eq!(players[0].player_id, "p1");
    assert_eq!(players[1].player_id, "p2");
}

#[test]
fn join_is_refused_for_unknown_room_and_double_join() {
    let mut server = MultiplayerServer::new();
    let missing = server.join_room("no_such_room", sample_player("p1", "One"));
    assert_eq!(missing, Err(JoinError::RoomNotFound));

    let r1 = server.create_room("g".to_string(), "host".to_string(), 4);
    let r2 = server.create_room("g".to_string(), "host".to_string(), 4);
    assert!(server.join_room(&r1, sample_player("p1", "One")).is_ok());
    let same_room = server.join_room(&r1, sample_player("p1", "One"));
    assert_eq!(same_room, Err(JoinError::AlreadyInRoom));
    let other_room = server.join_room(&r2, sample_player("p1", "One"));
    assert_eq!(other_room, Err(JoinError::AlreadyInRoom));
}

#[test]
fn leave_deletes_empty_room() {
    let mut server = MultiplayerServer::new();
    let room_id = server.create_room("g".to_string(), "host".to_string(), 2);
    assert!(server.join_room(&room_id, sample_player("p1", "One")).is_ok());
    assert!(server.join_room(&room_id, sample_player("p2", "Two")).is_ok());

    assert_eq!(server.leave_room("p1"), Some(room_id.clone()));
    assert!(server.get_room(&room_id).is_some());
    assert_eq!(server.leave_room("p2"), Some(room_id.clone()));
    assert!(server.get_room(&room_id).is_none());
}

#[test]
fn double_leave_is_idempotent() {
    let mut server = MultiplayerServer::new();
    let room_id = server.create_room("g".to_string(), "host".to_string(), 4);
    assert!(server.join_room(&room_id, sample_player("p1", "One")).is_ok());

    assert_eq!(server.leave_room("p1"), Some(room_id));
    assert_eq!(server.leave_room("p1"), None);
    assert_eq!(server.leave_room("never_joined"), None);
}

#[test]
fn update_player_replaces_pose() {
    let mut server = MultiplayerServer::new();
    let room_id = server.create_room("g".to_string(), "host".to_string(), 4);
    assert!(server.join_room(&room_id, sample_player("p1", "One")).is_ok());

    let mut moved = rest_transform();
    moved.position = vec3(1.5, 0.0, -2.0);
    assert_eq!(server.update_player("p1", moved), Some(room_id.clone()));

    let players = server.get_room_players(&room_id);
    assert_eq!(players[0].transform.position, vec3(1.5, 0.0, -2.0));

    assert_eq!(server.update_player("ghost", rest_transform()), None);
}

#[test]
fn find_rooms_lists_public_rooms_with_space() {
    let mut server = MultiplayerServer::new();
    let r1 = server.create_room("g".to_string(), "host".to_string(), 2);
    let r2 = server.create_room("g".to_string(), "host".to_string(), 1);
    let _other_game = server.create_room("h".to_string(), "host".to_string(), 2);
    assert!(server.join_room(&r2, sample_player("p1", "One")).is_ok());

    let found = server.find_rooms("g");
    assert_eq!(found.len(), 1);
    assert_eq!(found[0], (r1.clone(), 0, 2));

    let empty = server.find_rooms("nope");
    assert!(empty.is_empty());
}

#[test]
fn stats_count_rooms_players_and_connections() {
    let mut server = MultiplayerServer::new();
    let r1 = server.create_room("g".to_string(), "host".to_string(), 4);
    let r2 = server.create_room("g".to_string(), "host".to_string(), 4);
    assert!(server.join_room(&r1, sample_player("p1", "One")).is_ok());
    assert!(server.join_room(&r1, sample_player("p2", "Two")).is_ok());
    assert!(server.join_room(&r2, sample_player("p3", "Three")).is_ok());
    server.record_connection("p1", "127.0.0.1:4000".to_string());

    let stats = server.get_stats();
    assert_eq!(stats.total_rooms, 2);
    assert_eq!(stats.total_players, 3);
    assert_eq!(stats.active_connections, 1);

    server.drop_connection("p1");
    assert_eq!(server.get_stats().active_connections, 0);
}

#[test]
fn broadcast_excludes_the_named_player() {
    let mut server = MultiplayerServer::new();
    let room_id = server.create_room("g".to_string(), "host".to_string(), 8);
    assert!(server.join_room(&room_id, sample_player("A", "Aa")).is_ok());
    assert!(server.join_room(&room_id, sample_player("B", "Bb")).is_ok());
    assert!(server.join_room(&room_id, sample_player("C", "Cc")).is_ok());

    let recipients = server.broadcast_to_room(&room_id, Some("B"));
    assert_eq!(recipients, vec!["A".to_string(), "C".to_string()]);

    let all = server.broadcast_to_room(&room_id, None);
    assert_eq!(all, vec!["A".to_string(), "B".to_string(), "C".to_string()]);

    let nobody = server.broadcast_to_room("no_such_room", None);
    assert!(nobody.is_empty());
}

#[test]
fn message_wire_tags_follow_the_schema() {
    let msg = GameMessage::Connect { token: "t".to_string(), game_id: "g".to_string() };
    assert_eq!(msg.wire_tag(), "Connect");
    let msg = GameMessage::VoiceData { player_id: "p".to_string(), audio_data: vec![1, 2, 3] };
    assert_eq!(msg.wire_tag(), "VoiceData");
    let msg = GameMessage::Error { message: "bad".to_string() };
    assert_eq!(msg.wire_tag(), "Error");
}

#[test]
fn voice_channel_fans_out_to_other_enrollees() {
    let mut voice = VoiceChatServer::new();
    voice.join_voice_channel("room1", "A");
    voice.join_voice_channel("room1", "B");
    voice.join_voice_channel("room1", "C");

    let frame: Vec<u8> = vec![10, 20, 30];
    let recipients = voice.broadcast_audio("room1", "B", &frame);
    assert_eq!(recipients, vec!["A".to_string(), "C".to_string()]);

    let silent = voice.broadcast_audio("room2", "A", &frame);
    assert!(silent.is_empty());
}

#[test]
fn voice_channel_is_deleted_when_last_enrollee_leaves() {
    let mut voice = VoiceChatServer::new();
    voice.join_voice_channel("room1", "A");
    voice.join_voice_channel("room1", "B");

    voice.leave_voice_channel("room1", "A");
    let frame: Vec<u8> = vec![1];
    assert_eq!(voice.broadcast_audio("room1", "A", &frame), vec!["B".to_string()]);

    voice.leave_voice_channel("room1", "B");
    assert!(voice.broadcast_audio("room1", "C", &frame).is_empty());

    voice.leave_voice_channel("room_never_seen", "A");
}

#[test]
fn created_rooms_get_distinct_ids() {
    let mut server = MultiplayerServer::new();
    let r1 = server.create_room("g".to_string(), "host".to_string(), 4);
    let r2 = server.create_room("g".to_string(), "host".to_string(), 4);
    let r3 = server.create_room("g".to_string(), "host".to_string(), 4);
    assert_ne!(r1, r2);
    assert_ne!(r1, r3);
    assert_ne!(r2, r3);
    assert_eq!(server.get_stats().total_rooms, 3);
}

#[test]
fn voice_enrollment_is_a_set() {
    let mut voice = VoiceChatServer::new();
    voice.join_voice_channel("room1", "A");
    voice.join_voice_channel("room1", "A");
    voice.join_voice_channel("room1", "B");

    let frame: Vec<u8> = vec![7];
    let recipients = voice.broadcast_audio("room1", "B", &frame);
    assert_eq!(recipients, vec!["A".to_string()]);

    voice.leave_voice_channel("room1", "A");
    assert!(voice.broadcast_audio("room1", "B", &frame).is_empty());
}
