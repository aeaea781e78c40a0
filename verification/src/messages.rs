use vstd::prelude::*;

use crate::rooms::{PlayerState, PlayerTransform, Quaternion, Vector3};

verus! {

/// The wire protocol's tagged union. The transport encodes each variant as a
/// self-describing text object whose `type` field is `wire_tag`.
pub enum GameMessage {
    Connect { token: String, game_id: String },
    Disconnect { player_id: String },
    PlayerJoined { player: PlayerState },
    PlayerLeft { player_id: String },
    PlayerUpdate { player_id: String, transform: PlayerTransform },
    ObjectSpawned { object_id: String, object_type: String, position: Vector3, rotation: Quaternion },
    ObjectMoved { object_id: String, position: Vector3, rotation: Quaternion },
    ObjectDestroyed { object_id: String },
    ObjectGrabbed { object_id: String, player_id: String },
    ObjectReleased { object_id: String },
    VoiceData { player_id: String, audio_data: Vec<u8> },
    CustomEvent { event_name: String, data: String },
    Error { message: String },
    Success { message: String },
}

impl GameMessage {
    /// The value of the wire `type` discriminator for this message.
    pub fn wire_tag(&self) -> (r: &'static str)
        ensures
            r@ == match self {
                GameMessage::Connect { .. } => "Connect"@,
                GameMessage::Disconnect { .. } => "Disconnect"@,
                GameMessage::PlayerJoined { .. } => "PlayerJoined"@,
                GameMessage::PlayerLeft { .. } => "PlayerLeft"@,
                GameMessage::PlayerUpdate { .. } => "PlayerUpdate"@,
                GameMessage::ObjectSpawned { .. } => "ObjectSpawned"@,
                GameMessage::ObjectMoved { .. } => "ObjectMoved"@,
                GameMessage::ObjectDestroyed { .. } => "ObjectDestroyed"@,
                GameMessage::ObjectGrabbed { .. } => "ObjectGrabbed"@,
                GameMessage::ObjectReleased { .. } => "ObjectReleased"@,
                GameMessage::VoiceData { .. } => "VoiceData"@,
                GameMessage::CustomEvent { .. } => "CustomEvent"@,
                GameMessage::Error { .. } => "Error"@,
                GameMessage::Success { .. } => "Success"@,
            },
    {
        match self {
            GameMessage::Connect { .. } => "Connect",
            GameMessage::Disconnect { .. } => "Disconnect",
            GameMessage::PlayerJoined { .. } => "PlayerJoined",
            GameMessage::PlayerLeft { .. } => "PlayerLeft",
            GameMessage::PlayerUpdate { .. } => "PlayerUpdate",
            GameMessage::ObjectSpawned { .. } => "ObjectSpawned",
            GameMessage::ObjectMoved { .. } => "ObjectMoved",
            GameMessage::ObjectDestroyed { .. } => "ObjectDestroyed",
            GameMessage::ObjectGrabbed { .. } => "ObjectGrabbed",
            GameMessage::ObjectReleased { .. } => "ObjectReleased",
            GameMessage::VoiceData { .. } => "VoiceData",
            GameMessage::CustomEvent { .. } => "CustomEvent",
            GameMessage::Error { .. } => "Error",
            GameMessage::Success { .. } => "Success",
        }
    }
}

} // verus!
