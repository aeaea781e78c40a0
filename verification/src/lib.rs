//! The server-side substrate for a room-based real-time multiplayer game:
//! an identity and session-token service, a room registry with an always
//! consistent player-to-room reverse index, broadcast and voice fan-out over
//! room membership, and a per-game matchmaking queue.
//!
//! Room and profile state is held in verified string-keyed maps; password
//! hashing, token signing, timestamps and id generation reach the outside
//! crates through the narrow trusted layer in `trusted`.

pub mod strmap;
pub mod seqs;
pub mod trusted;

pub mod auth;
pub mod session;

pub mod rooms;
pub mod server;
pub mod messages;
pub mod voice;
pub mod matchmaking;
