//! Coordinator for shared listening rooms: a verified model of the room
//! state, the role hierarchy, the registry of rooms and sessions, the
//! command dispatcher, and the codecs the server uses on its wire.

use vstd::prelude::*;

pub mod commands;
pub mod discord;
pub mod random;
pub mod role;
pub mod room;
pub mod room_manager;
pub mod spotify;
pub mod spotify_web_utils;
pub mod utils;
pub mod websocket;
pub mod wire;

verus! {

/// Maximum number of participants a room may hold.
pub const MAX_USERS: usize = 15;

/// Capacity of the ring-buffered room log; the oldest entry is evicted.
pub const MAX_LOGS_LEN: usize = 25;

/// Capacity of the FIFO track queue.
pub const MAX_TRACKS_QUEUE_LEN: usize = 50;

/// Minutes a room may sit with no connected participant before the reaper
/// deletes it.
pub const INACTIVE_ROOM_MINS: u32 = 5;

/// The same inactivity window in seconds, as the reaper measures it.
pub const INACTIVE_ROOM_SECS: u64 = 300;

/// Smallest byte accepted in a user identifier.
pub const MIN_EMAIL_CHAR: char = '-';

/// Largest byte accepted in a user identifier.
pub const MAX_EMAIL_CHAR: char = 'z';

} // verus!
