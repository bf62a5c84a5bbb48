//! Room session manager for a social-deduction party game played over chat:
//! players form rooms, join with a shared code, propose a character, and
//! receive a peer assignment when the game starts.
//!
//! The registry of rooms and every operation on it live here, each with a
//! contract; the chat transport around them only parses commands, hands the
//! resulting plain values to these operations, and delivers the notifications
//! they return.

pub mod commands;
pub mod registry;
pub mod rooms;
pub mod utils;
