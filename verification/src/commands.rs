//! The command surface of the chat front end, as a plain tagged variant.
//!
//! The dispatcher that parses chat text produces one of these values; the
//! payload-carrying variants are only built with validated, non-empty
//! arguments, so the session operations never see malformed input.

use vstd::prelude::*;

verus! {

/// One parsed chat command.
#[derive(Clone, Debug, PartialEq)]
pub enum Command {
    /// Greet the caller.
    Start,
    /// Show the command overview.
    Help,
    /// Create a room and become its host.
    Create,
    /// Join the room with the given code.
    Join(String),
    /// Propose the given character.
    Character(String),
    /// Start the preparation phase (host only).
    Play,
    /// Assign the proposed characters (host only).
    Startgame,
    /// Close the room (host only).
    End,
    /// Show the state of all rooms.
    Info,
}

} // verus!
