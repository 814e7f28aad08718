//! Command registry and dispatch core for a chat bot.
//!
//! The crate models the two inbound surfaces of the bot -- plain prefixed
//! text messages and structured slash-style interactions -- routes each
//! event through a registry of commands, builds a normalized execution
//! context for the matched handler, and decides how failures are reported
//! back to the surface the event came from.  Everything here is plain
//! data and pure decisions; the network transport, the gateway and the
//! handler bodies live outside the crate and consume the decisions made
//! here.

pub mod cmd;
pub mod ctx;
pub mod helper;
pub mod novelty;
pub mod slash;
pub mod strutil;
pub mod system;
