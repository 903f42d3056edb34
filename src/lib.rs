//! Replication core of a multiplayer session with an authoritative server.
//!
//! - [`wire`]: the messages the server sends and their binary encoding, with
//!   decoding proved to invert encoding and to be total.
//! - [`channel`]: the channels both sides must agree on.
//! - [`server`]: the lobby of connected players and the messages it sends as
//!   players join and leave.
//! - [`client`]: the client's mirror of the players, kept consistent across
//!   duplicate, missing and out-of-order lifecycle messages.
//! - [`event`]: the queue that hands game events from connection handling to
//!   the lobby, in order.
//!
//! Entity handles are plain `u64` values and positions hold the bit patterns of
//! their `f32` coordinates; the caller owns the world, the transport and the clock.
use vstd::prelude::*;

pub mod bytes;
pub mod channel;
pub mod client;
pub mod event;
pub mod server;
pub mod wire;

verus! {

/// Protocol identifier shared by both endpoints; a session is refused when they differ.
pub const PROTOCOL_ID: u64 = 1;

} // verus!
