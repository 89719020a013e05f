//! Core of a peer-to-peer chat room: the portable room ticket, the wire
//! envelope exchanged over a gossip broadcast, the peer-presence directory,
//! the session log with its rotating archive, and the room synchronizer that
//! turns inbound events and user commands into state changes and outbound
//! envelopes.
use vstd::prelude::*;

pub mod config;
pub mod directory;
pub mod errors;
pub mod gui;
pub mod ident;
pub mod log;
pub mod messaging;
pub mod rng;
pub mod room;
pub mod save;
pub mod text;
pub mod ticket;
pub mod ui;
pub mod wire;

verus! {

/// The number of bytes in a peer identity and in a topic identifier.
pub const ID_LEN: usize = 32;

/// The number of random bytes attached to every envelope.
pub const NONCE_LEN: usize = 16;

} // verus!
