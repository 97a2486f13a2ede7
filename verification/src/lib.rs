//! A self-hosted VPN and proxy core: the protocol, transports, and the client
//! and server logic, as functions on plain values.

pub mod addr;
pub mod bytes;
pub mod cli;
pub mod client;
pub mod cmd;
pub mod config;
pub mod crypto;
pub mod desktop;
pub mod error;
pub mod logs;
pub mod mobile;
pub mod protocol;
pub mod server;
pub mod text;
pub mod transport;
pub mod tun;

use vstd::prelude::*;

verus! {

/// Raised on incompatible wire changes; checked in the `Hello` handshake.
pub const PROTOCOL_VERSION: u16 = 2;

/// Upper bound on a single length-delimited message.
pub const MAX_MESSAGE_LEN: usize = 0x4_0000;

/// Default tunnel MTU.
pub const DEFAULT_MTU: u16 = 1380;

/// Idle keepalive interval.
pub const KEEPALIVE_SECS: u64 = 15;

/// A link is considered dead after this long without traffic.
pub const DEAD_LINK_SECS: u64 = 45;

/// Noise pattern of the raw TCP channel.
pub const NOISE_PATTERN: &'static str = "Noise_NNpsk0_25519_ChaChaPoly_BLAKE2s";

}
