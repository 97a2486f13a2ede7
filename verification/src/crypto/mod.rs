//! Encryption: the Noise handshake of raw TCP links, and TLS material.

pub mod noise;
pub mod tls;
