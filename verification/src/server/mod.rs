//! The server: configuration, sessions and routing, network setup, admin API.

pub mod config;
pub mod tables;
pub mod router;
pub mod runs;
pub mod laws;
pub mod setup_laws;
pub mod metrics;
pub mod session;
pub mod net;
pub mod web;
pub mod startup;
