//! The client: profiles, chains, the engine, routing, and the local proxy.

pub mod config;
pub mod chain;
pub mod engine;
pub mod proxy;
pub mod socks;
pub mod sysproxy;
pub mod netcfg;
pub mod latency;
pub mod laws;
