//! Verified core of a LAN remote-control manager.
//!
//! A device on a flat LAN exposes a password-gated control surface
//! (shutdown, restart, lock, custom commands) to its peers.  This crate
//! holds the trust-and-identity logic of that system: the
//! challenge/password login protocol with time-bounded session tokens,
//! the command-authorization gate, the mDNS-fed device registry that
//! re-identifies a device across address churn, the address blacklist
//! checked before any protocol logic, and the per-connection realtime
//! channel.  All of it is specified and proved with Verus; the network,
//! file and process edges live outside, in an unverified shell that
//! hands this crate plain values.

pub mod access;
pub mod auth;
pub mod challenge;
pub mod channel;
pub mod client;
pub mod command;
pub mod config;
pub mod credential;
pub mod crypto;
pub mod device_id;
pub mod discovery;
pub mod logbuf;
pub mod models;
pub mod registry;
pub mod session;
pub mod text;
