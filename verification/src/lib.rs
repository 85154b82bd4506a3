//! Device-binding and credential-synchronization core for a supervised
//! contest environment.
//!
//! Each client machine is identified by its hardware (MAC) address, bound
//! to a contestant identity, supplied with that contestant's credentials,
//! and kept alive via periodic heartbeats. This crate holds the verified
//! protocol logic: the identity registry and credential store, the bind,
//! report, sync and status services with their policies, the client-side
//! MAC-target classification and topology validation, the reverse-proxy
//! configuration rendering, and the kiosk session lifecycle.

pub mod auth;
pub mod client;
pub mod config;
pub mod errors;
pub mod monitor;
pub mod netaddr;
pub mod proxy;
pub mod services;
pub mod session;
pub mod store;
pub mod textutil;

pub use client::check_prerequisite;
