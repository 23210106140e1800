//! Registry and dispatch core of a home-automation controller.
//!
//! The crate keeps two persistent registries: one of devices (logical
//! controllable objects such as an LED) and one of actionners (physical
//! controllers reachable over a wire protocol).  It routes opaque commands
//! from clients to the correct actionner using the correct protocol frame.
//! Network probes and sends are performed by the caller; this crate decides,
//! from their outcomes, what is registered, what is evicted and which bytes
//! go out on the wire.

pub mod actionners;
pub mod codec;
pub mod commands;
pub mod ctl;
pub mod devices;
pub mod handler;
pub mod objects;
pub mod server;
pub mod store;
pub mod text;
