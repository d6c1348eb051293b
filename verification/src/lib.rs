//! A verified core for a Gearman-protocol job broker.
//!
//! The crate holds the broker's logic: the binary and admin-text frame
//! codec, the typed packet model, the per-function priority queues with
//! their uniqueness index, the worker registry with its sleep/wake
//! discipline, and the per-request dispatcher. Socket handling and the
//! event loop live outside the library and drive it with plain values.

pub mod constants;
pub mod wire;
pub mod bufext;
pub mod packet;
pub mod codec;
pub mod job;
pub mod queues;
pub mod worker;
pub mod service;
pub mod laws;
