//! A small telemetry transport: clients push JSON readings over unidirectional
//! streams of a secure multiplexed session; servers accept and decode them.
//!
//! The decisions of both sides (when to connect, retry, open, write, finish,
//! accept, dispatch) and the payload format are verified here. The network
//! and TLS plumbing that performs those decisions lives outside this library.

pub mod options;
pub mod codec;
pub mod retry;
pub mod server;
pub mod trust;
