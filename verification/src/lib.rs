//! A connection-tarpit core: a banned-substring-safe random fragment
//! generator, a jittered tick scheduler, and the broadcast writer's
//! connection bookkeeping.
//!
//! The I/O shell (binding listeners, accepting sockets, performing the
//! timed writes) lives outside this crate; everything here is pure logic
//! over plain values and is verified.

pub mod stream;
pub mod banned;
pub mod generator;
pub mod jitter;
pub mod writer;
