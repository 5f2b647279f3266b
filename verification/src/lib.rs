//! A single-hop message relay core: a frame decoder that reassembles
//! delimiter-terminated messages from arbitrary read boundaries, a receiver
//! pipeline that stamps each frame with an arrival timestamp and fans it out,
//! and a per-destination forwarder state machine with fixed backoff and a
//! discard-on-reconnect policy.

pub mod clock;
pub mod codec;
pub mod forwarder;
pub mod receiver;
pub mod stamp;

pub use clock::epoch_now;
