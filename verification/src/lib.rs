//! An on-target logging transport and crash-capture facility for bare-metal
//! firmware, read out-of-band by an external debug probe.
//!
//! The `channel` module holds the discoverable control block and the
//! non-blocking, possibly-lossy ring-buffer writer; the `fault` module holds
//! the fault-capture record and the terminal trap-handling logic that fills
//! it.

pub mod channel;
pub mod fault;
