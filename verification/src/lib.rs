//! A TCP latency probe: resolves a user-supplied host specification to a
//! single socket address honoring an IP-family preference, then performs
//! timed connection attempts on a fixed schedule.
//!
//! The resolver grammar, port parsing, candidate filtering, plan validation
//! and the probe schedule are verified here; name lookup, TCP connects and
//! terminal output live outside the library.

pub mod probe;
pub mod resolve;
