//! Connection-establishment edge of a transparent proxy data plane.
//!
//! Three concerns share one shape: consume a prefix of a byte stream,
//! decide incrementally what it is, and hand back both the decision and
//! every byte already read, so that consumption is transparent to
//! whatever handles the stream next.
//!
//! * [`sniff`] classifies a fresh stream as HTTP/2, HTTP/1.x, or unknown.
//! * [`header`] frames an optional out-of-band connection header
//!   (a preface, a length, and a small structured message).
//! * [`resolve`] translates discovery-stream messages into endpoint-set
//!   updates, filtering degenerate entries.
//!
//! The incremental decisions are pure state machines over byte events;
//! the I/O loops that feed them live outside this crate.

pub mod header;
pub mod name;
pub mod prefix;
pub mod resolve;
pub mod sniff;
pub mod wire;
