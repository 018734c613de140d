//! Bidirectional file-synchronization relay core.
//!
//! Watches of a directory tree are turned into a stream of normalized change
//! events, encoded into byte frames for a remote peer; inbound frames from the
//! peer are decoded into write requests whose paths are confined to a base
//! directory. The verified core is the wire codec, the path traversal guard,
//! the event normalizer and the per-connection relay state machine; the
//! surrounding process (sockets, watches, disk) drives it from outside.

use vstd::prelude::*;

pub mod bytescan;
pub mod codec;
pub mod errors;
pub mod event;
pub mod relay;
pub mod resolve;

verus! {

/// The frame separator: a newline byte, never valid inside a framed path.
pub const NEWLINE: u8 = 10;

} // verus!
