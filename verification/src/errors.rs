//! Error kinds of the relay protocol.

use vstd::prelude::*;

verus! {

/// What can go wrong while handling one request or one notification.
///
/// `NoNewlineToSeparatePath` and `InvalidPath` are request-scoped: the single
/// inbound frame is rejected and the connection stays up. `IOFailure` marks a
/// failed directory creation or file write, `WatchFailure` an error reported
/// by the change-notification mechanism; both are surfaced to the peer, never
/// fatal to the process.
#[derive(Clone, Copy, Debug, PartialEq, Eq, Structural)]
pub enum Error {
    NoNewlineToSeparatePath,
    InvalidPath,
    IOFailure,
    WatchFailure,
}

} // verus!
