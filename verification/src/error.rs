//! The reasons for which the bridge rejects a call.

use vstd::prelude::*;

verus! {

/// Why a call into the bridge was rejected.  Every rejection leaves the
/// bridge's state exactly as it was before the call.
#[derive(Clone, Copy, Debug, PartialEq, Eq, Structural)]
pub enum BridgeError {
    /// The bridge was configured before; it is configured exactly once.
    AlreadyInitialized,
    /// The local chain identifier or the minimum finality was zero.
    InvalidConfig,
    /// The attached value differs from the required fee.
    InsufficientDeposit,
    /// The bytes are not a canonical encoding of a message.
    MalformedMessage,
    /// The message's fingerprint was recorded before.
    AlreadyProcessed,
    /// The sender is not the trusted emitter registered for its chain.
    UnknownEmitter,
    /// The caller is not the owner of the bridge.
    Unauthorized,
    /// The chain identifier or the address cannot name a remote emitter.
    InvalidEmitter,
}

} // verus!
