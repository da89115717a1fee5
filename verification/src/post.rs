//! The Solana side: what is checked before a message is posted to the
//! Wormhole core bridge.
//!
//! Posting is a cross-program invocation, which the host program performs.
//! What is decided before it is decided here: an empty message is not
//! posted, and the consistency level is turned into the finality that the
//! core bridge is asked for.

use vstd::pervasive::unreached;
use vstd::prelude::*;

verus! {

/// Why a message is not posted.
#[derive(Clone, Copy, Debug, PartialEq, Eq, Structural)]
pub enum ErrorCode {
    /// The message has no bytes.
    EmptyMessage,
}

/// How final the transaction that carries the message must be before the
/// guardians attest it.
#[derive(Clone, Copy, Debug, PartialEq, Eq, Structural)]
pub enum Finality {
    /// Confirmed by the cluster.
    Confirmed,
    /// Finalized by the cluster.
    Finalized,
}

/// The finality that a consistency level stands for, if any.
pub open spec fn finality_of(consistency_level: u8) -> Option<Finality> {
    if consistency_level == 0 {
        Some(Finality::Confirmed)
    } else if consistency_level == 1 {
        Some(Finality::Finalized)
    } else {
        None
    }
}

/// Calls `wormhole_anchor_sdk::wormhole::Finality::try_from`.
///
/// Trusted: the SDK maps `0` to `Confirmed` and `1` to `Finalized`, and
/// refuses every other level.
#[verifier::external_body]
fn sdk_finality(consistency_level: u8) -> (finality: Option<Finality>)
    ensures
        finality == finality_of(consistency_level),
{
    match wormhole_anchor_sdk::wormhole::Finality::try_from(consistency_level) {
        Ok(wormhole_anchor_sdk::wormhole::Finality::Confirmed) => Some(Finality::Confirmed),
        Ok(wormhole_anchor_sdk::wormhole::Finality::Finalized) => Some(Finality::Finalized),
        Err(_) => None,
    }
}

impl Finality {
    /// The finality that `consistency_level` stands for; `None` for a level
    /// that the core bridge does not know.
    pub fn from_level(consistency_level: u8) -> (finality: Option<Finality>)
        ensures
            finality == finality_of(consistency_level),
    {
        sdk_finality(consistency_level)
    }
}

/// What the host program hands to the core bridge.
#[derive(Debug)]
pub struct PostRequest {
    /// Number chosen by the sender to batch its messages.
    pub nonce: u32,
    /// The message.
    pub payload: Vec<u8>,
    /// The finality asked for.
    pub finality: Finality,
}

/// Whether `post_message` may be called with these arguments: a message
/// that is not empty comes with a consistency level that stands for a
/// finality.
pub open spec fn postable(message: Seq<u8>, consistency_level: u8) -> bool {
    message.len() > 0 ==> finality_of(consistency_level) is Some
}

/// Prepares the posting of `message`.
///
/// An empty message is refused with `EmptyMessage`, whatever the
/// consistency level is.  Any other message is handed on unchanged, with
/// the nonce and the finality that the level stands for.
pub fn post_message(message: Vec<u8>, nonce: u32, consistency_level: u8) -> (outcome: Result<
    PostRequest,
    ErrorCode,
>)
    requires
        postable(message@, consistency_level),
    ensures
        message@.len() == 0 ==> (outcome matches Err(e) && e == ErrorCode::EmptyMessage),
        message@.len() > 0 ==> (outcome matches Ok(request) && request.nonce == nonce
            && request.payload@ == message@ && Some(request.finality) == finality_of(
            consistency_level,
        )),
{
    if message.is_empty() {
        return Err(ErrorCode::EmptyMessage);
    }
    match sdk_finality(consistency_level) {
        Some(finality) => Ok(PostRequest { nonce, payload: message, finality }),
        None => unreached(),
    }
}

} // verus!
