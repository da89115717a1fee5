//! Application-layer core of a cross-chain message bridge.
//!
//! The bridge takes a text from a local user, puts it into a canonical wire
//! format and hands it to an attestation transport; and it takes an attested
//! message from a remote chain, checks it against a registry of trusted
//! emitters and records it exactly once.
//!
//! * [`codec`]: the wire format, encoding and decoding.
//! * [`registry`]: the trusted emitter of each remote chain.
//! * [`replay`]: the record of processed messages.
//! * [`gateway`]: configuration, sending and receiving.
//! * [`post`]: what is checked before a message is posted from Solana.
//! * [`bytes`]: comparison of byte strings and texts.
//! * [`error`]: the reasons for which a call is rejected.
//!
//! The library performs no input or output.  What the host knows (the
//! caller, the deposit, the transport's fee, the hash of a message) comes in
//! as a value, and what the host has to do (dispatch a call to the
//! transport, keep the state) is returned to it as a value.

pub mod bytes;
pub mod codec;
pub mod error;
pub mod gateway;
pub mod post;
pub mod registry;
pub mod replay;
