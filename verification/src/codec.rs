//! The canonical wire format of a cross-chain message.
//!
//! An encoded message is a three-byte header followed by the body:
//!
//! | bytes      | content                                        |
//! |------------|------------------------------------------------|
//! | `0`        | payload kind                                   |
//! | `1..3`     | length of the body, 16 bits, little-endian     |
//! | `3..3 + L` | the body, `L` bytes of UTF-8 text              |
//!
//! The length field always equals the number of body bytes, so a body of
//! more than 65535 bytes has no encoding.  Decoding accepts exactly the
//! canonical encodings of generic-text messages, and encoding and decoding
//! are inverse to each other.

use vstd::prelude::*;
use vstd::slice::{slice_subrange, slice_to_vec};
use vstd::utf8::{
    decode_utf8, decode_utf8_encode_utf8, encode_utf8, encode_utf8_decode_utf8,
    encode_utf8_valid_utf8, valid_utf8,
};

use crate::error::BridgeError;

verus! {

/// The one payload kind that the bridge understands: generic text.
pub const GENERIC_TEXT: u8 = 1;

/// Number of bytes in front of the body.
pub const HEADER_LEN: usize = 3;

/// The longest body, in bytes, whose length the header can hold.
pub const MAX_BODY_LEN: usize = 65535;

/// A message as the bridge sends and receives it.
#[derive(Debug)]
pub struct CrossChainMessage {
    /// Tag of the payload; [`GENERIC_TEXT`] is the only one in use.
    pub payload_id: u8,
    /// The text that is carried.
    pub message: String,
}

/// The two header bytes that hold the body length `len`, least significant
/// byte first.
pub open spec fn length_field(len: nat) -> Seq<u8>
    recommends
        len <= MAX_BODY_LEN,
{
    seq![(len % 256) as u8, (len / 256) as u8]
}

/// The bytes on the wire for a payload kind and a body that is already bytes.
pub open spec fn frame(payload_id: u8, body: Seq<u8>) -> Seq<u8>
    recommends
        body.len() <= MAX_BODY_LEN,
{
    seq![payload_id] + length_field(body.len()) + body
}

/// The bytes on the wire for a payload kind and a text that fits the frame.
pub open spec fn encoding(payload_id: u8, text: Seq<char>) -> Seq<u8>
    recommends
        fits_frame(text),
{
    frame(payload_id, encode_utf8(text))
}

/// The body length that the header of `bytes` declares.
pub open spec fn declared_length(bytes: Seq<u8>) -> nat
    recommends
        bytes.len() >= HEADER_LEN,
{
    (bytes[1] as nat) + 256 * (bytes[2] as nat)
}

/// The bytes behind the header.
pub open spec fn body_bytes(bytes: Seq<u8>) -> Seq<u8>
    recommends
        bytes.len() >= HEADER_LEN,
{
    bytes.skip(HEADER_LEN as int)
}

/// Whether `bytes` is the canonical encoding of a generic-text message: a
/// full header, the known payload kind, a declared length that is exactly
/// the number of bytes that follow, and a body that is UTF-8.
pub open spec fn is_canonical(bytes: Seq<u8>) -> bool {
    &&& bytes.len() >= HEADER_LEN
    &&& bytes[0] == GENERIC_TEXT
    &&& declared_length(bytes) == bytes.len() - HEADER_LEN
    &&& valid_utf8(body_bytes(bytes))
}

/// The text that a canonical encoding carries.
pub open spec fn decoded_text(bytes: Seq<u8>) -> Seq<char>
    recommends
        is_canonical(bytes),
{
    decode_utf8(body_bytes(bytes))
}

/// Whether a text can be framed: the length of its UTF-8 form fits the
/// sixteen-bit length field.
pub open spec fn fits_frame(text: Seq<char>) -> bool {
    encode_utf8(text).len() <= MAX_BODY_LEN
}

impl CrossChainMessage {
    /// The bytes that [`encode_message`] produces for this message.
    pub open spec fn wire(&self) -> Seq<u8>
        recommends
            fits_frame(self.message@),
    {
        encoding(self.payload_id, self.message@)
    }
}

/// Whether `text` can be framed: whether it takes at most [`MAX_BODY_LEN`]
/// bytes.
pub fn text_fits(text: &str) -> (fits: bool)
    ensures
        fits == fits_frame(text@),
{
    text.as_bytes().len() <= MAX_BODY_LEN
}

/// Runs `String::from_utf8` and drops the error's detail.
///
/// Trusted: the standard library documents that the call succeeds exactly
/// when the bytes are UTF-8, and that the string it then returns consists of
/// those very bytes.
#[verifier::external_body]
fn string_from_utf8(bytes: Vec<u8>) -> (text: Option<String>)
    ensures
        text is Some <==> valid_utf8(bytes@),
        text matches Some(s) ==> encode_utf8(s@) == bytes@,
{
    match String::from_utf8(bytes) {
        Ok(s) => Some(s),
        Err(_) => None,
    }
}

/// Encodes a message into its wire format.
///
/// The message's text must fit the frame ([`fits_frame`], tested by
/// [`text_fits`]).  The length field of the result is the number of body
/// bytes, and the body is the text in UTF-8.
pub fn encode_message(message: &CrossChainMessage) -> (encoded: Vec<u8>)
    requires
        fits_frame(message.message@),
    ensures
        encoded@ == message.wire(),
        declared_length(encoded@) == encoded@.len() - HEADER_LEN,
{
    let body = message.message.as_str().as_bytes();
    let len: usize = body.len();
    let mut encoded: Vec<u8> = Vec::new();
    encoded.push(message.payload_id);
    encoded.push((len % 256) as u8);
    encoded.push((len / 256) as u8);
    let mut i: usize = 0;
    while i < len
        invariant
            i <= len,
            len == body@.len(),
            encoded@ == seq![message.payload_id] + length_field(body@.len()) + body@.take(i as int),
        decreases len - i,
    {
        encoded.push(body[i]);
        i += 1;
    }
    proof {
        assert(body@.take(len as int) == body@);
        lemma_frame_declares_its_length(message.payload_id, body@);
    }
    encoded
}

/// Decodes the wire format.
///
/// Succeeds exactly on the canonical encodings ([`is_canonical`]); every
/// other input is rejected as malformed: fewer than three bytes, a payload
/// kind other than [`GENERIC_TEXT`], a declared length that differs from the
/// number of body bytes, or a body that is not UTF-8.
pub fn decode_message(encoded: &[u8]) -> (decoded: Result<CrossChainMessage, BridgeError>)
    ensures
        decoded is Ok <==> is_canonical(encoded@),
        decoded matches Ok(m) ==> m.payload_id == GENERIC_TEXT && m.message@ == decoded_text(
            encoded@,
        ),
        decoded matches Err(e) ==> e == BridgeError::MalformedMessage,
{
    let total: usize = encoded.len();
    if total < HEADER_LEN {
        return Err(BridgeError::MalformedMessage);
    }
    let payload_id: u8 = encoded[0];
    if payload_id != GENERIC_TEXT {
        return Err(BridgeError::MalformedMessage);
    }
    let declared: usize = (encoded[1] as usize) + 256 * (encoded[2] as usize);
    if total - HEADER_LEN != declared {
        return Err(BridgeError::MalformedMessage);
    }
    let body = slice_to_vec(slice_subrange(encoded, HEADER_LEN, total));
    assert(body@ == body_bytes(encoded@));
    match string_from_utf8(body) {
        Some(message) => {
            proof {
                encode_utf8_decode_utf8(message@);
            }
            Ok(CrossChainMessage { payload_id, message })
        },
        None => Err(BridgeError::MalformedMessage),
    }
}

/// The header of a frame declares the length of its body: the length field
/// of the encoding of a body that fits is the number of body bytes.
pub proof fn lemma_frame_declares_its_length(payload_id: u8, body: Seq<u8>)
    requires
        body.len() <= MAX_BODY_LEN,
    ensures
        frame(payload_id, body).len() == HEADER_LEN + body.len(),
        frame(payload_id, body)[0] == payload_id,
        declared_length(frame(payload_id, body)) == body.len(),
        body_bytes(frame(payload_id, body)) == body,
{
    let len = body.len();
    assert(len % 256 + 256 * (len / 256) == len && len / 256 < 256) by (nonlinear_arith)
        requires
            0 <= len <= 65535,
    ;
    assert(body_bytes(frame(payload_id, body)) =~= body);
}

/// Decoding inverts encoding: the encoding of a generic-text message whose
/// body fits the length field is canonical, and the text it carries is the
/// text that was encoded.
pub proof fn lemma_decode_inverts_encode(text: Seq<char>)
    requires
        fits_frame(text),
    ensures
        is_canonical(encoding(GENERIC_TEXT, text)),
        decoded_text(encoding(GENERIC_TEXT, text)) == text,
{
    lemma_frame_declares_its_length(GENERIC_TEXT, encode_utf8(text));
    encode_utf8_valid_utf8(text);
    encode_utf8_decode_utf8(text);
}

/// Encoding inverts decoding: encoding the text that a canonical encoding
/// carries gives back those very bytes, so no two canonical encodings carry
/// the same text.
pub proof fn lemma_encode_inverts_decode(bytes: Seq<u8>)
    requires
        is_canonical(bytes),
    ensures
        fits_frame(decoded_text(bytes)),
        encoding(GENERIC_TEXT, decoded_text(bytes)) == bytes,
{
    let body = body_bytes(bytes);
    decode_utf8_encode_utf8(body);
    let len = body.len();
    let lo = bytes[1] as nat;
    let hi = bytes[2] as nat;
    assert(len == lo + 256 * hi);
    assert((lo + 256 * hi) % 256 == lo && (lo + 256 * hi) / 256 == hi)
        by (nonlinear_arith)
        requires
            0 <= lo < 256,
            0 <= hi < 256,
    ;
    assert(encoding(GENERIC_TEXT, decoded_text(bytes)) =~= bytes);
}

/// Encoding is injective on the texts that fit the frame.
pub proof fn lemma_encoding_injective(a: Seq<char>, b: Seq<char>)
    requires
        fits_frame(a),
        fits_frame(b),
        encoding(GENERIC_TEXT, a) == encoding(GENERIC_TEXT, b),
    ensures
        a == b,
{
    lemma_decode_inverts_encode(a);
    lemma_decode_inverts_encode(b);
}

} // verus!
