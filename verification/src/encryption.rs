//! The computing edge of the record-encryption collaborator.
//!
//! Key exchange itself is an asynchronous call into an external service and
//! stays outside this library; what belongs here is the rendering of the
//! returned key bytes as hex-encoded text, stated exactly.

use vstd::prelude::*;

verus! {

/// The lowercase hexadecimal digit for a value below 16.
pub open spec fn hex_digit(n: u8) -> char
    recommends
        n < 16,
{
    if n < 10 {
        (48 + n) as char
    } else {
        (87 + n) as char
    }
}

/// The hex rendering of a byte sequence: two lowercase digits per byte,
/// high nibble first, in input order.
pub open spec fn hex_of(bytes: Seq<u8>) -> Seq<char>
    decreases bytes.len(),
{
    if bytes.len() == 0 {
        Seq::empty()
    } else {
        hex_of(bytes.drop_last()) + seq![
            hex_digit(bytes.last() / 16),
            hex_digit(bytes.last() % 16),
        ]
    }
}

/// Relies on `hex::encode`: two lowercase hexadecimal digits per byte, high
/// nibble first, in input order.
#[verifier::external_body]
fn hex_encode(bytes: &Vec<u8>) -> (r: String)
    ensures
        r@ == hex_of(bytes@),
{
    hex::encode(bytes.as_slice())
}

/// The record-encryption API surface.  The two asynchronous key-exchange
/// calls live at the system boundary; this side renders their replies.
pub struct EncryptionApi;

impl EncryptionApi {
    /// Render a key-exchange reply as text: the hex encoding of its bytes.
    pub fn encode_to_string(bytes: Vec<u8>) -> (r: String)
        ensures
            r@ == hex_of(bytes@),
    {
        hex_encode(&bytes)
    }
}

} // verus!
