//! Base64 transport encoding of extracted bytes.

use base64::Engine;
use vstd::prelude::*;

verus! {

/// The standard base64 text of `bytes`: the alphabet `A-Z a-z 0-9 + /`, padded
/// with `=` to a multiple of four characters, with no line breaks.
pub uninterp spec fn base64_standard(bytes: Seq<u8>) -> Seq<char>;

/// The number of characters that `len` bytes take in padded base64.
pub open spec fn encoded_len(len: nat) -> nat {
    4 * ((len + 2) / 3)
}

/// `len` bytes can be encoded: the length of their text fits the machine.
pub open spec fn encodable(len: nat) -> bool {
    encoded_len(len) <= usize::MAX
}

/// Calls `encode` of `base64::engine::general_purpose::STANDARD`. The text is
/// a function of the bytes alone and is four characters for every three bytes
/// begun; the call is made only where that length fits a `usize`, as the
/// encoder gives up where it does not.
#[verifier::external_body]
pub(crate) fn encode_standard(bytes: &[u8]) -> (text: String)
    requires
        encodable(bytes@.len()),
    ensures
        text@ == base64_standard(bytes@),
        text@.len() == encoded_len(bytes@.len()),
{
    base64::engine::general_purpose::STANDARD.encode(bytes)
}

/// Tells whether `len` bytes can be encoded on this machine.
pub fn fits_encoding(len: usize) -> (r: bool)
    ensures
        r == encodable(len as nat),
{
    let begun: usize = if len % 3 == 0 {
        len / 3
    } else {
        len / 3 + 1
    };
    begun <= usize::MAX / 4
}

/// Encodes `bytes` as standard padded base64, or gives `None` where the text
/// would be longer than the machine can hold.
pub fn encode(bytes: &[u8]) -> (r: Option<String>)
    ensures
        match r {
            Some(text) => encodable(bytes@.len()) && text@ == base64_standard(bytes@) && text@.len()
                == encoded_len(bytes@.len()),
            None => !encodable(bytes@.len()),
        },
{
    if fits_encoding(bytes.len()) {
        Some(encode_standard(bytes))
    } else {
        None
    }
}

} // verus!
