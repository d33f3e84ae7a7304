//! From Shift_JIS bytes to text.

use crate::generic_error::GenericError;
use crate::generic_error::GenericResult;
use vstd::prelude::*;

verus! {

/// The text that decoding `bytes` as Shift_JIS gives, as `encoding_rs`
/// decodes it: a byte order mark at the start chooses another encoding and
/// is left out, and a byte sequence that stands for no character becomes
/// U+FFFD.
pub uninterp spec fn shift_jis_text(bytes: Seq<u8>) -> Seq<char>;

/// The longest input that is handed to the decoder. The decoder reserves up
/// to six times the input's length and stops the program where that number
/// does not fit.
pub open spec fn decodable_len() -> nat {
    (usize::MAX / 16) as nat
}

/// `encoding_rs::Encoding::decode` on `encoding_rs::SHIFT_JIS`. The result
/// is a function of the bytes alone, so it has a name; nothing else is
/// claimed of it. The bound keeps away from the inputs on which the
/// decoder's size calculation overflows and it panics.
#[verifier::external_body]
fn decode_shift_jis(bytes: &Vec<u8>) -> (text: String)
    requires
        bytes@.len() <= decodable_len(),
    ensures
        text@ == shift_jis_text(bytes@),
{
    let (text, _, _) = encoding_rs::SHIFT_JIS.decode(bytes.as_slice());
    text.into_owned()
}

/// The text of a file that is encoded in Shift_JIS. Fails only on an input
/// too long to be decoded on this machine.
pub fn sjis_to_uft8(input: &Vec<u8>) -> (text: GenericResult<String>)
    ensures
        input@.len() <= decodable_len() ==> (text matches Ok(t) && t@ == shift_jis_text(input@)),
        input@.len() > decodable_len() ==> (text matches Err(e) && e == GenericError::IOFailure),
{
    if input.len() > usize::MAX / 16 {
        return Err(GenericError::IOFailure);
    }
    Ok(decode_shift_jis(input))
}

} // verus!
