//! The digest under which the store keeps credentials.

use vstd::prelude::*;
use crypto::digest::Digest;
use crypto::sha2::Sha512;

verus! {

/// The SHA-512 digest of the UTF-8 bytes of a text, written as hexadecimal
/// digits.
pub uninterp spec fn sha512_hex(text: Seq<char>) -> Seq<char>;

/// Feeds the text to `crypto::sha2::Sha512` through `Digest::input_str` and
/// reads the digest with `Digest::result_str`. Trusted: the result is the
/// value named `sha512_hex` of the text; nothing is claimed of its shape.
#[verifier::external_body]
pub(crate) fn hash_password(password: &str) -> (r: String)
    ensures
        r@ == sha512_hex(password@),
{
    let mut hasher = Sha512::new();
    hasher.input_str(password);
    hasher.result_str()
}

} // verus!
