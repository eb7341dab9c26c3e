use crate::token::Token;
use crate::token::TokenView;
use vstd::prelude::*;

use sha1::Digest;
use sha1::Sha1;

verus! {

/// What the SHA-1 digest of given bytes is: a function of the bytes
/// alone, the same in every process and on every machine.
pub uninterp spec fn sha1_of(data: Seq<u8>) -> Seq<u8>;

/// Relies on sha1's Digest (new, update, finalize): the SHA-1 digest of
/// the input bytes, 20 bytes long.
#[verifier::external_body]
fn sha1_digest(bytes: &[u8]) -> (r: [u8; 20])
    ensures
        r@ == sha1_of(bytes@),
{
    let mut hasher = Sha1::new();
    hasher.update(bytes);
    let mut hash = [0u8; 20];
    hash.copy_from_slice(&hasher.finalize());
    hash
}

/// The identity token for bytes read from a local file: their SHA-1
/// digest, so an unchanged file compares as a match on the next run.
pub fn token_for_bytes(bytes: &Vec<u8>) -> (r: Token)
    ensures
        r@ == TokenView::Sha1(sha1_of(bytes@)),
{
    Token::Sha1(sha1_digest(bytes.as_slice()))
}

} // verus!
