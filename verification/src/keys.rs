//! Account keys and message hashes as 32 raw bytes, and their base58 text.
//!
//! The text forms are computed by `solana_program`; this module holds the
//! contracts under which the rest of the library calls it.

use solana_program::pubkey::ParsePubkeyError;
use solana_program::pubkey::Pubkey;
use std::str::FromStr;
use vstd::prelude::*;

verus! {

/// The text that `Pubkey`'s `Display` writes for the key with these bytes.
pub uninterp spec fn pubkey_text(key: Seq<u8>) -> Seq<char>;

/// The text that `Hash`'s `Display` writes for the hash with these bytes.
pub uninterp spec fn hash_text(hash: Seq<u8>) -> Seq<char>;

/// The bytes of the key that `Pubkey::from_str` reads from `text`, or `None`
/// where it rejects the text.
pub uninterp spec fn pubkey_from_text(text: Seq<char>) -> Option<Seq<u8>>;

/// The error with which `Pubkey::from_str` rejects a text.
#[verifier::external_type_specification]
#[verifier::external_body]
pub struct ExParsePubkeyError(ParsePubkeyError);

/// Calls `to_string` on the `Pubkey` made of `key`. The contract claims only
/// that the text is a function of the 32 bytes, named `pubkey_text`.
#[verifier::external_body]
pub(crate) fn pubkey_to_string(key: &[u8; 32]) -> (text: String)
    ensures
        text@ == pubkey_text(key@),
{
    Pubkey::from(*key).to_string()
}

/// Calls `to_string` on the `Hash` made of `hash`. The contract claims only
/// that the text is a function of the 32 bytes, named `hash_text`.
#[verifier::external_body]
pub(crate) fn hash_to_string(hash: &[u8; 32]) -> (text: String)
    ensures
        text@ == hash_text(hash@),
{
    solana_program::hash::Hash::new_from_array(*hash).to_string()
}

/// Calls `Pubkey::from_str`. The contract claims that whether the text is
/// accepted, and the key read from it, are a function of the text, named
/// `pubkey_from_text`; which texts are accepted it leaves open.
#[verifier::external_body]
pub(crate) fn pubkey_from_str(text: &str) -> (r: Result<[u8; 32], ParsePubkeyError>)
    ensures
        match r {
            Ok(key) => pubkey_from_text(text@) == Some(key@),
            Err(_) => pubkey_from_text(text@) is None,
        },
{
    match Pubkey::from_str(text) {
        Ok(key) => Ok(key.to_bytes()),
        Err(err) => Err(err),
    }
}

/// Calls `to_string` on a `ParsePubkeyError`; nothing is claimed of the text.
#[verifier::external_body]
pub(crate) fn parse_error_to_string(err: &ParsePubkeyError) -> (text: String) {
    err.to_string()
}

/// Whether two keys have the same bytes.
pub fn same_key(a: &[u8; 32], b: &[u8; 32]) -> (r: bool)
    ensures
        r == (a@ == b@),
{
    let mut i: usize = 0;
    while i < 32
        invariant
            i <= 32,
            forall|j: int| 0 <= j < i ==> a@[j] == b@[j],
        decreases 32 - i,
    {
        if a[i] != b[i] {
            return false;
        }
        i += 1;
    }
    assert(a@ =~= b@);
    true
}

} // verus!
