//! The errors that decoding and the store's queries report.

use crate::keys::parse_error_to_string;
use solana_program::pubkey::ParsePubkeyError;
use vstd::prelude::*;
use vstd::string::StringExecFns;

verus! {

/// An error of the pipeline.
#[derive(Debug)]
pub enum AggError {
    /// The text of an account key was rejected.
    UnableToParsePublicKey(ParsePubkeyError),
    /// Instruction or account data was too short, or an index pointed
    /// outside its table.
    ConversionError,
    /// A value that was kept as JSON could not be written or read.
    JsonError(serde_json::Error),
    /// No block is stored under the slot.
    BlockNotFound,
    /// No block has been finalized yet.
    NoBlockFinalised,
    /// No transaction is known under the hash.
    TxNotFound,
}

/// Calls `to_string` on a `serde_json::Error`; nothing is claimed of the
/// text.
#[verifier::external_body]
fn json_error_to_string(err: &serde_json::Error) -> (text: String) {
    err.to_string()
}

impl AggError {
    /// Whether the error carries a value of an outside crate, whose text
    /// ends its message.
    pub open spec fn has_outside_text(self) -> bool {
        self is UnableToParsePublicKey || self is JsonError
    }

    /// The message of an error that carries no outside value; for one that
    /// does, the words that come before the outside value's own text.
    pub open spec fn text(self) -> Seq<char> {
        match self {
            AggError::UnableToParsePublicKey(_) => "Unable to parse public key: "@,
            AggError::ConversionError => "Conversion Error: could not convert slice to array"@,
            AggError::JsonError(_) => "Json Error: "@,
            AggError::BlockNotFound => "Block Not Found"@,
            AggError::NoBlockFinalised => "No Block Finalised"@,
            AggError::TxNotFound => "Transaction Not Found"@,
        }
    }

    /// The message that a client is sent for this error.
    pub fn message(&self) -> (r: String)
        ensures
            self.has_outside_text() ==> self.text().is_prefix_of(r@),
            !self.has_outside_text() ==> r@ == self.text(),
    {
        match self {
            AggError::UnableToParsePublicKey(err) => {
                let detail = parse_error_to_string(err);
                let r = "Unable to parse public key: ".to_owned().concat(detail.as_str());
                assert(self.text().is_prefix_of(r@)) by {
                    assert(r@.subrange(0, self.text().len() as int) =~= self.text());
                }
                r
            },
            AggError::ConversionError => {
                "Conversion Error: could not convert slice to array".to_owned()
            },
            AggError::JsonError(err) => {
                let detail = json_error_to_string(err);
                let r = "Json Error: ".to_owned().concat(detail.as_str());
                assert(self.text().is_prefix_of(r@)) by {
                    assert(r@.subrange(0, self.text().len() as int) =~= self.text());
                }
                r
            },
            AggError::BlockNotFound => "Block Not Found".to_owned(),
            AggError::NoBlockFinalised => "No Block Finalised".to_owned(),
            AggError::TxNotFound => "Transaction Not Found".to_owned(),
        }
    }
}

} // verus!
