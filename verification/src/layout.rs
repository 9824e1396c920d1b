//! The layout of the store on disk: under which key each thing is kept,
//! and how a slot number is written as a value.
//!
//! A block is kept under `BlockNo` followed by the decimal text of its
//! slot; the latest finalized slot under `lst_blk_no`; and the slot of a
//! transaction under the JSON text of its hash. Slot numbers are written as
//! JSON, which for a number is its decimal text. The JSON forms are computed
//! by `serde_json`.

use crate::decimal::decimal_bytes;
use crate::decimal::decimal_text;
use crate::decimal::digit_char;
use crate::decimal::parse_decimal;
use crate::error::AggError;
use vstd::prelude::*;
use vstd::string::StrSliceExecFns;
use vstd::string::StringExecFns;

verus! {

/// The key under which the latest finalized slot is kept.
pub const LATEST_BLOCK_NO_KEY: &'static str = "lst_blk_no";

/// What the key of a block begins with.
pub const BLOCK_KEY_PREFIX: &'static str = "BlockNo";

/// The bytes that `serde_json::to_vec` writes for a text.
pub uninterp spec fn json_of_text(text: Seq<char>) -> Seq<u8>;

/// The slot number that `serde_json::from_slice` reads from bytes, or `None`
/// where it rejects them.
pub uninterp spec fn slot_of_json(bytes: Seq<u8>) -> Option<u64>;

/// The error of `serde_json`.
#[verifier::external_type_specification]
#[verifier::external_body]
pub struct ExJsonError(serde_json::Error);

/// Calls `serde_json::to_vec` on a text. The contract claims that the call
/// succeeds, since writing a text into a vector has no way to fail, and that
/// the bytes are a function of the text, named `json_of_text`.
#[verifier::external_body]
fn text_to_json(text: &String) -> (r: Result<Vec<u8>, serde_json::Error>)
    ensures
        r is Ok,
        r matches Ok(bytes) ==> bytes@ == json_of_text(text@),
{
    serde_json::to_vec(text)
}

/// Calls `serde_json::to_vec` on a slot number. The contract claims that the
/// call succeeds, since writing a number into a vector has no way to fail,
/// and that the bytes are the digits of the number's decimal text.
#[verifier::external_body]
fn slot_to_json(slot: u64) -> (r: Result<Vec<u8>, serde_json::Error>)
    ensures
        r is Ok,
        r matches Ok(bytes) ==> bytes@ == decimal_bytes(slot as nat),
{
    serde_json::to_vec(&slot)
}

/// Calls `serde_json::from_slice` for a slot number. The contract claims
/// that whether the bytes are accepted, and the number read, are a function
/// of the bytes, named `slot_of_json`.
#[verifier::external_body]
fn slot_from_json(bytes: &[u8]) -> (r: Result<u64, serde_json::Error>)
    ensures
        match r {
            Ok(slot) => slot_of_json(bytes@) == Some(slot),
            Err(_) => slot_of_json(bytes@) is None,
        },
{
    serde_json::from_slice::<u64>(bytes)
}

/// The key under which the slot of the transaction `tx_hash` is kept.
pub fn tx_key(tx_hash: &String) -> (r: Result<Vec<u8>, AggError>)
    ensures
        r matches Ok(key) && key@ == json_of_text(tx_hash@),
{
    match text_to_json(tx_hash) {
        Ok(key) => Ok(key),
        Err(err) => Err(AggError::JsonError(err)),
    }
}

/// The value that is kept for the slot number `slot`: the digits of its
/// decimal text.
pub fn slot_value(slot: u64) -> (r: Result<Vec<u8>, AggError>)
    ensures
        r matches Ok(value) && value@ == decimal_bytes(slot as nat),
{
    match slot_to_json(slot) {
        Ok(value) => Ok(value),
        Err(err) => Err(AggError::JsonError(err)),
    }
}

/// The slot number that was kept as `value`.
pub fn read_slot_value(value: &[u8]) -> (r: Result<u64, AggError>)
    ensures
        match slot_of_json(value@) {
            Some(slot) => r matches Ok(read) && read == slot,
            None => r matches Err(AggError::JsonError(_)),
        },
{
    match slot_from_json(value) {
        Ok(slot) => Ok(slot),
        Err(err) => Err(AggError::JsonError(err)),
    }
}

/// The text of one decimal digit.
fn digit_text(d: u64) -> (r: &'static str)
    requires
        d < 10,
    ensures
        r@ == seq![digit_char(d as nat)],
{
    proof {
        reveal_strlit("0");
        reveal_strlit("1");
        reveal_strlit("2");
        reveal_strlit("3");
        reveal_strlit("4");
        reveal_strlit("5");
        reveal_strlit("6");
        reveal_strlit("7");
        reveal_strlit("8");
        reveal_strlit("9");
    }
    let r = if d == 0 {
        "0"
    } else if d == 1 {
        "1"
    } else if d == 2 {
        "2"
    } else if d == 3 {
        "3"
    } else if d == 4 {
        "4"
    } else if d == 5 {
        "5"
    } else if d == 6 {
        "6"
    } else if d == 7 {
        "7"
    } else if d == 8 {
        "8"
    } else {
        "9"
    };
    assert(r@ =~= seq![digit_char(d as nat)]);
    r
}

/// The decimal text of `slot`.
pub fn slot_text(slot: u64) -> (r: String)
    ensures
        r@ == decimal_text(slot as nat),
{
    let mut text = digit_text(slot % 10).to_owned();
    let mut rest: u64 = slot / 10;
    while rest > 0
        invariant
            rest == 0 ==> text@ == decimal_text(slot as nat),
            rest > 0 ==> decimal_text(rest as nat) + text@ == decimal_text(slot as nat),
        decreases rest,
    {
        let ghost tail = text@;
        let digit = digit_text(rest % 10);
        text = digit.to_owned().concat(text.as_str());
        proof {
            if rest < 10 {
                assert(text@ =~= decimal_text(rest as nat) + tail);
            } else {
                assert(decimal_text((rest / 10) as nat) + text@ =~= decimal_text(rest as nat)
                    + tail);
            }
        }
        rest = rest / 10;
    }
    text
}

/// The key under which the block of `slot` is kept.
pub fn block_key(slot: u64) -> (r: String)
    ensures
        r@ == BLOCK_KEY_PREFIX@ + decimal_text(slot as nat),
{
    let text = slot_text(slot);
    BLOCK_KEY_PREFIX.to_owned().concat(text.as_str())
}

/// The slot whose block is kept under `key`, where `key` is the key of a
/// block.
pub fn slot_of_block_key(key: &str) -> (r: Option<u64>)
    ensures
        match r {
            Some(slot) => key@ == BLOCK_KEY_PREFIX@ + decimal_text(slot as nat),
            None => forall|slot: u64| key@ != BLOCK_KEY_PREFIX@ + decimal_text(slot as nat),
        },
{
    proof {
        reveal_strlit("BlockNo");
    }
    let prefix_len = BLOCK_KEY_PREFIX.unicode_len();
    let len = key.unicode_len();
    if len < prefix_len {
        proof {
            assert forall|slot: u64| key@ != BLOCK_KEY_PREFIX@ + decimal_text(slot as nat) by {
                assert((BLOCK_KEY_PREFIX@ + decimal_text(slot as nat)).len() >= prefix_len);
            }
        }
        return None;
    }
    let mut i: usize = 0;
    while i < prefix_len
        invariant
            i <= prefix_len,
            prefix_len == BLOCK_KEY_PREFIX@.len(),
            prefix_len <= len,
            len == key@.len(),
            forall|j: int| 0 <= j < i ==> key@[j] == BLOCK_KEY_PREFIX@[j],
        decreases prefix_len - i,
    {
        if key.get_char(i) != BLOCK_KEY_PREFIX.get_char(i) {
            proof {
                assert forall|slot: u64| key@ != BLOCK_KEY_PREFIX@ + decimal_text(slot as nat) by {
                    assert((BLOCK_KEY_PREFIX@ + decimal_text(slot as nat))[i as int]
                        == BLOCK_KEY_PREFIX@[i as int]);
                }
            }
            return None;
        }
        i += 1;
    }
    let digits = key.substring_char(prefix_len, len);
    proof {
        assert(key@ =~= BLOCK_KEY_PREFIX@ + digits@);
    }
    match parse_decimal(digits) {
        Some(slot) => Some(slot),
        None => {
            proof {
                assert forall|slot: u64| key@ != BLOCK_KEY_PREFIX@ + decimal_text(slot as nat) by {
                    let other = BLOCK_KEY_PREFIX@ + decimal_text(slot as nat);
                    if key@ == other {
                        assert(digits@ =~= other.subrange(prefix_len as int, other.len() as int));
                        assert(other.subrange(prefix_len as int, other.len() as int)
                            =~= decimal_text(slot as nat));
                    }
                }
            }
            None
        },
    }
}

} // verus!
