//! The transaction decoder: it turns one chunk of raw transactions into a
//! partial block of transfer records and account balances.

use crate::error::AggError;
use crate::keys::hash_text;
use crate::keys::pubkey_from_str;
use crate::keys::pubkey_from_text;
use crate::keys::pubkey_text;
use crate::keys::same_key;
use crate::util::Amount;
use crate::util::Block;
use crate::util::BlockView;
use crate::util::Instruction;
use crate::util::InstructionView;
use crate::util::MessageView;
use crate::util::ProtocolMessage;
use crate::util::TxRecord;
use crate::util::TxRecordView;
use vstd::prelude::*;

verus! {

/// The text of the key of the program that executes transfers.
pub const SYSTEM_PROGRAM: &'static str = "11111111111111111111111111111111";

/// The first byte of the data of a transfer instruction.
pub const TRANSFER_TAG: u8 = 2;

/// Where the amount starts in the data of a transfer instruction.
pub const AMOUNT_START: usize = 4;

/// Where the amount ends in the data of a transfer instruction.
pub const AMOUNT_END: usize = 12;

/// One instruction of a message: the index of its program among the
/// message's account keys, the indices of its accounts, and its input data.
#[derive(Debug)]
pub struct CompiledInstruction {
    pub program_id_index: u8,
    pub accounts: Vec<u8>,
    pub data: Vec<u8>,
}

/// The message of a decoded transaction: its table of account keys, its
/// instructions, and the hash that names it.
#[derive(Debug)]
pub struct TransactionMessage {
    pub account_keys: Vec<[u8; 32]>,
    pub instructions: Vec<CompiledInstruction>,
    pub hash: [u8; 32],
}

/// The status metadata of a transaction: the balances of its accounts after
/// it ran, in the order of the key table, and the metadata in serialized form.
#[derive(Debug)]
pub struct TransactionMeta {
    pub post_balances: Vec<u64>,
    pub serialized: String,
}

/// A raw transaction of a chunk. The message is absent where the
/// transaction could not be decoded.
#[derive(Debug)]
pub struct EncodedTransaction {
    pub message: Option<TransactionMessage>,
    pub meta: Option<TransactionMeta>,
}

/// The number that `bytes` write with the lowest byte first: the sum of each
/// byte times 256 to the power of its position.
pub open spec fn le_value(bytes: Seq<u8>) -> nat
    decreases bytes.len(),
{
    if bytes.len() == 0 {
        0
    } else {
        bytes[0] as nat + 256 * le_value(bytes.drop_first())
    }
}

/// The number that eight bytes write with the lowest byte first.
pub proof fn lemma_le_value_of_eight(bytes: Seq<u8>)
    requires
        bytes.len() == 8,
    ensures
        le_value(bytes) == bytes[0] + 0x100 * bytes[1] + 0x1_0000 * bytes[2] + 0x100_0000
            * bytes[3] + 0x1_0000_0000 * bytes[4] + 0x100_0000_0000 * bytes[5]
            + 0x1_0000_0000_0000 * bytes[6] + 0x100_0000_0000_0000 * bytes[7],
{
    let b1 = bytes.drop_first();
    let b2 = b1.drop_first();
    let b3 = b2.drop_first();
    let b4 = b3.drop_first();
    let b5 = b4.drop_first();
    let b6 = b5.drop_first();
    let b7 = b6.drop_first();
    let b8 = b7.drop_first();
    assert(b1[0] == bytes[1] && b2[0] == bytes[2] && b3[0] == bytes[3] && b4[0] == bytes[4]);
    assert(b5[0] == bytes[5] && b6[0] == bytes[6] && b7[0] == bytes[7] && b8.len() == 0);
    assert(le_value(b8) == 0);
    assert(le_value(b7) == bytes[7] + 256 * le_value(b8));
    assert(le_value(b6) == bytes[6] + 256 * le_value(b7));
    assert(le_value(b5) == bytes[5] + 256 * le_value(b6));
    assert(le_value(b4) == bytes[4] + 256 * le_value(b5));
    assert(le_value(b3) == bytes[3] + 256 * le_value(b4));
    assert(le_value(b2) == bytes[2] + 256 * le_value(b3));
    assert(le_value(b1) == bytes[1] + 256 * le_value(b2));
    assert(le_value(bytes) == bytes[0] + 256 * le_value(b1));
}

/// Reads the number that the eight bytes of `data` from `start` on write
/// with the lowest byte first.
fn le_u64_at(data: &Vec<u8>, start: usize) -> (r: u64)
    requires
        start + 8 <= data.len(),
    ensures
        r == le_value(data@.subrange(start as int, start + 8)),
{
    proof {
        lemma_le_value_of_eight(data@.subrange(start as int, start + 8));
    }
    let b0 = data[start] as u64;
    let b1 = data[start + 1] as u64;
    let b2 = data[start + 2] as u64;
    let b3 = data[start + 3] as u64;
    let b4 = data[start + 4] as u64;
    let b5 = data[start + 5] as u64;
    let b6 = data[start + 6] as u64;
    let b7 = data[start + 7] as u64;
    b0 + 0x100 * b1 + 0x1_0000 * b2 + 0x100_0000 * b3 + 0x1_0000_0000 * b4 + 0x100_0000_0000 * b5
        + 0x1_0000_0000_0000 * b6 + 0x100_0000_0000_0000 * b7
}

/// The key that stands in for an account index that points outside the key
/// table: 32 bytes of value one.
pub open spec fn placeholder_key() -> Seq<u8> {
    Seq::new(32, |i: int| 1u8)
}

/// The key at `index` of the table, or the placeholder.
pub open spec fn key_or_placeholder(keys: Seq<[u8; 32]>, index: u8) -> Seq<u8> {
    if index < keys.len() {
        keys[index as int]@
    } else {
        placeholder_key()
    }
}

/// Whether `instruction` is a transfer: its program is `system_program` and
/// its data starts with the transfer tag. `None` where the program index
/// points outside the key table, or the program matches and there is no data.
pub open spec fn transfer_check(
    system_program: Seq<u8>,
    message: TransactionMessage,
    instruction: CompiledInstruction,
) -> Option<bool> {
    if instruction.program_id_index >= message.account_keys@.len() {
        None
    } else if message.account_keys@[instruction.program_id_index as int]@ != system_program {
        Some(false)
    } else if instruction.data@.len() == 0 {
        None
    } else {
        Some(instruction.data@[0] == TRANSFER_TAG)
    }
}

/// The transfer that `instruction` encodes: the accounts named by its first
/// two account indices and the amount that bytes 4 to 12 of its data write
/// with the lowest byte first. `None` where it has fewer than two account indices or its data is
/// shorter than 12 bytes.
pub open spec fn transfer_of(
    message: TransactionMessage,
    instruction: CompiledInstruction,
) -> Option<InstructionView> {
    if instruction.accounts@.len() < 2 || instruction.data@.len() < AMOUNT_END {
        None
    } else {
        Some(
            InstructionView::Transfer {
                from: pubkey_text(
                    key_or_placeholder(message.account_keys@, instruction.accounts@[0]),
                ),
                to: pubkey_text(
                    key_or_placeholder(message.account_keys@, instruction.accounts@[1]),
                ),
                base_units: le_value(
                    instruction.data@.subrange(AMOUNT_START as int, AMOUNT_END as int),
                ),
            },
        )
    }
}

/// The transfers among the first `n` instructions of `message`, in order.
/// `None` where one of them is malformed.
pub open spec fn transfers_of(
    system_program: Seq<u8>,
    message: TransactionMessage,
    n: nat,
) -> Option<Seq<InstructionView>>
    decreases n,
{
    if n == 0 {
        Some(Seq::empty())
    } else {
        let instruction = message.instructions@[n - 1];
        match transfers_of(system_program, message, (n - 1) as nat) {
            None => None,
            Some(before) => match transfer_check(system_program, message, instruction) {
                None => None,
                Some(false) => Some(before),
                Some(true) => match transfer_of(message, instruction) {
                    None => None,
                    Some(transfer) => Some(before.push(transfer)),
                },
            },
        }
    }
}

/// The partial block `block` with the contribution of `tx`: the balances
/// after the transaction of the first two accounts of the key table, where
/// it has metadata, and its record under the text of the message hash.
///
/// A transaction contributes nothing, and leaves the block as it was, where
/// it has no message, where one of its instructions is malformed, or where
/// it has metadata but the metadata or the key table has fewer than two
/// entries.
pub open spec fn with_decoded(
    system_program: Seq<u8>,
    block: BlockView,
    tx: EncodedTransaction,
) -> BlockView {
    match tx.message {
        None => block,
        Some(message) => match transfers_of(
            system_program,
            message,
            message.instructions@.len(),
        ) {
            None => block,
            Some(instruction) => match tx.meta {
                None => block.with_transaction(
                    hash_text(message.hash@),
                    TxRecordView { instruction, metadata: None },
                ),
                Some(meta) => if message.account_keys@.len() < 2 || meta.post_balances@.len() < 2 {
                    block
                } else {
                    block.with_account(
                        pubkey_text(message.account_keys@[0]@),
                        meta.post_balances@[0],
                    ).with_account(
                        pubkey_text(message.account_keys@[1]@),
                        meta.post_balances@[1],
                    ).with_transaction(
                        hash_text(message.hash@),
                        TxRecordView { instruction, metadata: Some(meta.serialized@) },
                    )
                },
            },
        },
    }
}

/// The partial block of the first `n` transactions of a chunk.
pub open spec fn decoded_chunk(
    system_program: Seq<u8>,
    txs: Seq<EncodedTransaction>,
    n: nat,
) -> BlockView
    decreases n,
{
    if n == 0 {
        BlockView::empty()
    } else {
        with_decoded(system_program, decoded_chunk(system_program, txs, (n - 1) as nat), txs[n - 1])
    }
}

/// The transaction decoder.
pub struct Parser;

impl Parser {
    /// Decodes the chunk `chunk_no` of the `total_chunks` chunks of the block
    /// `block_no` into the message that carries its partial block.
    ///
    /// The key of the transfer program is read from its text first; where
    /// that fails, so does the chunk. Else the result is that of
    /// `decode_chunk`.
    pub fn invoke(
        block_no: u64,
        chunk_no: u64,
        total_chunks: u64,
        txs: &Vec<EncodedTransaction>,
    ) -> (r: Result<ProtocolMessage, AggError>)
        ensures
            match pubkey_from_text(SYSTEM_PROGRAM@) {
                None => r matches Err(AggError::UnableToParsePublicKey(_)),
                Some(system_program) => r matches Ok(message) && message@
                    == MessageView::ParsedBlock(
                    block_no,
                    total_chunks,
                    chunk_no,
                    decoded_chunk(system_program, txs@, txs@.len()),
                ),
            },
    {
        match pubkey_from_str(SYSTEM_PROGRAM) {
            Ok(system_program) => Ok(
                Self::decode_chunk(&system_program, block_no, chunk_no, total_chunks, txs),
            ),
            Err(err) => Err(AggError::UnableToParsePublicKey(err)),
        }
    }

    /// Decodes a chunk, given the key of the transfer program.
    ///
    /// A transaction that cannot be decoded is passed over and the rest of
    /// the chunk is still decoded: one without a message, one with a
    /// malformed instruction, and one with metadata beside fewer than two
    /// keys or balances.
    pub fn decode_chunk(
        system_program: &[u8; 32],
        block_no: u64,
        chunk_no: u64,
        total_chunks: u64,
        txs: &Vec<EncodedTransaction>,
    ) -> (r: ProtocolMessage)
        ensures
            r@ == MessageView::ParsedBlock(
                block_no,
                total_chunks,
                chunk_no,
                decoded_chunk(system_program@, txs@, txs@.len()),
            ),
    {
        let mut partial_block = Block::default();
        let mut i: usize = 0;
        while i < txs.len()
            invariant
                i <= txs@.len(),
                decoded_chunk(system_program@, txs@, i as nat) == partial_block@,
            decreases txs@.len() - i,
        {
            let tx = &txs[i];
            match &tx.message {
                Some(message) => {
                    match Self::decode_instructions(system_program, message) {
                        Ok(instructions) => {
                            match &tx.meta {
                                Some(meta) => {
                                    if message.account_keys.len() >= 2
                                        && meta.post_balances.len() >= 2 {
                                        partial_block.insert_account(
                                            crate::keys::pubkey_to_string(&message.account_keys[0]),
                                            meta.post_balances[0],
                                        );
                                        partial_block.insert_account(
                                            crate::keys::pubkey_to_string(&message.account_keys[1]),
                                            meta.post_balances[1],
                                        );
                                        partial_block.push_transaction(
                                            &message.hash,
                                            TxRecord::new(
                                                instructions,
                                                Some(meta.serialized.clone()),
                                            ),
                                        );
                                    }
                                },
                                None => {
                                    partial_block.push_transaction(
                                        &message.hash,
                                        TxRecord::new(instructions, None),
                                    );
                                },
                            }
                        },
                        Err(_) => {},
                    }
                },
                None => {},
            }
            i += 1;
        }
        ProtocolMessage::parsed_block(block_no, total_chunks, chunk_no, partial_block)
    }

    /// The transfers among the instructions of `message`, in order, or a
    /// conversion error where one of the instructions is malformed.
    pub fn decode_instructions(
        system_program: &[u8; 32],
        message: &TransactionMessage,
    ) -> (r: Result<Vec<Instruction>, AggError>)
        ensures
            match transfers_of(system_program@, *message, message.instructions@.len()) {
                None => r matches Err(AggError::ConversionError),
                Some(transfers) => r matches Ok(list) && crate::util::instruction_views(list@)
                    == transfers,
            },
    {
        let mut instructions: Vec<Instruction> = Vec::new();
        let mut i: usize = 0;
        while i < message.instructions.len()
            invariant
                i <= message.instructions@.len(),
                transfers_of(system_program@, *message, i as nat) == Some(
                    crate::util::instruction_views(instructions@),
                ),
            decreases message.instructions@.len() - i,
        {
            let instruction = &message.instructions[i];
            let ghost before = crate::util::instruction_views(instructions@);
            match Self::is_transfer_with(system_program, message, instruction) {
                Ok(true) => {
                    match Self::decode_transfer_instruction(message, instruction) {
                        Ok(transfer) => {
                            instructions.push(transfer);
                            assert(crate::util::instruction_views(instructions@) =~= before.push(
                                transfer@,
                            ));
                        },
                        Err(err) => {
                            proof {
                                lemma_malformed_stays(
                                    system_program@,
                                    *message,
                                    (i + 1) as nat,
                                    message.instructions@.len(),
                                );
                            }
                            return Err(err);
                        },
                    }
                },
                Ok(false) => {},
                Err(err) => {
                    proof {
                        lemma_malformed_stays(
                            system_program@,
                            *message,
                            (i + 1) as nat,
                            message.instructions@.len(),
                        );
                    }
                    return Err(err);
                },
            }
            i += 1;
        }
        Ok(instructions)
    }

    /// Whether `instruction` is a transfer. The key of the transfer program
    /// is read from its text first; where that fails, so does the check.
    pub fn is_transfer_instruction(
        message: &TransactionMessage,
        instruction: &CompiledInstruction,
    ) -> (r: Result<bool, AggError>)
        ensures
            match pubkey_from_text(SYSTEM_PROGRAM@) {
                None => r matches Err(AggError::UnableToParsePublicKey(_)),
                Some(system_program) => match transfer_check(
                    system_program,
                    *message,
                    *instruction,
                ) {
                    None => r matches Err(AggError::ConversionError),
                    Some(b) => r matches Ok(x) && x == b,
                },
            },
    {
        match pubkey_from_str(SYSTEM_PROGRAM) {
            Ok(system_program) => Self::is_transfer_with(&system_program, message, instruction),
            Err(err) => Err(AggError::UnableToParsePublicKey(err)),
        }
    }

    /// Whether `instruction` is a transfer, given the key of the transfer
    /// program.
    pub fn is_transfer_with(
        system_program: &[u8; 32],
        message: &TransactionMessage,
        instruction: &CompiledInstruction,
    ) -> (r: Result<bool, AggError>)
        ensures
            match transfer_check(system_program@, *message, *instruction) {
                None => r matches Err(AggError::ConversionError),
                Some(b) => r matches Ok(x) && x == b,
            },
    {
        let index = instruction.program_id_index as usize;
        if index >= message.account_keys.len() {
            return Err(AggError::ConversionError);
        }
        if !same_key(&message.account_keys[index], system_program) {
            return Ok(false);
        }
        if instruction.data.len() == 0 {
            return Err(AggError::ConversionError);
        }
        Ok(instruction.data[0] == TRANSFER_TAG)
    }

    /// The transfer that `instruction` encodes.
    pub fn decode_transfer_instruction(
        message: &TransactionMessage,
        instruction: &CompiledInstruction,
    ) -> (r: Result<Instruction, AggError>)
        ensures
            match transfer_of(*message, *instruction) {
                None => r matches Err(AggError::ConversionError),
                Some(transfer) => r matches Ok(decoded) && decoded@ == transfer,
            },
    {
        if instruction.accounts.len() < 2 || instruction.data.len() < AMOUNT_END {
            return Err(AggError::ConversionError);
        }
        let default_key: [u8; 32] = [1u8; 32];
        assert(default_key@ =~= placeholder_key());
        let from_index = instruction.accounts[0] as usize;
        let from = if from_index < message.account_keys.len() {
            &message.account_keys[from_index]
        } else {
            &default_key
        };
        let to_index = instruction.accounts[1] as usize;
        let to = if to_index < message.account_keys.len() {
            &message.account_keys[to_index]
        } else {
            &default_key
        };
        let amount = le_u64_at(&instruction.data, AMOUNT_START);
        Ok(Instruction::transfer(from, to, Amount::from_base_units(amount)))
    }
}

/// Once an instruction is malformed, so is every longer run of instructions.
proof fn lemma_malformed_stays(
    system_program: Seq<u8>,
    message: TransactionMessage,
    n: nat,
    m: nat,
)
    requires
        n <= m,
        transfers_of(system_program, message, n) is None,
    ensures
        transfers_of(system_program, message, m) is None,
    decreases m,
{
    if n < m {
        lemma_malformed_stays(system_program, message, n, (m - 1) as nat);
    }
}

} // verus!
