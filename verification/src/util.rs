//! The vocabulary that the stages of the pipeline share: instructions,
//! transaction records, blocks and the state of a block under reassembly.

use crate::keys::hash_text;
use crate::keys::hash_to_string;
use crate::keys::pubkey_text;
use crate::keys::pubkey_to_string;
use crate::parser::EncodedTransaction;
use crate::text_map::TextMap;
use std::collections::BTreeMap;
use vstd::prelude::*;
use vstd::std_specs::btree::increasing_seq;
use vstd::std_specs::btree::spec_btree_map_iter;
use vstd::std_specs::cmp::OrdSpec;
use vstd::std_specs::iter::IteratorSpec;

verus! {

broadcast use {vstd::std_specs::btree::group_btree_axioms, vstd::laws_cmp::group_laws_cmp};

/// How many base units make one display unit of the chain's currency.
pub const BASE_UNITS_PER_UNIT: u64 = 1_000_000_000;

/// Balances of accounts, keyed by the account's text.
pub type AccountMap = TextMap<u64>;

/// An amount in display units: whole units and a fraction counted in
/// base units.
#[derive(Clone, Copy, Debug)]
pub struct Amount {
    units: u64,
    fraction: u32,
}

impl Amount {
    #[verifier::type_invariant]
    spec fn inv(self) -> bool {
        self.fraction < BASE_UNITS_PER_UNIT && self.units * BASE_UNITS_PER_UNIT + self.fraction
            <= u64::MAX
    }

    /// The amount counted in base units.
    pub closed spec fn base_units(self) -> nat {
        (self.units * BASE_UNITS_PER_UNIT + self.fraction) as nat
    }

    /// The amount of `base_units` base units, in display units.
    pub fn from_base_units(base_units: u64) -> (r: Self)
        ensures
            r.base_units() == base_units,
    {
        let units = base_units / BASE_UNITS_PER_UNIT;
        let fraction = (base_units % BASE_UNITS_PER_UNIT) as u32;
        Amount { units, fraction }
    }

    /// The whole display units.
    pub fn units(&self) -> (r: u64)
        ensures
            r == self.base_units() / (BASE_UNITS_PER_UNIT as nat),
    {
        proof {
            use_type_invariant(self);
        }
        self.units
    }

    /// What is left over the whole units, in base units.
    pub fn fraction(&self) -> (r: u32)
        ensures
            r == self.base_units() % (BASE_UNITS_PER_UNIT as nat),
    {
        proof {
            use_type_invariant(self);
        }
        self.fraction
    }

    /// The amount counted in base units.
    pub fn to_base_units(&self) -> (r: u64)
        ensures
            r == self.base_units(),
    {
        proof {
            use_type_invariant(self);
        }
        self.units * BASE_UNITS_PER_UNIT + self.fraction as u64
    }
}

/// What an instruction says, over texts and numbers.
pub enum InstructionView {
    Transfer { from: Seq<char>, to: Seq<char>, base_units: nat },
}

/// An instruction of a transaction. Transfers are the only kind kept.
#[derive(Debug)]
pub enum Instruction {
    /// From account, to account, amount.
    Transfer(String, String, Amount),
}

impl View for Instruction {
    type V = InstructionView;

    open spec fn view(&self) -> InstructionView {
        match self {
            Instruction::Transfer(from, to, amount) => InstructionView::Transfer {
                from: from@,
                to: to@,
                base_units: amount.base_units(),
            },
        }
    }
}

impl Instruction {
    /// A transfer of `amount` between the accounts with the keys `from` and
    /// `to`, which it holds as text.
    pub fn transfer(from: &[u8; 32], to: &[u8; 32], amount: Amount) -> (r: Self)
        ensures
            r@ == (InstructionView::Transfer {
                from: pubkey_text(from@),
                to: pubkey_text(to@),
                base_units: amount.base_units(),
            }),
    {
        Instruction::Transfer(pubkey_to_string(from), pubkey_to_string(to), amount)
    }
}

impl Clone for Instruction {
    fn clone(&self) -> (r: Self)
        ensures
            r@ == self@,
    {
        match self {
            Instruction::Transfer(from, to, amount) => Instruction::Transfer(
                from.clone(),
                to.clone(),
                *amount,
            ),
        }
    }
}

/// The views of a list of instructions, in order.
pub open spec fn instruction_views(list: Seq<Instruction>) -> Seq<InstructionView> {
    list.map_values(|i: Instruction| i@)
}

/// The view of an optional text.
pub open spec fn text_view(text: Option<String>) -> Option<Seq<char>> {
    match text {
        Some(t) => Some(t@),
        None => None,
    }
}

/// What a transaction record says.
pub struct TxRecordView {
    pub instruction: Seq<InstructionView>,
    pub metadata: Option<Seq<char>>,
}

/// The transfers of one transaction and, where the source gave any, its
/// status metadata in serialized form.
#[derive(Debug)]
pub struct TxRecord {
    instruction: Vec<Instruction>,
    metadata: Option<String>,
}

impl View for TxRecord {
    type V = TxRecordView;

    closed spec fn view(&self) -> TxRecordView {
        TxRecordView {
            instruction: instruction_views(self.instruction@),
            metadata: text_view(self.metadata),
        }
    }
}

impl TxRecord {
    /// A record of the given instructions and serialized metadata.
    pub fn new(instruction: Vec<Instruction>, metadata: Option<String>) -> (r: Self)
        ensures
            r@ == (TxRecordView {
                instruction: instruction_views(instruction@),
                metadata: text_view(metadata),
            }),
    {
        TxRecord { instruction, metadata }
    }

    /// The instructions, in the order of the transaction.
    pub fn instructions(&self) -> (r: &Vec<Instruction>)
        ensures
            instruction_views(r@) == self@.instruction,
    {
        &self.instruction
    }

    /// The serialized metadata.
    pub fn metadata(&self) -> (r: &Option<String>)
        ensures
            text_view(*r) == self@.metadata,
    {
        &self.metadata
    }
}

impl Default for TxRecord {
    fn default() -> (r: Self)
        ensures
            r@ == (TxRecordView { instruction: Seq::empty(), metadata: None }),
    {
        let r = TxRecord { instruction: Vec::new(), metadata: None };
        assert(r@.instruction =~= Seq::empty());
        r
    }
}

impl Clone for TxRecord {
    fn clone(&self) -> (r: Self)
        ensures
            r@ == self@,
    {
        let mut instruction: Vec<Instruction> = Vec::new();
        let mut i: usize = 0;
        while i < self.instruction.len()
            invariant
                i <= self.instruction@.len(),
                instruction@.len() == i,
                forall|j: int|
                    0 <= j < i ==> (#[trigger] instruction@[j])@ == self.instruction@[j]@,
            decreases self.instruction@.len() - i,
        {
            instruction.push(self.instruction[i].clone());
            i += 1;
        }
        let metadata = match &self.metadata {
            Some(text) => Some(text.clone()),
            None => None,
        };
        let r = TxRecord { instruction, metadata };
        assert(r@.instruction =~= self@.instruction);
        r
    }
}

/// The balances of `base` with those of `delta` laid over them: where both
/// name an account, the balance of `delta` stands.
pub open spec fn overlay(base: Map<Seq<char>, u64>, delta: Option<Map<Seq<char>, u64>>) -> Map<
    Seq<char>,
    u64,
> {
    match delta {
        Some(d) => base.union_prefer_right(d),
        None => base,
    }
}

/// The balances that an optional account map holds; none where it is absent.
pub open spec fn balances(account_map: Option<Map<Seq<char>, u64>>) -> Map<Seq<char>, u64> {
    match account_map {
        Some(m) => m,
        None => Map::empty(),
    }
}

/// A value is in a sequence exactly where it is its last element or is in
/// the sequence without the last element.
pub proof fn lemma_contains_drop_last<T>(s: Seq<T>)
    requires
        s.len() > 0,
    ensures
        forall|x: T| s.contains(x) <==> s.drop_last().contains(x) || x == s.last(),
{
    let head = s.drop_last();
    assert forall|x: T| s.contains(x) <==> head.contains(x) || x == s.last() by {
        if head.contains(x) {
            let i = choose|i: int| 0 <= i < head.len() && head[i] == x;
            assert(s[i] == x);
        }
        if s.contains(x) && x != s.last() {
            let i = choose|i: int| 0 <= i < s.len() && s[i] == x;
            assert(head[i] == x);
        }
        if x == s.last() {
            assert(s[s.len() - 1] == x);
        }
    }
}

/// Lays the balances of `delta` over those of `accounts`.
pub fn lay_over(accounts: &mut AccountMap, delta: &AccountMap)
    ensures
        final(accounts)@ == old(accounts)@.union_prefer_right(delta@),
{
    accounts.extend_from(delta);
    proof {
        let merged = old(accounts)@.union_prefer_right(delta@);
        assert forall|k: Seq<char>| accounts@.contains_key(k) <==> merged.contains_key(k) by {}
        assert forall|k: Seq<char>| #[trigger] merged.contains_key(k) implies accounts@[k]
            == merged[k] by {
            if delta@.contains_key(k) {
                assert(cloned(delta@[k], accounts@[k]));
            } else {
                assert(old(accounts)@.contains_key(k));
            }
        }
        assert(accounts@ =~= merged);
    }
}

/// What a block holds: its transactions by hash, and the balances of
/// accounts where it has any.
pub struct BlockView {
    pub tx_map: Map<Seq<char>, TxRecordView>,
    pub account_map: Option<Map<Seq<char>, u64>>,
}

impl BlockView {
    /// The block without transactions and without an account map.
    pub open spec fn empty() -> BlockView {
        BlockView { tx_map: Map::empty(), account_map: None }
    }

    /// The balance that the block has for `account`.
    pub open spec fn balance(self, account: Seq<char>) -> Option<u64> {
        if balances(self.account_map).contains_key(account) {
            Some(balances(self.account_map)[account])
        } else {
            None
        }
    }

    /// The block with `balance` recorded for `account`.
    pub open spec fn with_account(self, account: Seq<char>, balance: u64) -> BlockView {
        BlockView {
            tx_map: self.tx_map,
            account_map: Some(balances(self.account_map).insert(account, balance)),
        }
    }

    /// The block with the transaction `tx` recorded under `hash`.
    pub open spec fn with_transaction(self, hash: Seq<char>, tx: TxRecordView) -> BlockView {
        BlockView { tx_map: self.tx_map.insert(hash, tx), account_map: self.account_map }
    }

    /// The block with `account_map` in place of its own.
    pub open spec fn with_account_map(self, account_map: Map<Seq<char>, u64>) -> BlockView {
        BlockView { tx_map: self.tx_map, account_map: Some(account_map) }
    }

    /// The block with the contents of `part` added. A transaction or a
    /// balance of `part` replaces one that the block had under the same key.
    /// A part without balances leaves the account map as it was.
    pub open spec fn absorb(self, part: BlockView) -> BlockView {
        BlockView {
            tx_map: self.tx_map.union_prefer_right(part.tx_map),
            account_map: if balances(part.account_map).dom().is_empty() {
                self.account_map
            } else {
                Some(balances(self.account_map).union_prefer_right(balances(part.account_map)))
            },
        }
    }
}

/// The views of the records of a transaction map.
pub open spec fn record_views(records: Map<Seq<char>, TxRecord>) -> Map<Seq<char>, TxRecordView> {
    records.map_values(|r: TxRecord| r@)
}

/// The view of an optional account map.
pub open spec fn account_view(account_map: Option<AccountMap>) -> Option<Map<Seq<char>, u64>> {
    match account_map {
        Some(m) => Some(m@),
        None => None,
    }
}

/// The decoded contents of one slot, or of one chunk of a slot.
///
/// Until the block is finalized its account map holds the balances that its
/// own transactions left; from then on it holds the snapshot of all balances
/// up to the block.
#[derive(Debug)]
pub struct Block {
    tx_map: TextMap<TxRecord>,
    account_map: Option<AccountMap>,
}

impl View for Block {
    type V = BlockView;

    closed spec fn view(&self) -> BlockView {
        BlockView {
            tx_map: record_views(self.tx_map@),
            account_map: account_view(self.account_map),
        }
    }
}

impl Default for Block {
    fn default() -> (r: Self)
        ensures
            r@ == BlockView::empty(),
    {
        let r = Block { tx_map: TextMap::new(), account_map: None };
        assert(r@.tx_map =~= Map::empty());
        r
    }
}

impl Block {
    /// Records `balance` for `account`, replacing the balance it had.
    pub fn insert_account(&mut self, account: String, balance: u64)
        ensures
            final(self)@ == old(self)@.with_account(account@, balance),
    {
        match &mut self.account_map {
            Some(account_map) => {
                account_map.insert(account, balance);
            },
            None => {
                let mut account_map = TextMap::new();
                account_map.insert(account, balance);
                self.account_map = Some(account_map);
            },
        }
    }

    /// The record of the transaction with the hash `tx_hash`.
    pub fn get_tx_details(&self, tx_hash: &str) -> (r: Option<&TxRecord>)
        ensures
            match r {
                Some(record) => self@.tx_map.contains_key(tx_hash@) && record@
                    == self@.tx_map[tx_hash@],
                None => !self@.tx_map.contains_key(tx_hash@),
            },
    {
        let key = tx_hash.to_owned();
        self.tx_map.get(&key)
    }

    /// Records `tx` under the text `tx_hash`, replacing a record that was
    /// there.
    pub fn insert_transaction(&mut self, tx_hash: String, tx: TxRecord)
        ensures
            final(self)@ == old(self)@.with_transaction(tx_hash@, tx@),
    {
        self.tx_map.insert(tx_hash, tx);
        assert(self@.tx_map =~= old(self)@.tx_map.insert(tx_hash@, tx@));
    }

    /// Records `tx` under the text of the message hash `tx_hash`.
    pub fn push_transaction(&mut self, tx_hash: &[u8; 32], tx: TxRecord)
        ensures
            final(self)@ == old(self)@.with_transaction(hash_text(tx_hash@), tx@),
    {
        self.insert_transaction(hash_to_string(tx_hash), tx);
    }

    /// The hashes of the block's transactions, each once.
    pub fn get_tx_hash(&self) -> (r: Vec<String>)
        ensures
            r@.map_values(|h: String| h@).no_duplicates(),
            r@.map_values(|h: String| h@).to_set() == self@.tx_map.dom(),
    {
        let r = self.tx_map.keys();
        proof {
            let texts = r@.map_values(|h: String| h@);
            assert(texts =~= self.tx_map.key_seq());
            assert(texts.to_set() =~= self@.tx_map.dom());
        }
        r
    }

    /// The balance recorded for `account`.
    pub fn get_account_balance(&self, account: &str) -> (r: Option<u64>)
        ensures
            r == self@.balance(account@),
    {
        match &self.account_map {
            Some(account_map) => {
                let key = account.to_owned();
                match account_map.get(&key) {
                    Some(balance) => Some(*balance),
                    None => None,
                }
            },
            None => None,
        }
    }

    /// The account map.
    pub fn accounts(&self) -> (r: &Option<AccountMap>)
        ensures
            account_view(*r) == self@.account_map,
    {
        &self.account_map
    }

    /// A copy of the account map.
    pub fn get_account_map(&self) -> (r: Option<AccountMap>)
        ensures
            account_view(r) == self@.account_map,
    {
        match &self.account_map {
            Some(account_map) => {
                let copy = account_map.clone();
                assert(copy@ =~= account_map@);
                Some(copy)
            },
            None => None,
        }
    }

    /// Puts `account_map` in place of the block's account map.
    pub fn set_account_map(&mut self, account_map: AccountMap)
        ensures
            final(self)@ == old(self)@.with_account_map(account_map@),
    {
        self.account_map = Some(account_map);
    }

    /// Adds the transactions and balances of `part` to the block.
    pub fn absorb(&mut self, part: &Block)
        ensures
            final(self)@ == old(self)@.absorb(part@),
    {
        self.tx_map.extend_from(&part.tx_map);
        proof {
            let merged = old(self)@.tx_map.union_prefer_right(part@.tx_map);
            assert forall|k: Seq<char>| #[trigger] merged.contains_key(k) implies self@.tx_map[k]
                == merged[k] by {
                if part.tx_map@.contains_key(k) {
                    assert(cloned(part.tx_map@[k], self.tx_map@[k]));
                } else {
                    assert(old(self).tx_map@.contains_key(k));
                }
            }
            assert(self@.tx_map =~= merged);
        }
        match &part.account_map {
            Some(delta) => {
                if delta.len() > 0 {
                    assert(delta@.contains_key(delta.key_seq()[0]));
                    match &mut self.account_map {
                        Some(account_map) => {
                            lay_over(account_map, delta);
                        },
                        None => {
                            let copy = delta.clone();
                            assert(copy@ =~= Map::<Seq<char>, u64>::empty().union_prefer_right(
                                delta@,
                            ));
                            self.account_map = Some(copy);
                        },
                    }
                } else {
                    assert forall|k: Seq<char>| !delta@.contains_key(k) by {
                        assert(!delta.key_seq().contains(k));
                    }
                    assert(delta@.dom() =~= Set::empty());
                }
            },
            None => {},
        }
    }
}

impl Clone for Block {
    fn clone(&self) -> (r: Self)
        ensures
            r@ == self@,
    {
        let tx_map = self.tx_map.clone();
        let account_map = self.get_account_map();
        let r = Block { tx_map, account_map };
        assert(r@.tx_map =~= self@.tx_map);
        r
    }
}

/// The chunks of `chunks` with an index below `n`, merged in the order of
/// their indices.
pub open spec fn merged_below(chunks: Map<u64, BlockView>, n: nat) -> BlockView
    decreases n,
{
    if n == 0 {
        BlockView::empty()
    } else {
        let before = merged_below(chunks, (n - 1) as nat);
        if chunks.contains_key((n - 1) as u64) {
            before.absorb(chunks[(n - 1) as u64])
        } else {
            before
        }
    }
}

/// All chunks of `chunks`, merged in the order of their indices.
pub open spec fn merged(chunks: Map<u64, BlockView>) -> BlockView {
    merged_below(chunks, 0x1_0000_0000_0000_0000)
}

/// Where no chunk has an index from `a` up to `b`, merging below `b` gives
/// what merging below `a` gives.
proof fn lemma_merged_gap(chunks: Map<u64, BlockView>, a: nat, b: nat)
    requires
        a <= b <= 0x1_0000_0000_0000_0000,
        forall|k: u64| a <= k < b ==> !chunks.contains_key(k),
    ensures
        merged_below(chunks, b) == merged_below(chunks, a),
    decreases b,
{
    if a < b {
        lemma_merged_gap(chunks, a, (b - 1) as nat);
    }
}

/// A transaction is in the merged block exactly where a merged chunk has it.
pub proof fn lemma_merged_transactions(chunks: Map<u64, BlockView>, n: nat)
    requires
        n <= 0x1_0000_0000_0000_0000,
    ensures
        forall|hash: Seq<char>|
            merged_below(chunks, n).tx_map.contains_key(hash) <==> exists|k: u64|
                k < n && chunks.contains_key(k) && #[trigger] chunks[k].tx_map.contains_key(hash),
    decreases n,
{
    if n > 0 {
        let last = (n - 1) as u64;
        lemma_merged_transactions(chunks, (n - 1) as nat);
        let before = merged_below(chunks, (n - 1) as nat);
        assert forall|hash: Seq<char>|
            merged_below(chunks, n).tx_map.contains_key(hash) <==> exists|k: u64|
                k < n && chunks.contains_key(k) && #[trigger] chunks[k].tx_map.contains_key(
                    hash,
                ) by {
            if merged_below(chunks, n).tx_map.contains_key(hash) {
                if before.tx_map.contains_key(hash) {
                    let k = choose|k: u64|
                        k < n - 1 && chunks.contains_key(k) && #[trigger] chunks[k].tx_map.contains_key(
                            hash,
                        );
                    assert(k < n && chunks.contains_key(k) && chunks[k].tx_map.contains_key(hash));
                } else {
                    assert(chunks.contains_key(last) && chunks[last].tx_map.contains_key(hash));
                }
            }
            if exists|k: u64|
                k < n && chunks.contains_key(k) && #[trigger] chunks[k].tx_map.contains_key(hash) {
                let k = choose|k: u64|
                    k < n && chunks.contains_key(k) && #[trigger] chunks[k].tx_map.contains_key(
                        hash,
                    );
                if k < n - 1 {
                    assert(before.tx_map.contains_key(hash));
                }
            }
        }
    }
}

/// The state of a block under reassembly.
pub struct UnprocessedView {
    /// How many chunks the block was declared to have.
    pub total_chunks: u64,
    /// How many chunks have arrived, counting one that came again.
    pub received: u64,
    /// The chunk that arrived last under each index.
    pub chunks: Map<u64, BlockView>,
}

impl UnprocessedView {
    /// The state before any chunk of a block of `total_chunks` chunks.
    pub open spec fn new(total_chunks: u64) -> UnprocessedView {
        UnprocessedView { total_chunks, received: 0, chunks: Map::empty() }
    }

    /// Whether as many chunks have arrived as were declared.
    pub open spec fn is_complete(self) -> bool {
        self.total_chunks == self.received
    }

    /// The state after the chunk `block` has arrived under `chunk_no`. The
    /// count of arrivals stops at the largest number it can hold.
    pub open spec fn insert_chunk(self, chunk_no: u64, block: BlockView) -> UnprocessedView {
        UnprocessedView {
            total_chunks: self.total_chunks,
            received: if self.received < u64::MAX {
                (self.received + 1) as u64
            } else {
                self.received
            },
            chunks: self.chunks.insert(chunk_no, block),
        }
    }

    /// The whole block: the chunks merged in the order of their indices.
    pub open spec fn completed(self) -> BlockView {
        merged(self.chunks)
    }
}

/// The keys of a map come out of its iterator in rising order.
proof fn lemma_rising_keys(keys: Seq<u64>)
    requires
        increasing_seq(keys),
    ensures
        forall|i: int, j: int| 0 <= i < j < keys.len() ==> keys[i] < keys[j],
{
    assert forall|i: int, j: int| 0 <= i < j < keys.len() implies keys[i] < keys[j] by {
        assert(keys[i].cmp_spec(&keys[j]) is Less);
    }
}

/// The index from which on no chunk has been merged yet, when the first `i`
/// of `entries` have been.
spec fn merged_up_to(entries: Seq<(&u64, &Block)>, i: int) -> nat {
    if i == 0 {
        0nat
    } else {
        (*entries[i - 1].0 + 1) as nat
    }
}

/// The chunks of one block that have arrived so far.
#[derive(Debug)]
pub struct UnprocessedBlock {
    total_chunks: u64,
    total_collected_chunks: u64,
    collected_partial_blocks: BTreeMap<u64, Block>,
}

impl View for UnprocessedBlock {
    type V = UnprocessedView;

    closed spec fn view(&self) -> UnprocessedView {
        UnprocessedView {
            total_chunks: self.total_chunks,
            received: self.total_collected_chunks,
            chunks: block_views(self.collected_partial_blocks@),
        }
    }
}

impl UnprocessedBlock {
    /// The state before any chunk of a block of `total_chunks` chunks.
    pub fn new(total_chunks: u64) -> (r: Self)
        ensures
            r@ == UnprocessedView::new(total_chunks),
    {
        let r = UnprocessedBlock {
            total_chunks,
            total_collected_chunks: 0,
            collected_partial_blocks: BTreeMap::new(),
        };
        assert(r@.chunks =~= Map::empty());
        r
    }

    /// Whether as many chunks have arrived as were declared.
    pub fn is_complete(&self) -> (r: bool)
        ensures
            r == self@.is_complete(),
    {
        self.total_chunks == self.total_collected_chunks
    }

    /// Takes in the chunk `block` under the index `chunk_no`, in place of a
    /// chunk that came under that index before.
    pub fn insert_chunk(&mut self, chunk_no: u64, block: Block)
        ensures
            final(self)@ == old(self)@.insert_chunk(chunk_no, block@),
    {
        self.collected_partial_blocks.insert(chunk_no, block);
        assert(self@.chunks =~= old(self)@.chunks.insert(chunk_no, block@));
        if self.total_collected_chunks < u64::MAX {
            self.total_collected_chunks = self.total_collected_chunks + 1;
        }
    }

    /// The whole block: the chunks merged in the order of their indices, so
    /// that a later chunk's transaction or balance replaces an earlier one's
    /// under the same key.
    pub fn complete_the_block(&self) -> (r: Block)
        ensures
            r@ == self@.completed(),
    {
        let ghost held = self.collected_partial_blocks@;
        let ghost chunks = block_views(held);
        let ghost entries = spec_btree_map_iter(&self.collected_partial_blocks).remaining();
        let mut block = Block::default();
        let iter = self.collected_partial_blocks.iter();
        proof {
            let keys = iter.remaining().map_values(|kv: (&u64, &Block)| *kv.0);
            lemma_rising_keys(keys);
            assert forall|i: int, j: int| 0 <= i < j < entries.len() implies *entries[i].0
                < *entries[j].0 by {
                assert(keys[i] == *entries[i].0);
                assert(keys[j] == *entries[j].0);
            }
        }
        for kv in it: iter
            invariant
                it.seq() == entries,
                held == self.collected_partial_blocks@,
                chunks == block_views(held),
                forall|i: int, j: int|
                    0 <= i < j < entries.len() ==> *entries[i].0 < *entries[j].0,
                forall|i: int|
                    0 <= i < entries.len() ==> held.contains_key(*(#[trigger] entries[i]).0)
                        && held[*entries[i].0] == *entries[i].1,
                forall|k: u64| #[trigger] held.contains_key(k) ==> entries.contains((&k, &held[k])),
                block@ == merged_below(chunks, merged_up_to(entries, it.index())),
        {
            let ghost i = it.index();
            let ghost index = *entries[i].0;
            proof {
                assert(kv == entries[i]);
                assert(merged_up_to(entries, i) <= index) by {
                    if i > 0 {
                        assert(*entries[i - 1].0 < *entries[i].0);
                    }
                }
                assert forall|k: u64| merged_up_to(entries, i) <= k < index implies !chunks.contains_key(
                    k,
                ) by {
                    if held.contains_key(k) {
                        let p = choose|p: int| 0 <= p < entries.len() && entries[p] == (&k, &held[k]);
                        if p < i - 1 {
                            assert(*entries[p].0 < *entries[i - 1].0);
                        } else if p > i {
                            assert(*entries[i].0 < *entries[p].0);
                        }
                    }
                }
                lemma_merged_gap(chunks, merged_up_to(entries, i), index as nat);
                assert(chunks.contains_key(index));
                assert(chunks[index] == kv.1@);
            }
            block.absorb(kv.1);
        }
        proof {
            let n = entries.len() as int;
            assert forall|k: u64|
                merged_up_to(entries, n) <= k < 0x1_0000_0000_0000_0000 implies !chunks.contains_key(
                k,
            ) by {
                if held.contains_key(k) {
                    let p = choose|p: int| 0 <= p < entries.len() && entries[p] == (&k, &held[k]);
                    if p < n - 1 {
                        assert(*entries[p].0 < *entries[n - 1].0);
                    }
                }
            }
            lemma_merged_gap(chunks, merged_up_to(entries, n), 0x1_0000_0000_0000_0000);
        }
        block
    }
}

/// A message between the stages of the pipeline, or between a client and
/// the store.
#[derive(Debug)]
pub enum ProtocolMessage {
    /// Fetch the block of a slot from the source at the given address.
    FetchBlock(String, u64),
    /// A chunk of raw transactions: slot, chunk index, number of chunks.
    NewChuck(u64, u64, u64, Vec<EncodedTransaction>),
    /// A decoded chunk: slot, number of chunks, chunk index, partial block.
    ParsedBlock(u64, u64, u64, Block),
    /// A whole block, to be stored and finalized.
    FinalizeBlock(u64, Block),
    /// Ask for the record of a transaction by its hash.
    FetchTransactionDetails(String),
    /// The record of a transaction.
    TxDetails(TxRecord),
    /// Ask for the block of a slot, given as decimal text.
    FetchBlockDetails(String),
    /// Ask for the latest finalized block.
    FetchLatestBlock,
    /// The latest finalized slot and its block.
    LatestBlockDetails(u64, Block),
    /// The block of a slot.
    BlockDetails(Block),
    /// Ask for the blocks of the slots from the first to the second.
    FetchBlockRange(u64, u64),
    /// The blocks of a range of slots.
    BlockRangeDetails(BTreeMap<u64, Block>),
    /// Ask for the balance of an account at a slot, or at the latest slot.
    FetchAccountBalance(String, Option<u64>),
    /// The balance of an account.
    AccountBalance(u64),
    /// The message of an error.
    Error(String),
}

/// The views of the blocks of a range.
pub open spec fn block_views(blocks: Map<u64, Block>) -> Map<u64, BlockView> {
    blocks.map_values(|b: Block| b@)
}

/// What a message says.
pub enum MessageView {
    FetchBlock(Seq<char>, u64),
    NewChuck(u64, u64, u64, Seq<EncodedTransaction>),
    ParsedBlock(u64, u64, u64, BlockView),
    FinalizeBlock(u64, BlockView),
    FetchTransactionDetails(Seq<char>),
    TxDetails(TxRecordView),
    FetchBlockDetails(Seq<char>),
    FetchLatestBlock,
    LatestBlockDetails(u64, BlockView),
    BlockDetails(BlockView),
    FetchBlockRange(u64, u64),
    BlockRangeDetails(Map<u64, BlockView>),
    FetchAccountBalance(Seq<char>, Option<u64>),
    AccountBalance(u64),
    Error(Seq<char>),
}

impl View for ProtocolMessage {
    type V = MessageView;

    open spec fn view(&self) -> MessageView {
        match self {
            ProtocolMessage::FetchBlock(url, slot) => MessageView::FetchBlock(url@, *slot),
            ProtocolMessage::NewChuck(slot, chunk, total, txs) => MessageView::NewChuck(
                *slot,
                *chunk,
                *total,
                txs@,
            ),
            ProtocolMessage::ParsedBlock(slot, total, chunk, block) => MessageView::ParsedBlock(
                *slot,
                *total,
                *chunk,
                block@,
            ),
            ProtocolMessage::FinalizeBlock(slot, block) => MessageView::FinalizeBlock(
                *slot,
                block@,
            ),
            ProtocolMessage::FetchTransactionDetails(hash) => MessageView::FetchTransactionDetails(
                hash@,
            ),
            ProtocolMessage::TxDetails(record) => MessageView::TxDetails(record@),
            ProtocolMessage::FetchBlockDetails(slot) => MessageView::FetchBlockDetails(slot@),
            ProtocolMessage::FetchLatestBlock => MessageView::FetchLatestBlock,
            ProtocolMessage::LatestBlockDetails(slot, block) => MessageView::LatestBlockDetails(
                *slot,
                block@,
            ),
            ProtocolMessage::BlockDetails(block) => MessageView::BlockDetails(block@),
            ProtocolMessage::FetchBlockRange(start, end) => MessageView::FetchBlockRange(
                *start,
                *end,
            ),
            ProtocolMessage::BlockRangeDetails(blocks) => MessageView::BlockRangeDetails(
                block_views(blocks@),
            ),
            ProtocolMessage::FetchAccountBalance(account, slot) => MessageView::FetchAccountBalance(
                account@,
                *slot,
            ),
            ProtocolMessage::AccountBalance(balance) => MessageView::AccountBalance(*balance),
            ProtocolMessage::Error(text) => MessageView::Error(text@),
        }
    }
}

/// The view of an optional message.
pub open spec fn message_view(message: Option<ProtocolMessage>) -> Option<MessageView> {
    match message {
        Some(m) => Some(m@),
        None => None,
    }
}

impl ProtocolMessage {
    /// The message that carries a chunk of raw transactions.
    pub fn new_chuck(
        slot: u64,
        chunk_no: u64,
        total_chunks: u64,
        txs: Vec<EncodedTransaction>,
    ) -> (r: Self)
        ensures
            r@ == MessageView::NewChuck(slot, chunk_no, total_chunks, txs@),
    {
        ProtocolMessage::NewChuck(slot, chunk_no, total_chunks, txs)
    }

    /// The message that asks for the block of `slot` from `client_url`.
    pub fn fetch_block(client_url: String, slot: u64) -> (r: Self)
        ensures
            r@ == MessageView::FetchBlock(client_url@, slot),
    {
        ProtocolMessage::FetchBlock(client_url, slot)
    }

    /// The message that carries a decoded chunk.
    pub fn parsed_block(slot: u64, total_chunks: u64, chunk_no: u64, block: Block) -> (r: Self)
        ensures
            r@ == MessageView::ParsedBlock(slot, total_chunks, chunk_no, block@),
    {
        ProtocolMessage::ParsedBlock(slot, total_chunks, chunk_no, block)
    }
}

/// The parameters of a balance query: the slot to answer for, where the
/// client names one.
#[derive(Debug)]
pub struct QueryParams {
    pub block_no: Option<u64>,
}

} // verus!
