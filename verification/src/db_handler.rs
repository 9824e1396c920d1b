//! The finalization store: it keeps every block that arrives, finalizes
//! blocks in slot order with cascading catch-up, and answers point queries.

use crate::decimal::parse_decimal;
use crate::error::AggError;
use crate::finality::chain;
use crate::finality::law_pending_invariant;
use crate::finality::lemma_loaded;
use crate::finality::RecordView;
use crate::finality::StoreView;
use crate::text_map::TextMap;
use crate::util::AccountMap;
use crate::util::block_views;
use crate::util::lay_over;
use crate::util::message_view;
use crate::util::Block;
use crate::util::ProtocolMessage;
use crate::util::TxRecord;
use std::collections::BTreeMap;
use std::collections::BTreeSet;
use vstd::prelude::*;

verus! {

broadcast use {vstd::std_specs::btree::group_btree_axioms, vstd::laws_cmp::group_laws_cmp};

/// What the store keeps for one slot: the block, and whether it has been
/// finalized.
#[derive(Debug)]
pub struct FinalizationRecord {
    block: Block,
    finalized: bool,
}

impl View for FinalizationRecord {
    type V = RecordView;

    closed spec fn view(&self) -> RecordView {
        RecordView { block: self.block@, finalized: self.finalized }
    }
}

impl FinalizationRecord {
    /// The stored block.
    pub fn block(&self) -> (r: &Block)
        ensures
            r@ == self@.block,
    {
        &self.block
    }

    /// Whether the block has been finalized.
    pub fn is_finalized(&self) -> (r: bool)
        ensures
            r == self@.finalized,
    {
        self.finalized
    }
}

/// The views of stored records.
pub open spec fn stored_views(records: Map<u64, FinalizationRecord>) -> Map<u64, RecordView> {
    records.map_values(|r: FinalizationRecord| r@)
}

/// Whether a block that was kept under `slot` counts as finalized when
/// `latest` was kept with it: it does where its slot is not beyond `latest`.
pub open spec fn counts_as_finalized(latest: Option<u64>, slot: u64) -> bool {
    latest matches Some(reached) && slot <= reached
}

/// The records that the blocks kept of an earlier run stand for.
pub open spec fn kept_views(latest: Option<u64>, stored: Seq<(u64, Block)>) -> Seq<
    (u64, RecordView),
> {
    stored.map_values(
        |kept: (u64, Block)|
            (
                kept.0,
                RecordView { block: kept.1@, finalized: counts_as_finalized(latest, kept.0) },
            ),
    )
}

/// The state that the parts of a store stand for.
pub open spec fn assemble(
    records: Map<u64, FinalizationRecord>,
    tx_index: Map<Seq<char>, u64>,
    latest: Option<u64>,
    pending: Set<u64>,
) -> StoreView {
    StoreView { records: stored_views(records), tx_index, latest, pending }
}

/// A list that holds the elements of a set holds a text exactly where the
/// set does.
proof fn lemma_listed(texts: Seq<Seq<char>>, keys: Set<Seq<char>>)
    requires
        texts.to_set() == keys,
    ensures
        forall|text: Seq<char>| texts.contains(text) <==> keys.contains(text),
{
    assert forall|text: Seq<char>| texts.contains(text) <==> keys.contains(text) by {
        assert(texts.to_set().contains(text) <==> texts.contains(text));
    }
}

/// Indexes each of `hashes` to `slot`.
fn index_transactions(tx_index: &mut TextMap<u64>, hashes: &Vec<String>, slot: u64)
    ensures
        forall|hash: Seq<char>|
            final(tx_index)@.contains_key(hash) <==> old(tx_index)@.contains_key(hash)
                || hashes@.map_values(|h: String| h@).contains(hash),
        forall|hash: Seq<char>| #[trigger]
            final(tx_index)@.contains_key(hash) ==> final(tx_index)@[hash] == if hashes@.map_values(
                |h: String| h@,
            ).contains(hash) {
                slot
            } else {
                old(tx_index)@[hash]
            },
{
    let ghost texts = hashes@.map_values(|h: String| h@);
    let mut i: usize = 0;
    while i < hashes.len()
        invariant
            i <= hashes@.len(),
            texts == hashes@.map_values(|h: String| h@),
            forall|hash: Seq<char>|
                tx_index@.contains_key(hash) <==> old(tx_index)@.contains_key(hash)
                    || texts.subrange(0, i as int).contains(hash),
            forall|hash: Seq<char>| #[trigger]
                tx_index@.contains_key(hash) ==> tx_index@[hash] == if texts.subrange(
                    0,
                    i as int,
                ).contains(hash) {
                    slot
                } else {
                    old(tx_index)@[hash]
                },
        decreases hashes@.len() - i,
    {
        let ghost before = tx_index@;
        tx_index.insert(hashes[i].clone(), slot);
        proof {
            let done = texts.subrange(0, i as int);
            let next = texts.subrange(0, i + 1);
            assert(next =~= done.push(texts[i as int]));
            assert forall|hash: Seq<char>| next.contains(hash) <==> done.contains(hash) || hash
                == texts[i as int] by {
                if done.contains(hash) {
                    let j = choose|j: int| 0 <= j < done.len() && done[j] == hash;
                    assert(next[j] == hash);
                }
                if hash == texts[i as int] {
                    assert(next[i as int] == hash);
                }
            }
        }
        i += 1;
    }
    assert(texts.subrange(0, i as int) =~= texts);
}

/// Finalizes the block stored under `slot`: its account map becomes the one
/// stored under `latest` with the block's own balances laid over it. Where
/// no block is stored under `slot`, nothing changes and the answer is
/// `BlockNotFound`.
fn finalize_slot(
    records: &mut BTreeMap<u64, FinalizationRecord>,
    latest: Option<u64>,
    slot: u64,
) -> (r: Result<(), AggError>)
    ensures
        match r {
            Ok(_) => old(records)@.contains_key(slot) && stored_views(final(records)@)
                == assemble(
                old(records)@,
                Map::empty(),
                latest,
                Set::empty(),
            ).finalize(slot).records,
            Err(err) => !old(records)@.contains_key(slot) && err == AggError::BlockNotFound
                && final(records)@ == old(records)@,
        },
{
    if !records.contains_key(&slot) {
        return Err(AggError::BlockNotFound);
    }
    let mut snapshot: AccountMap = TextMap::new();
    match latest {
        Some(previous) => {
            match records.get(&previous) {
                Some(record) => {
                    match record.block.accounts() {
                        Some(base) => {
                            lay_over(&mut snapshot, base);
                            assert(snapshot@ =~= base@);
                        },
                        None => {},
                    }
                },
                None => {},
            }
        },
        None => {},
    }
    let ghost base = snapshot@;
    assert(base == assemble(
        records@,
        Map::empty(),
        latest,
        Set::empty(),
    ).base_snapshot());
    match records.remove(&slot) {
        Some(record) => {
            let mut block = record.block;
            match block.accounts() {
                Some(delta) => {
                    lay_over(&mut snapshot, delta);
                },
                None => {},
            }
            block.set_account_map(snapshot);
            records.insert(slot, FinalizationRecord { block, finalized: true });
        },
        None => {},
    }
    assert(stored_views(records@) =~= assemble(
        old(records)@,
        Map::empty(),
        latest,
        Set::empty(),
    ).finalize(slot).records);
    Ok(())
}

/// The finalization store.
#[derive(Debug)]
pub struct FinalizationStore {
    records: BTreeMap<u64, FinalizationRecord>,
    tx_index: TextMap<u64>,
    latest: Option<u64>,
    pending: BTreeSet<u64>,
}

impl View for FinalizationStore {
    type V = StoreView;

    closed spec fn view(&self) -> StoreView {
        assemble(self.records@, self.tx_index@, self.latest, self.pending@)
    }
}

impl FinalizationStore {
    #[verifier::type_invariant]
    spec fn inv(self) -> bool {
        self@.wf()
    }

    /// A store that has seen no block.
    pub fn new() -> (r: Self)
        ensures
            r@ == StoreView::empty(),
    {
        let records: BTreeMap<u64, FinalizationRecord> = BTreeMap::new();
        assert(stored_views(records@) =~= Map::empty());
        FinalizationStore {
            records,
            tx_index: TextMap::new(),
            latest: None,
            pending: BTreeSet::new(),
        }
    }

    /// A store that starts again from what was kept of an earlier run: the
    /// blocks of `stored`, each with its slot, and `latest`. What was kept
    /// carries no mark of finalization: a block counts as finalized where its
    /// slot is not beyond `latest`, and its account map is then read as its
    /// snapshot. Where a slot is given twice, the entry that comes first
    /// stands.
    pub fn restore(latest: Option<u64>, stored: Vec<(u64, Block)>) -> (r: Self)
        ensures
            r@ == StoreView::restored(latest, kept_views(latest, stored@)),
            r@.wf(),
    {
        let ghost all = kept_views(latest, stored@);
        let mut stored = stored;
        let mut records: BTreeMap<u64, FinalizationRecord> = BTreeMap::new();
        let mut tx_index: TextMap<u64> = TextMap::new();
        assert(stored_views(records@) =~= Map::empty());
        assert(all.subrange(all.len() as int, all.len() as int) =~= Seq::empty());
        while stored.len() > 0
            invariant
                stored@.len() <= all.len(),
                kept_views(latest, stored@) == all.subrange(0, stored@.len() as int),
                assemble(records@, tx_index@, None, Set::empty()) == StoreView::loaded(
                    all.subrange(stored@.len() as int, all.len() as int),
                ),
            decreases stored@.len(),
        {
            let ghost before = assemble(records@, tx_index@, None, Set::empty());
            let ghost rest = all.subrange(stored@.len() as int, all.len() as int);
            let ghost held = stored@;
            match stored.pop() {
                Some(kept) => {
                    let (slot, block) = kept;
                    let finalized = match latest {
                        Some(reached) => slot <= reached,
                        None => false,
                    };
                    let hashes = block.get_tx_hash();
                    index_transactions(&mut tx_index, &hashes, slot);
                    let ghost record = RecordView { block: block@, finalized };
                    records.insert(slot, FinalizationRecord { block, finalized });
                    proof {
                        lemma_listed(hashes@.map_values(|h: String| h@), record.block.tx_map.dom());
                        let after = assemble(records@, tx_index@, None, Set::empty());
                        assert(after.tx_index =~= before.load(slot, record).tx_index);
                        assert(after.records =~= before.load(slot, record).records);
                        let longer = all.subrange(stored@.len() as int, all.len() as int);
                        assert(kept_views(latest, held)[held.len() - 1] == (slot, record));
                        assert(longer[0] == (slot, record));
                        assert(longer.drop_first() =~= rest);
                        assert(kept_views(latest, stored@) =~= all.subrange(
                            0,
                            stored@.len() as int,
                        ));
                    }
                },
                None => {},
            }
        }
        proof {
            assert(all.subrange(0, all.len() as int) =~= all);
            lemma_loaded(all);
        }
        let kept = match latest {
            Some(slot) => records.contains_key(&slot),
            None => false,
        };
        if kept {
            FinalizationStore { records, tx_index, latest, pending: BTreeSet::new() }
        } else {
            FinalizationStore::new()
        }
    }

    /// Takes in the block that arrived for `block_no`: stores it, indexes its
    /// transactions, and finalizes it and every pending slot that follows
    /// without a gap, or parks it. Returns the slots that were finalized, in
    /// the order in which `latest` took their values.
    pub fn handle_block(&mut self, block_no: u64, block: Block) -> (finalized: Vec<u64>)
        ensures
            final(self)@ == old(self)@.ingest(block_no, block@),
            finalized@ == old(self)@.finalized_by(block_no),
            final(self)@.wf(),
    {
        proof {
            use_type_invariant(&*self);
            law_pending_invariant(self@, block_no, block@);
        }
        let mut taken = FinalizationStore::new();
        core::mem::swap(self, &mut taken);
        let FinalizationStore { mut records, mut tx_index, latest, mut pending } = taken;
        let ghost start = assemble(records@, tx_index@, latest, pending@);
        assert(start == old(self)@);

        let hashes = block.get_tx_hash();
        index_transactions(&mut tx_index, &hashes, block_no);
        records.insert(block_no, FinalizationRecord { block, finalized: false });
        let ghost stored = assemble(records@, tx_index@, latest, pending@);
        proof {
            lemma_listed(hashes@.map_values(|h: String| h@), block@.tx_map.dom());
            assert(stored.tx_index =~= start.persist(block_no, block@).tx_index);
            assert(stored.records =~= start.persist(block_no, block@).records);
            assert(stored == start.persist(block_no, block@));
        }

        let mut finalized: Vec<u64> = Vec::new();
        let mut current: Option<u64> = latest;
        let follows = match latest {
            Some(l) => l < u64::MAX && block_no == l + 1,
            None => true,
        };
        if follows {
            let first_step = finalize_slot(&mut records, latest, block_no);
            assert(first_step is Ok);
            current = Some(block_no);
            finalized.push(block_no);
            let ghost first = assemble(records@, tx_index@, current, pending@);
            assert(first == stored.finalize(block_no));
            let mut at: u64 = block_no;
            if latest.is_some() {
                loop
                    invariant
                        current == Some(at),
                        assemble(records@, tx_index@, current, pending@).drain() == first.drain(),
                        finalized@ + chain(pending@, at) == seq![block_no] + chain(
                            first.pending,
                            block_no,
                        ),
                        forall|slot: u64| #[trigger]
                            pending@.contains(slot) ==> stored_views(records@).contains_key(slot),
                    ensures
                        assemble(records@, tx_index@, current, pending@) == first.drain(),
                        finalized@ == seq![block_no] + chain(first.pending, block_no),
                    decreases u64::MAX - at,
                {
                    if at == u64::MAX {
                        break ;
                    }
                    let next = at + 1;
                    if !pending.contains(&next) {
                        break ;
                    }
                    let ghost before = assemble(records@, tx_index@, current, pending@);
                    let ghost done = finalized@;
                    assert(stored_views(records@).contains_key(next));
                    let next_step = finalize_slot(&mut records, current, next);
                    assert(next_step is Ok);
                    pending.remove(&next);
                    current = Some(next);
                    finalized.push(next);
                    proof {
                        assert(assemble(records@, tx_index@, current, pending@)
                            == before.finalize(next).release(next));
                        crate::finality::lemma_chain_ignores_low(before.pending, next, next);
                        assert(finalized@ + chain(pending@, next) =~= done + chain(
                            before.pending,
                            at,
                        )) by {
                            assert(chain(before.pending, at) == seq![next] + chain(
                                before.pending,
                                next,
                            ));
                        }
                    }
                    at = next;
                }
            } else {
                assert(finalized@ =~= seq![block_no]);
            }
        } else {
            pending.insert(block_no);
        }
        *self = FinalizationStore { records, tx_index, latest: current, pending };
        finalized
    }

    /// The highest contiguously finalized slot.
    pub fn get_latest_block(&self) -> (r: Option<u64>)
        ensures
            r == self@.latest,
            self@.wf(),
    {
        proof {
            use_type_invariant(self);
        }
        self.latest
    }

    /// A copy of the block stored under `block_no`.
    pub fn get_block(&self, block_no: u64) -> (r: Option<Block>)
        ensures
            match r {
                Some(block) => self@.records.contains_key(block_no) && block@
                    == self@.records[block_no].block,
                None => !self@.records.contains_key(block_no),
            },
    {
        match self.records.get(&block_no) {
            Some(record) => Some(record.block.clone()),
            None => None,
        }
    }

    /// Whether `block_no` is stored but not finalized.
    pub fn is_pending(&self, block_no: u64) -> (r: bool)
        ensures
            r == self@.pending.contains(block_no),
    {
        self.pending.contains(&block_no)
    }

    /// Whether the block stored under `block_no` carries a snapshot.
    pub fn is_finalized(&self, block_no: u64) -> (r: bool)
        ensures
            r == (self@.records.contains_key(block_no) && self@.records[block_no].finalized),
    {
        match self.records.get(&block_no) {
            Some(record) => record.finalized,
            None => false,
        }
    }

    /// The record of the transaction with the hash `tx_id`.
    pub fn handle_tx_request(&self, tx_id: String) -> (r: Result<TxRecord, AggError>)
        ensures
            match self@.tx_details(tx_id@) {
                Ok(record) => r matches Ok(found) && found@ == record,
                Err(err) => r matches Err(e) && e == err,
            },
    {
        match self.tx_index.get(&tx_id) {
            Some(block_no) => {
                match self.records.get(block_no) {
                    Some(record) => {
                        match record.block.get_tx_details(tx_id.as_str()) {
                            Some(tx) => Ok(tx.clone()),
                            None => Err(AggError::TxNotFound),
                        }
                    },
                    None => Err(AggError::BlockNotFound),
                }
            },
            None => Err(AggError::TxNotFound),
        }
    }

    /// The block of the slot whose decimal text is `block_no`.
    pub fn handle_block_request(&self, block_no: String) -> (r: Result<Block, AggError>)
        ensures
            match self@.block_details(block_no@) {
                Ok(block) => r matches Ok(found) && found@ == block,
                Err(err) => r matches Err(e) && e == err,
            },
    {
        match parse_decimal(block_no.as_str()) {
            Some(slot) => {
                match self.records.get(&slot) {
                    Some(record) => Ok(record.block.clone()),
                    None => Err(AggError::BlockNotFound),
                }
            },
            None => Err(AggError::BlockNotFound),
        }
    }

    /// The latest finalized slot and its block.
    pub fn handle_latest_block_request(&self) -> (r: Result<(u64, Block), AggError>)
        ensures
            match self@.latest_block() {
                Ok(latest) => r matches Ok(found) && found.0 == latest.0 && found.1@ == latest.1,
                Err(err) => r matches Err(e) && e == err,
            },
    {
        match self.latest {
            Some(block_no) => {
                match self.records.get(&block_no) {
                    Some(record) => Ok((block_no, record.block.clone())),
                    None => Err(AggError::BlockNotFound),
                }
            },
            None => Err(AggError::NoBlockFinalised),
        }
    }

    /// The blocks of the stored slots from `start` to `end`, by slot. Slots
    /// that are not stored are passed over.
    pub fn handle_block_range_request(&self, start: u64, end: u64) -> (r: BTreeMap<
        u64,
        Block,
    >)
        ensures
            block_views(r@) == self@.block_range(start, end),
    {
        let mut blocks: BTreeMap<u64, Block> = BTreeMap::new();
        if start > end {
            assert(block_views(blocks@) =~= self@.block_range(start, end));
            return blocks;
        }
        let mut block_no: u64 = start;
        assert(block_views(blocks@) =~= Map::new(
            |slot: u64| start <= slot < block_no && self@.records.contains_key(slot),
            |slot: u64| self@.records[slot].block,
        ));
        loop
            invariant_except_break
                block_views(blocks@) == Map::new(
                    |slot: u64| start <= slot < block_no && self@.records.contains_key(slot),
                    |slot: u64| self@.records[slot].block,
                ),
            invariant
                start <= block_no <= end,
            ensures
                block_views(blocks@) == self@.block_range(start, end),
            decreases end - block_no,
        {
            let ghost before = block_views(blocks@);
            let ghost through = Map::new(
                |slot: u64| start <= slot <= block_no && self@.records.contains_key(slot),
                |slot: u64| self@.records[slot].block,
            );
            match self.records.get(&block_no) {
                Some(record) => {
                    let copy = record.block.clone();
                    blocks.insert(block_no, copy);
                    assert(self@.records.contains_key(block_no));
                    assert(self@.records[block_no].block == copy@);
                    assert(block_views(blocks@) =~= before.insert(block_no, copy@));
                    assert(block_views(blocks@) =~= through);
                },
                None => {
                    assert(!self@.records.contains_key(block_no));
                    assert(block_views(blocks@) =~= through);
                },
            }
            if block_no == end {
                assert(through =~= self@.block_range(start, end));
                break ;
            }
            assert(through =~= Map::new(
                |slot: u64| start <= slot < block_no + 1 && self@.records.contains_key(slot),
                |slot: u64| self@.records[slot].block,
            ));
            block_no += 1;
        }
        blocks
    }

    /// The balance of the account `pubkey` in the snapshot of `block_no`,
    /// or of the latest finalized slot where none is given. The balance is
    /// zero where the slot has no snapshot or the snapshot does not name the
    /// account. Where the slot is not stored the answer is `BlockNotFound`;
    /// where none is given and nothing is finalized yet, `NoBlockFinalised`.
    pub fn handle_account_balance_request(
        &self,
        pubkey: String,
        block_no: Option<u64>,
    ) -> (r: Result<u64, AggError>)
        ensures
            match self@.account_balance(pubkey@, block_no) {
                Ok(balance) => r matches Ok(found) && found == balance,
                Err(err) => r matches Err(e) && e == err,
            },
    {
        let at = match block_no {
            Some(block_no) => Some(block_no),
            None => self.latest,
        };
        match at {
            Some(block_no) => {
                match self.records.get(&block_no) {
                    Some(record) => {
                        if record.finalized {
                            match record.block.get_account_balance(pubkey.as_str()) {
                                Some(balance) => Ok(balance),
                                None => Ok(0),
                            }
                        } else {
                            Ok(0)
                        }
                    },
                    None => Err(AggError::BlockNotFound),
                }
            },
            None => Err(AggError::NoBlockFinalised),
        }
    }

    /// The message that tells a client of `error`.
    pub fn handle_error(error: AggError) -> (r: ProtocolMessage)
        ensures
            !error.has_outside_text() ==> r@ == crate::util::MessageView::Error(error.text()),
            r is Error,
    {
        ProtocolMessage::Error(error.message())
    }

    /// Handles one message: a block to finalize changes the state and gets
    /// no reply; a query leaves the state as it is and gets exactly one
    /// reply, its answer or the message of the error; any other message is
    /// passed over.
    pub fn step(&mut self, message: ProtocolMessage) -> (r: StoreOutcome)
        ensures
            final(self)@ == old(self)@.after(message@),
            message_view(r.reply) == old(self)@.answer(message@),
            r.finalized@ == old(self)@.finalized_on(message@),
            final(self)@.wf(),
    {
        proof {
            use_type_invariant(&*self);
        }
        match message {
            ProtocolMessage::FinalizeBlock(block_no, block) => {
                let finalized = self.handle_block(block_no, block);
                StoreOutcome { reply: None, finalized }
            },
            ProtocolMessage::FetchTransactionDetails(tx_id) => {
                let reply = match self.handle_tx_request(tx_id) {
                    Ok(record) => ProtocolMessage::TxDetails(record),
                    Err(error) => Self::handle_error(error),
                };
                StoreOutcome { reply: Some(reply), finalized: Vec::new() }
            },
            ProtocolMessage::FetchBlockDetails(block_no) => {
                let reply = match self.handle_block_request(block_no) {
                    Ok(block) => ProtocolMessage::BlockDetails(block),
                    Err(error) => Self::handle_error(error),
                };
                StoreOutcome { reply: Some(reply), finalized: Vec::new() }
            },
            ProtocolMessage::FetchLatestBlock => {
                let reply = match self.handle_latest_block_request() {
                    Ok(found) => ProtocolMessage::LatestBlockDetails(found.0, found.1),
                    Err(error) => Self::handle_error(error),
                };
                StoreOutcome { reply: Some(reply), finalized: Vec::new() }
            },
            ProtocolMessage::FetchBlockRange(start, end) => {
                let blocks = self.handle_block_range_request(start, end);
                StoreOutcome {
                    reply: Some(ProtocolMessage::BlockRangeDetails(blocks)),
                    finalized: Vec::new(),
                }
            },
            ProtocolMessage::FetchAccountBalance(pubkey, block_no) => {
                let reply = match self.handle_account_balance_request(pubkey, block_no) {
                    Ok(balance) => ProtocolMessage::AccountBalance(balance),
                    Err(error) => Self::handle_error(error),
                };
                StoreOutcome { reply: Some(reply), finalized: Vec::new() }
            },
            _ => StoreOutcome { reply: None, finalized: Vec::new() },
        }
    }
}

/// What handling one message gives: the reply to send, if any, and the
/// slots that were finalized, in order.
#[derive(Debug)]
pub struct StoreOutcome {
    pub reply: Option<ProtocolMessage>,
    pub finalized: Vec<u64>,
}

} // verus!
