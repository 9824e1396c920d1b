//! The finalization protocol as a state machine over mathematical maps.
//!
//! A store persists every block that arrives, finalizes blocks in slot
//! order, and parks those that arrive ahead of their turn. This module says
//! what each step does to the state; `db_handler` holds the store that
//! carries the steps out.

use crate::decimal::text_slot;
use crate::error::AggError;
use crate::util::balances;
use crate::util::lemma_contains_drop_last;
use crate::util::MessageView;
use crate::util::TxRecordView;
use crate::util::overlay;
use crate::util::BlockView;
use vstd::prelude::*;

verus! {

/// What the store keeps for one slot.
pub struct RecordView {
    /// The block; once finalized, its account map is the snapshot.
    pub block: BlockView,
    /// Whether the block carries a snapshot.
    pub finalized: bool,
}

impl RecordView {
    /// The balance snapshot of the slot, present once it is finalized.
    pub open spec fn snapshot(self) -> Option<Map<Seq<char>, u64>> {
        if self.finalized {
            Some(balances(self.block.account_map))
        } else {
            None
        }
    }

    /// The balance that a query for `account` at this slot is answered
    /// with: that of the snapshot, and zero where the slot has no snapshot
    /// or the snapshot does not name the account.
    pub open spec fn balance(self, account: Seq<char>) -> u64 {
        match self.snapshot() {
            Some(snapshot) => if snapshot.contains_key(account) {
                snapshot[account]
            } else {
                0
            },
            None => 0,
        }
    }
}

/// The state of a store.
pub struct StoreView {
    /// Slot to block, for every block that ever arrived.
    pub records: Map<u64, RecordView>,
    /// Transaction hash to the slot that last brought it.
    pub tx_index: Map<Seq<char>, u64>,
    /// The highest contiguously finalized slot.
    pub latest: Option<u64>,
    /// The slots that are stored but not finalized.
    pub pending: Set<u64>,
}

/// The slots that a drain finalizes: the run of pending slots that follows
/// `latest` without a gap, in order.
pub open spec fn chain(pending: Set<u64>, latest: u64) -> Seq<u64>
    decreases u64::MAX - latest,
{
    if latest < u64::MAX && pending.contains((latest + 1) as u64) {
        seq![(latest + 1) as u64] + chain(pending, (latest + 1) as u64)
    } else {
        Seq::empty()
    }
}

impl StoreView {
    /// The state of a store that has seen no block.
    pub open spec fn empty() -> StoreView {
        StoreView {
            records: Map::empty(),
            tx_index: Map::empty(),
            latest: None,
            pending: Set::empty(),
        }
    }

    /// What holds of the state between any two ingestions.
    pub open spec fn wf(self) -> bool {
        &&& self.consistent()
        &&& self.latest is None ==> self.records == Map::<u64, RecordView>::empty()
            && self.pending == Set::<u64>::empty() && self.tx_index == Map::<
            Seq<char>,
            u64,
        >::empty()
        &&& self.latest matches Some(latest) ==> self.records.contains_key(latest)
        &&& self.latest matches Some(latest) ==> forall|slot: u64| #[trigger]
            self.pending.contains(slot) ==> slot != latest + 1
    }

    /// Every pending slot is stored and has no snapshot, and every indexed
    /// transaction points at a stored slot.
    pub open spec fn consistent(self) -> bool {
        &&& forall|slot: u64| #[trigger]
            self.pending.contains(slot) ==> self.records.contains_key(slot)
                && self.records[slot].snapshot() is None
        &&& forall|hash: Seq<char>| #[trigger]
            self.tx_index.contains_key(hash) ==> self.records.contains_key(self.tx_index[hash])
    }

    /// Whether `slot` is the one that may be finalized next after `latest`.
    pub open spec fn follows(self, slot: u64) -> bool {
        self.latest matches Some(latest) && slot == latest + 1
    }

    /// The snapshot that the next finalization builds on: the account map
    /// stored at `latest`, and no balances where nothing is finalized yet.
    pub open spec fn base_snapshot(self) -> Map<Seq<char>, u64> {
        match self.latest {
            Some(latest) => if self.records.contains_key(latest) {
                balances(self.records[latest].block.account_map)
            } else {
                Map::empty()
            },
            None => Map::empty(),
        }
    }

    /// The state with `record` stored under `slot`, and each transaction
    /// hash of its block indexed to `slot`.
    pub open spec fn load(self, slot: u64, record: RecordView) -> StoreView {
        StoreView {
            records: self.records.insert(slot, record),
            tx_index: Map::new(
                |hash: Seq<char>|
                    self.tx_index.contains_key(hash) || record.block.tx_map.contains_key(hash),
                |hash: Seq<char>|
                    if record.block.tx_map.contains_key(hash) {
                        slot
                    } else {
                        self.tx_index[hash]
                    },
            ),
            ..self
        }
    }

    /// The state with `block` stored under `slot` as it arrived, and each of
    /// its transaction hashes indexed to `slot`.
    pub open spec fn persist(self, slot: u64, block: BlockView) -> StoreView {
        self.load(slot, RecordView { block, finalized: false })
    }

    /// The records and the index of a store into which the records of
    /// `stored` have been loaded, from the last to the first.
    pub open spec fn loaded(stored: Seq<(u64, RecordView)>) -> StoreView
        decreases stored.len(),
    {
        if stored.len() == 0 {
            StoreView::empty()
        } else {
            Self::loaded(stored.drop_first()).load(stored[0].0, stored[0].1)
        }
    }

    /// The state of a store that starts again from the records of `stored`:
    /// those records, the index that they give, and `latest`. Nothing is
    /// pending: what was pending is forgotten with the run. Where no `latest`
    /// was kept, or its block is not among the records, the store starts
    /// empty.
    pub open spec fn restored(latest: Option<u64>, stored: Seq<(u64, RecordView)>) -> StoreView {
        match latest {
            Some(slot) => if Self::loaded(stored).records.contains_key(slot) {
                StoreView { latest: Some(slot), ..Self::loaded(stored) }
            } else {
                StoreView::empty()
            },
            None => StoreView::empty(),
        }
    }

    /// The state with the block stored under `slot` finalized: its account
    /// map becomes the base snapshot with the block's own balances laid over
    /// it, and `latest` becomes `slot`.
    pub open spec fn finalize(self, slot: u64) -> StoreView {
        let block = self.records[slot].block;
        let snapshot = overlay(self.base_snapshot(), block.account_map);
        StoreView {
            records: self.records.insert(
                slot,
                RecordView { block: block.with_account_map(snapshot), finalized: true },
            ),
            latest: Some(slot),
            ..self
        }
    }

    /// The state with `slot` taken out of the pending set.
    pub open spec fn release(self, slot: u64) -> StoreView {
        StoreView { pending: self.pending.remove(slot), ..self }
    }

    /// The state with `slot` put into the pending set.
    pub open spec fn park(self, slot: u64) -> StoreView {
        StoreView { pending: self.pending.insert(slot), ..self }
    }

    /// The state after the cascade: as long as the slot after `latest` is
    /// pending, it is finalized and released.
    pub open spec fn drain(self) -> StoreView
        decreases
            match self.latest {
                Some(latest) => u64::MAX - latest,
                None => 0,
            },
    {
        match self.latest {
            Some(latest) => if latest < u64::MAX && self.pending.contains((latest + 1) as u64) {
                self.finalize((latest + 1) as u64).release((latest + 1) as u64).drain()
            } else {
                self
            },
            None => self,
        }
    }

    /// The state after the block `block` has arrived for `slot`.
    pub open spec fn ingest(self, slot: u64, block: BlockView) -> StoreView {
        let stored = self.persist(slot, block);
        if self.latest is None {
            stored.finalize(slot)
        } else if self.follows(slot) {
            stored.finalize(slot).drain()
        } else {
            stored.park(slot)
        }
    }

    /// The slots that the arrival of a block for `slot` finalizes, in the
    /// order in which `latest` takes their values.
    pub open spec fn finalized_by(self, slot: u64) -> Seq<u64> {
        if self.latest is None {
            seq![slot]
        } else if self.follows(slot) {
            seq![slot] + chain(self.pending, slot)
        } else {
            Seq::empty()
        }
    }

    /// The answer to a request for the record of the transaction `hash`:
    /// found through the index and the block of the indexed slot.
    pub open spec fn tx_details(self, hash: Seq<char>) -> Result<TxRecordView, AggError> {
        if !self.tx_index.contains_key(hash) {
            Err(AggError::TxNotFound)
        } else if !self.records.contains_key(self.tx_index[hash]) {
            Err(AggError::BlockNotFound)
        } else if !self.records[self.tx_index[hash]].block.tx_map.contains_key(hash) {
            Err(AggError::TxNotFound)
        } else {
            Ok(self.records[self.tx_index[hash]].block.tx_map[hash])
        }
    }

    /// The answer to a request for the block of the slot written as `text`.
    pub open spec fn block_details(self, text: Seq<char>) -> Result<BlockView, AggError> {
        match text_slot(text) {
            Some(slot) => if self.records.contains_key(slot) {
                Ok(self.records[slot].block)
            } else {
                Err(AggError::BlockNotFound)
            },
            None => Err(AggError::BlockNotFound),
        }
    }

    /// The answer to a request for the latest finalized block.
    pub open spec fn latest_block(self) -> Result<(u64, BlockView), AggError> {
        match self.latest {
            Some(latest) => if self.records.contains_key(latest) {
                Ok((latest, self.records[latest].block))
            } else {
                Err(AggError::BlockNotFound)
            },
            None => Err(AggError::NoBlockFinalised),
        }
    }

    /// The blocks of the stored slots from `start` to `end`, both included.
    pub open spec fn block_range(self, start: u64, end: u64) -> Map<u64, BlockView> {
        Map::new(
            |slot: u64| start <= slot <= end && self.records.contains_key(slot),
            |slot: u64| self.records[slot].block,
        )
    }

    /// The answer to a request for the balance of `account` at `slot`, or at
    /// `latest` where no slot is given: the balance of the slot's record,
    /// `NoBlockFinalised` where no slot is given and nothing is finalized
    /// yet, and `BlockNotFound` where the slot is not stored.
    pub open spec fn account_balance(self, account: Seq<char>, slot: Option<u64>) -> Result<
        u64,
        AggError,
    > {
        let at = match slot {
            Some(slot) => Some(slot),
            None => self.latest,
        };
        match at {
            Some(slot) => if self.records.contains_key(slot) {
                Ok(self.records[slot].balance(account))
            } else {
                Err(AggError::BlockNotFound)
            },
            None => Err(AggError::NoBlockFinalised),
        }
    }

    /// The reply to a request that ended in `result`.
    pub open spec fn reply<T>(
        result: Result<T, AggError>,
        found: spec_fn(T) -> MessageView,
    ) -> MessageView {
        match result {
            Ok(value) => found(value),
            Err(err) => MessageView::Error(err.text()),
        }
    }

    /// The reply that the store gives to `message`. Every query gets exactly
    /// one; no other message gets any.
    pub open spec fn answer(self, message: MessageView) -> Option<MessageView> {
        match message {
            MessageView::FetchTransactionDetails(hash) => Some(
                Self::reply(self.tx_details(hash), |r: TxRecordView| MessageView::TxDetails(r)),
            ),
            MessageView::FetchBlockDetails(text) => Some(
                Self::reply(self.block_details(text), |b: BlockView| MessageView::BlockDetails(b)),
            ),
            MessageView::FetchLatestBlock => Some(
                Self::reply(
                    self.latest_block(),
                    |found: (u64, BlockView)| MessageView::LatestBlockDetails(found.0, found.1),
                ),
            ),
            MessageView::FetchBlockRange(start, end) => Some(
                MessageView::BlockRangeDetails(self.block_range(start, end)),
            ),
            MessageView::FetchAccountBalance(account, slot) => Some(
                Self::reply(
                    self.account_balance(account, slot),
                    |balance: u64| MessageView::AccountBalance(balance),
                ),
            ),
            _ => None,
        }
    }

    /// The state after the store has handled `message`.
    pub open spec fn after(self, message: MessageView) -> StoreView {
        match message {
            MessageView::FinalizeBlock(slot, block) => self.ingest(slot, block),
            _ => self,
        }
    }

    /// The slots that handling `message` finalizes.
    pub open spec fn finalized_on(self, message: MessageView) -> Seq<u64> {
        match message {
            MessageView::FinalizeBlock(slot, block) => self.finalized_by(slot),
            _ => Seq::empty(),
        }
    }

    /// The state after the blocks of `arrivals` have arrived in that order,
    /// the block of each slot taken from `blocks`.
    pub open spec fn ingest_all(self, arrivals: Seq<u64>, blocks: Map<u64, BlockView>) -> StoreView
        decreases arrivals.len(),
    {
        if arrivals.len() == 0 {
            self
        } else {
            self.ingest_all(arrivals.drop_last(), blocks).ingest(
                arrivals.last(),
                blocks[arrivals.last()],
            )
        }
    }
}

/// The slots of a chain follow `latest` one by one.
pub proof fn lemma_chain_consecutive(pending: Set<u64>, latest: u64)
    ensures
        latest + chain(pending, latest).len() <= u64::MAX,
        forall|i: int|
            0 <= i < chain(pending, latest).len() ==> #[trigger] chain(pending, latest)[i]
                == latest + 1 + i,
        forall|i: int|
            0 <= i < chain(pending, latest).len() ==> pending.contains(
                #[trigger] chain(pending, latest)[i],
            ),
        latest + chain(pending, latest).len() < u64::MAX ==> !pending.contains(
            (latest + chain(pending, latest).len() + 1) as u64,
        ),
    decreases u64::MAX - latest,
{
    if latest < u64::MAX && pending.contains((latest + 1) as u64) {
        lemma_chain_consecutive(pending, (latest + 1) as u64);
    }
}

/// A chain does not look at slots up to `latest`.
pub proof fn lemma_chain_ignores_low(pending: Set<u64>, latest: u64, slot: u64)
    requires
        slot <= latest,
    ensures
        chain(pending.remove(slot), latest) == chain(pending, latest),
    decreases u64::MAX - latest,
{
    if latest < u64::MAX {
        lemma_chain_ignores_low(pending, (latest + 1) as u64, slot);
    }
}

/// A drain keeps the state consistent, moves `latest` to the end of the
/// chain, and leaves no pending slot right behind it.
pub proof fn lemma_drain(s: StoreView)
    requires
        s.consistent(),
        s.latest matches Some(latest) && s.records.contains_key(latest),
    ensures
        s.drain().wf(),
        s.drain().latest == Some(
            (s.latest.unwrap() + chain(s.pending, s.latest.unwrap()).len()) as u64,
        ),
        s.drain().tx_index == s.tx_index,
        s.drain().records.dom() == s.records.dom(),
    decreases u64::MAX - s.latest.unwrap(),
{
    let latest = s.latest.unwrap();
    if latest < u64::MAX && s.pending.contains((latest + 1) as u64) {
        let next = (latest + 1) as u64;
        let t = s.finalize(next).release(next);
        assert(t.consistent());
        lemma_drain(t);
        lemma_chain_ignores_low(s.pending, next, next);
        assert(t.records.dom() =~= s.records.dom());
    }
}

/// Loading records leaves nothing pending and keeps the index within the
/// records.
pub proof fn lemma_loaded(stored: Seq<(u64, RecordView)>)
    ensures
        StoreView::loaded(stored).consistent(),
        StoreView::loaded(stored).pending == Set::<u64>::empty(),
        StoreView::loaded(stored).latest is None,
    decreases stored.len(),
{
    if stored.len() > 0 {
        lemma_loaded(stored.drop_first());
    }
}

/// **Every query is answered.** A request for a transaction, a block, the
/// latest block, a range of blocks or a balance gets a reply in every state,
/// the answer or the message of a typed error.
pub proof fn law_every_query_is_answered(s: StoreView, message: MessageView)
    requires
        message is FetchTransactionDetails || message is FetchBlockDetails
            || message is FetchLatestBlock || message is FetchBlockRange
            || message is FetchAccountBalance,
    ensures
        s.answer(message) is Some,
        s.after(message) == s,
{
}

/// **Pending invariant.** A store that has seen no block is well formed,
/// and every ingestion keeps it so: each pending slot is stored, has no
/// snapshot, and is not the slot after `latest`.
pub proof fn law_pending_invariant(s: StoreView, slot: u64, block: BlockView)
    requires
        s.wf(),
    ensures
        StoreView::empty().wf(),
        s.ingest(slot, block).wf(),
{
    let stored = s.persist(slot, block);
    assert(stored.consistent());
    if s.latest is None {
        assert(stored.finalize(slot).wf());
    } else if s.follows(slot) {
        let t = stored.finalize(slot);
        assert(t.consistent());
        lemma_drain(t);
    } else {
        assert(stored.park(slot).wf());
    }
}

/// **Pointer monotonicity.** An ingestion never moves `latest` back, and
/// moves it forward only through the slots that it finalizes, each one
/// more than the one before.
pub proof fn law_pointer_monotone(s: StoreView, slot: u64, block: BlockView)
    requires
        s.wf(),
    ensures
        s.ingest(slot, block).latest is Some,
        s.latest is None ==> s.ingest(slot, block).latest == Some(slot) && s.finalized_by(slot)
            == seq![slot],
        s.latest matches Some(latest) ==> {
            let steps = s.finalized_by(slot);
            &&& s.ingest(slot, block).latest == Some((latest + steps.len()) as u64)
            &&& latest + steps.len() <= u64::MAX
            &&& forall|i: int| 0 <= i < steps.len() ==> #[trigger] steps[i] == latest + 1 + i
        },
{
    let stored = s.persist(slot, block);
    if s.latest is None {
    } else if s.follows(slot) {
        let t = stored.finalize(slot);
        assert(t.consistent());
        lemma_drain(t);
        lemma_chain_consecutive(s.pending, slot);
    } else {
    }
}

/// The balances that finalizing the slots from `first` to `slot` one after
/// the other builds up: each block's own balances laid over those before.
pub open spec fn cumulative(blocks: Map<u64, BlockView>, first: u64, slot: int) -> Map<
    Seq<char>,
    u64,
>
    decreases
        if slot >= first {
            slot - first + 1
        } else {
            0
        },
{
    if slot < first {
        Map::empty()
    } else {
        overlay(cumulative(blocks, first, slot - 1), blocks[slot as u64].account_map)
    }
}

/// The record of `slot` once it is finalized in a run that began at `first`.
pub open spec fn settled_record(blocks: Map<u64, BlockView>, first: u64, slot: u64) -> RecordView {
    RecordView {
        block: blocks[slot].with_account_map(cumulative(blocks, first, slot as int)),
        finalized: true,
    }
}

/// The state of a store in which the blocks of `arrived` have arrived, the
/// one of `first` before the others: every slot from `first` to `latest` is
/// finalized on the balances built up from `first`, and every other slot
/// that arrived is pending as it came.
pub open spec fn linked(
    s: StoreView,
    blocks: Map<u64, BlockView>,
    first: u64,
    arrived: Set<u64>,
) -> bool {
    &&& s.latest matches Some(latest) && first <= latest
    &&& forall|slot: u64|
        first <= slot <= s.latest.unwrap() ==> #[trigger] arrived.contains(slot)
            && s.records.contains_key(slot) && s.records[slot] == settled_record(
            blocks,
            first,
            slot,
        )
    &&& forall|slot: u64| #[trigger]
        s.pending.contains(slot) <==> arrived.contains(slot) && !(first <= slot
            <= s.latest.unwrap())
    &&& forall|slot: u64| #[trigger]
        s.pending.contains(slot) ==> s.records.contains_key(slot) && s.records[slot]
            == (RecordView { block: blocks[slot], finalized: false })
}

/// A linked state in which the slot after `latest` has not arrived.
pub open spec fn settled(
    s: StoreView,
    blocks: Map<u64, BlockView>,
    first: u64,
    arrived: Set<u64>,
) -> bool {
    &&& linked(s, blocks, first, arrived)
    &&& s.latest.unwrap() < u64::MAX ==> !arrived.contains((s.latest.unwrap() + 1) as u64)
}

/// A drain takes a linked state to a settled one.
proof fn lemma_drain_settles(
    s: StoreView,
    blocks: Map<u64, BlockView>,
    first: u64,
    arrived: Set<u64>,
)
    requires
        linked(s, blocks, first, arrived),
    ensures
        settled(s.drain(), blocks, first, arrived),
    decreases u64::MAX - s.latest.unwrap(),
{
    let latest = s.latest.unwrap();
    if latest < u64::MAX && s.pending.contains((latest + 1) as u64) {
        let next = (latest + 1) as u64;
        let t = s.finalize(next).release(next);
        assert(arrived.contains(latest));
        assert(s.base_snapshot() == cumulative(blocks, first, latest as int));
        assert(t.records[next] == settled_record(blocks, first, next));
        assert forall|slot: u64| first <= slot <= next implies #[trigger] arrived.contains(slot)
            && t.records.contains_key(slot) && t.records[slot] == settled_record(
            blocks,
            first,
            slot,
        ) by {
            if slot < next {
                assert(arrived.contains(slot));
            } else {
                assert(s.pending.contains(next));
            }
        }
        assert(linked(t, blocks, first, arrived));
        lemma_drain_settles(t, blocks, first, arrived);
    } else if latest < u64::MAX {
        let next = (latest + 1) as u64;
        assert(!s.pending.contains(next));
    }
}

/// The arrival of a block that has not arrived before takes a settled state
/// to a settled state.
proof fn lemma_arrival_settles(
    s: StoreView,
    blocks: Map<u64, BlockView>,
    first: u64,
    arrived: Set<u64>,
    slot: u64,
)
    requires
        settled(s, blocks, first, arrived),
        !arrived.contains(slot),
    ensures
        settled(s.ingest(slot, blocks[slot]), blocks, first, arrived.insert(slot)),
{
    let latest = s.latest.unwrap();
    let stored = s.persist(slot, blocks[slot]);
    let after = arrived.insert(slot);
    assert(arrived.contains(latest));
    if s.follows(slot) {
        let t = stored.finalize(slot);
        assert(stored.base_snapshot() == cumulative(blocks, first, latest as int));
        assert(t.records[slot] == settled_record(blocks, first, slot));
        assert forall|other: u64| first <= other <= slot implies #[trigger] after.contains(other)
            && t.records.contains_key(other) && t.records[other] == settled_record(
            blocks,
            first,
            other,
        ) by {
            if other < slot {
                assert(arrived.contains(other));
            }
        }
        assert forall|other: u64| #[trigger]
            t.pending.contains(other) <==> after.contains(other) && !(first <= other <= slot) by {
            if s.pending.contains(other) {
                assert(arrived.contains(other));
            }
        }
        assert forall|other: u64| #[trigger] t.pending.contains(other) implies t.records.contains_key(
            other,
        ) && t.records[other] == (RecordView { block: blocks[other], finalized: false }) by {
            assert(s.pending.contains(other));
            assert(arrived.contains(other));
        }
        assert(linked(t, blocks, first, after));
        lemma_drain_settles(t, blocks, first, after);
    } else {
        let t = stored.park(slot);
        assert forall|other: u64| first <= other <= latest implies #[trigger] after.contains(other)
            && t.records.contains_key(other) && t.records[other] == settled_record(
            blocks,
            first,
            other,
        ) by {
            assert(arrived.contains(other));
        }
        assert forall|other: u64| #[trigger]
            t.pending.contains(other) <==> after.contains(other) && !(first <= other <= latest) by {
            if other == slot {
                if first <= slot <= latest {
                    assert(arrived.contains(slot));
                }
            } else if s.pending.contains(other) {
                assert(arrived.contains(other));
            }
        }
        assert forall|other: u64| #[trigger] t.pending.contains(other) implies t.records.contains_key(
            other,
        ) && t.records[other] == (RecordView { block: blocks[other], finalized: false }) by {
            if other != slot {
                assert(s.pending.contains(other));
            }
        }
        assert(linked(t, blocks, first, after));
    }
}

/// After any run of distinct arrivals into a store that had seen no block,
/// the state is settled on the first arrival.
proof fn lemma_run_settles(arrivals: Seq<u64>, blocks: Map<u64, BlockView>)
    requires
        arrivals.len() >= 1,
        arrivals.no_duplicates(),
    ensures
        settled(
            StoreView::empty().ingest_all(arrivals, blocks),
            blocks,
            arrivals[0],
            arrivals.to_set(),
        ),
    decreases arrivals.len(),
{
    let head = arrivals.drop_last();
    let last = arrivals.last();
    lemma_contains_drop_last(arrivals);
    assert(arrivals.to_set() =~= head.to_set().insert(last));
    if arrivals.len() == 1 {
        assert(head =~= Seq::<u64>::empty());
        assert(StoreView::empty().ingest_all(head, blocks) == StoreView::empty());
        let t = StoreView::empty().ingest(last, blocks[last]);
        assert(cumulative(blocks, last, last - 1) =~= Map::<Seq<char>, u64>::empty());
        assert(t.records[last] == settled_record(blocks, last, last));
        assert(linked(t, blocks, last, arrivals.to_set()));
    } else {
        assert(head[0] == arrivals[0]);
        lemma_run_settles(head, blocks);
        assert(!head.to_set().contains(last)) by {
            if head.contains(last) {
                let i = choose|i: int| 0 <= i < head.len() && head[i] == last;
                assert(arrivals[i] == arrivals[arrivals.len() - 1]);
            }
        }
        lemma_arrival_settles(
            StoreView::empty().ingest_all(head, blocks),
            blocks,
            arrivals[0],
            head.to_set(),
            last,
        );
    }
}

/// **Convergence.** When the blocks of the slots from `low` to `high`
/// arrive, each once, at a store that had seen no block, then in whatever
/// order they come: `latest` ends at `high`; every slot from the first
/// arrival on carries the balances built up in slot order from the first
/// arrival; and the slots below the first arrival stay pending. The order
/// shows in the outcome only through its first slot.
pub proof fn law_convergence(
    arrivals: Seq<u64>,
    blocks: Map<u64, BlockView>,
    low: u64,
    high: u64,
)
    requires
        low <= high,
        arrivals.no_duplicates(),
        forall|slot: u64| arrivals.contains(slot) <==> low <= slot <= high,
    ensures
        arrivals.len() >= 1,
        low <= arrivals[0] <= high,
        ({
            let end = StoreView::empty().ingest_all(arrivals, blocks);
            &&& end.latest == Some(high)
            &&& forall|slot: u64|
                arrivals[0] <= slot <= high ==> end.records.contains_key(slot)
                    && (#[trigger] end.records[slot]).snapshot() == Some(
                    cumulative(blocks, arrivals[0], slot as int),
                )
            &&& forall|slot: u64| #[trigger]
                end.pending.contains(slot) <==> low <= slot < arrivals[0]
        }),
{
    assert(arrivals.contains(low));
    assert(arrivals.contains(arrivals[0]));
    lemma_run_settles(arrivals, blocks);
    let end = StoreView::empty().ingest_all(arrivals, blocks);
    let latest = end.latest.unwrap();
    assert(arrivals.to_set().contains(latest));
    assert(arrivals.contains(latest));
    if latest < high {
        assert(arrivals.contains((latest + 1) as u64));
        assert(arrivals.to_set().contains((latest + 1) as u64));
    }
    assert(latest == high);
    assert forall|slot: u64| arrivals[0] <= slot <= high implies end.records.contains_key(slot) && (
    #[trigger] end.records[slot]).snapshot() == Some(
        cumulative(blocks, arrivals[0], slot as int),
    ) by {
        assert(arrivals.to_set().contains(slot));
        assert(end.records[slot] == settled_record(blocks, arrivals[0], slot));
    }
    assert forall|slot: u64| #[trigger] end.pending.contains(slot) <==> low <= slot
        < arrivals[0] by {
        assert(arrivals.to_set().contains(slot) <==> arrivals.contains(slot));
    }
}

/// **Order-independent convergence.** Two orders of arrival that cover the
/// slots from `low` to `high` and begin with the same slot leave the same
/// snapshot at `high`, the same `latest` and the same pending set. Where the
/// first slot is `low`, the pending set is empty.
pub proof fn law_order_independent_convergence(
    one: Seq<u64>,
    other: Seq<u64>,
    blocks: Map<u64, BlockView>,
    low: u64,
    high: u64,
)
    requires
        low <= high,
        one.no_duplicates(),
        other.no_duplicates(),
        forall|slot: u64| one.contains(slot) <==> low <= slot <= high,
        forall|slot: u64| other.contains(slot) <==> low <= slot <= high,
        one[0] == other[0],
    ensures
        ({
            let a = StoreView::empty().ingest_all(one, blocks);
            let b = StoreView::empty().ingest_all(other, blocks);
            &&& a.latest == b.latest
            &&& a.records[high].snapshot() == b.records[high].snapshot()
            &&& a.pending == b.pending
            &&& one[0] == low ==> a.pending == Set::<u64>::empty()
        }),
{
    law_convergence(one, blocks, low, high);
    law_convergence(other, blocks, low, high);
    let a = StoreView::empty().ingest_all(one, blocks);
    let b = StoreView::empty().ingest_all(other, blocks);
    assert(a.pending =~= b.pending);
    if one[0] == low {
        assert(a.pending =~= Set::<u64>::empty());
    }
}

} // verus!
