//! The chunk reassembler: it collects the decoded chunks of each block
//! until all have arrived, and hands whole blocks on to the store.

use crate::util::lemma_contains_drop_last;
use crate::util::lemma_merged_transactions;
use crate::util::merged;
use crate::util::message_view;
use crate::util::Block;
use crate::util::BlockView;
use crate::util::MessageView;
use crate::util::ProtocolMessage;
use crate::util::UnprocessedBlock;
use crate::util::UnprocessedView;
use std::collections::HashMap;
use vstd::prelude::*;

verus! {

broadcast use vstd::std_specs::hash::group_hash_axioms;

/// What the reassembler holds: for each slot that is being collected, the
/// state of its block.
pub type Collecting = Map<u64, UnprocessedView>;

/// The state of the block of `slot` after the chunk `block` has arrived:
/// the chunk joins those collected for the slot, or starts a collection
/// with `total_chunks` as the number of chunks to wait for.
pub open spec fn joined(
    state: Collecting,
    slot: u64,
    total_chunks: u64,
    chunk_no: u64,
    block: BlockView,
) -> UnprocessedView {
    let current = if state.contains_key(slot) {
        state[slot]
    } else {
        UnprocessedView::new(total_chunks)
    };
    current.insert_chunk(chunk_no, block)
}

/// What the reassembler holds after a chunk has arrived. A block that has
/// become complete is no longer held.
pub open spec fn receive(
    state: Collecting,
    slot: u64,
    total_chunks: u64,
    chunk_no: u64,
    block: BlockView,
) -> Collecting {
    let updated = joined(state, slot, total_chunks, chunk_no, block);
    if updated.is_complete() {
        state.remove(slot)
    } else {
        state.insert(slot, updated)
    }
}

/// The message that the arrival of a chunk sends to the store: the whole
/// block, where the chunk completed it.
pub open spec fn emitted(
    state: Collecting,
    slot: u64,
    total_chunks: u64,
    chunk_no: u64,
    block: BlockView,
) -> Option<MessageView> {
    let updated = joined(state, slot, total_chunks, chunk_no, block);
    if updated.is_complete() {
        Some(MessageView::FinalizeBlock(slot, updated.completed()))
    } else {
        None
    }
}

/// No block that is held is complete.
pub open spec fn all_collecting(state: Collecting) -> bool {
    forall|slot: u64| #[trigger] state.contains_key(slot) ==> !state[slot].is_complete()
}

/// What the reassembler holds after `message`.
pub open spec fn handled(state: Collecting, message: MessageView) -> Collecting {
    match message {
        MessageView::ParsedBlock(slot, total_chunks, chunk_no, block) => receive(
            state,
            slot,
            total_chunks,
            chunk_no,
            block,
        ),
        _ => state,
    }
}

/// The message that `message` makes the reassembler send to the store: a
/// whole block where a chunk completed one, a query as it came, and nothing
/// for any other message.
pub open spec fn forwarded(state: Collecting, message: MessageView) -> Option<MessageView> {
    match message {
        MessageView::ParsedBlock(slot, total_chunks, chunk_no, block) => emitted(
            state,
            slot,
            total_chunks,
            chunk_no,
            block,
        ),
        MessageView::FetchTransactionDetails(_) => Some(message),
        MessageView::FetchBlockDetails(_) => Some(message),
        MessageView::FetchLatestBlock => Some(message),
        MessageView::FetchBlockRange(_, _) => Some(message),
        MessageView::FetchAccountBalance(_, _) => Some(message),
        _ => None,
    }
}

/// What the reassembler holds after the chunks with the indices of `order`
/// have arrived for `slot` in that order, the chunk of each index taken from
/// `parts`.
pub open spec fn deliver_all(
    state: Collecting,
    slot: u64,
    total_chunks: u64,
    order: Seq<u64>,
    parts: Map<u64, BlockView>,
) -> Collecting
    decreases order.len(),
{
    if order.len() == 0 {
        state
    } else {
        receive(
            deliver_all(state, slot, total_chunks, order.drop_last(), parts),
            slot,
            total_chunks,
            order.last(),
            parts[order.last()],
        )
    }
}

/// The chunks of `parts` whose index is in `order`.
pub open spec fn arrived(order: Seq<u64>, parts: Map<u64, BlockView>) -> Map<u64, BlockView> {
    Map::new(|index: u64| order.contains(index), |index: u64| parts[index])
}

/// While fewer chunks have arrived than were declared, the block is held
/// with the chunks that arrived, whatever their order.
proof fn lemma_collecting(
    state: Collecting,
    slot: u64,
    total_chunks: u64,
    order: Seq<u64>,
    parts: Map<u64, BlockView>,
)
    requires
        !state.contains_key(slot),
        order.len() < total_chunks,
    ensures
        order.len() == 0 ==> deliver_all(state, slot, total_chunks, order, parts) == state,
        order.len() > 0 ==> deliver_all(state, slot, total_chunks, order, parts) == state.insert(
            slot,
            UnprocessedView {
                total_chunks,
                received: order.len() as u64,
                chunks: arrived(order, parts),
            },
        ),
        joined(
            deliver_all(state, slot, total_chunks, order, parts),
            slot,
            total_chunks,
            total_chunks,
            BlockView::empty(),
        ).received == order.len() + 1,
    decreases order.len(),
{
    if order.len() > 0 {
        let head = order.drop_last();
        let last = order.last();
        lemma_collecting(state, slot, total_chunks, head, parts);
        let before = deliver_all(state, slot, total_chunks, head, parts);
        let updated = joined(before, slot, total_chunks, last, parts[last]);
        assert(updated.received == order.len());
        lemma_contains_drop_last(order);
        assert(updated.chunks =~= arrived(order, parts));
        assert(before.insert(slot, updated) =~= state.insert(slot, updated));
    }
}

/// **Chunk-order independence.** When the chunks of a block arrive for a
/// slot that is not being collected, as many as were declared, then in
/// whatever order they come: no arrival but the last sends anything; the
/// last sends the block that merges the chunks in the order of their
/// indices; the slot is then no longer held; and the block's transactions
/// are exactly those of the chunks.
pub proof fn law_chunk_order_independence(
    state: Collecting,
    slot: u64,
    order: Seq<u64>,
    parts: Map<u64, BlockView>,
)
    requires
        !state.contains_key(slot),
        1 <= order.len() <= u64::MAX,
    ensures
        ({
            let total = order.len() as u64;
            let whole = merged(arrived(order, parts));
            &&& forall|n: int|
                1 <= n < order.len() ==> emitted(
                    #[trigger] deliver_all(state, slot, total, order.subrange(0, n - 1), parts),
                    slot,
                    total,
                    order[n - 1],
                    parts[order[n - 1]],
                ) is None
            &&& emitted(
                deliver_all(state, slot, total, order.drop_last(), parts),
                slot,
                total,
                order.last(),
                parts[order.last()],
            ) == Some(MessageView::FinalizeBlock(slot, whole))
            &&& deliver_all(state, slot, total, order, parts) == state
            &&& forall|hash: Seq<char>|
                whole.tx_map.contains_key(hash) <==> exists|index: u64|
                    order.contains(index) && #[trigger] parts[index].tx_map.contains_key(hash)
        }),
{
    let total = order.len() as u64;
    let whole = merged(arrived(order, parts));
    assert forall|n: int| 1 <= n < order.len() implies emitted(
        #[trigger] deliver_all(state, slot, total, order.subrange(0, n - 1), parts),
        slot,
        total,
        order[n - 1],
        parts[order[n - 1]],
    ) is None by {
        lemma_collecting(state, slot, total, order.subrange(0, n - 1), parts);
    }
    let head = order.drop_last();
    let last = order.last();
    lemma_collecting(state, slot, total, head, parts);
    let before = deliver_all(state, slot, total, head, parts);
    let updated = joined(before, slot, total, last, parts[last]);
    lemma_contains_drop_last(order);
    assert(updated.chunks =~= arrived(order, parts));
    assert(updated.is_complete());
    assert(before.remove(slot) =~= state);
    lemma_merged_transactions(arrived(order, parts), 0x1_0000_0000_0000_0000);
    assert forall|hash: Seq<char>|
        whole.tx_map.contains_key(hash) <==> exists|index: u64|
            order.contains(index) && #[trigger] parts[index].tx_map.contains_key(hash) by {
        let chunks = arrived(order, parts);
        if whole.tx_map.contains_key(hash) {
            let k = choose|k: u64|
                k < 0x1_0000_0000_0000_0000 && chunks.contains_key(k)
                    && #[trigger] chunks[k].tx_map.contains_key(hash);
            assert(order.contains(k) && parts[k].tx_map.contains_key(hash));
        }
        if exists|index: u64|
            order.contains(index) && #[trigger] parts[index].tx_map.contains_key(hash) {
            let k = choose|index: u64|
                order.contains(index) && #[trigger] parts[index].tx_map.contains_key(hash);
            assert(k < 0x1_0000_0000_0000_0000 && chunks.contains_key(k)
                && chunks[k].tx_map.contains_key(hash));
        }
    }
}

/// Two orders that bring the same chunks, as many as were declared, end in
/// the same whole block.
pub proof fn law_same_chunks_same_block(
    state: Collecting,
    slot: u64,
    first: Seq<u64>,
    second: Seq<u64>,
    parts: Map<u64, BlockView>,
)
    requires
        !state.contains_key(slot),
        1 <= first.len() <= u64::MAX,
        first.len() == second.len(),
        first.to_set() == second.to_set(),
    ensures
        emitted(
            deliver_all(state, slot, first.len() as u64, first.drop_last(), parts),
            slot,
            first.len() as u64,
            first.last(),
            parts[first.last()],
        ) == emitted(
            deliver_all(state, slot, second.len() as u64, second.drop_last(), parts),
            slot,
            second.len() as u64,
            second.last(),
            parts[second.last()],
        ),
{
    law_chunk_order_independence(state, slot, first, parts);
    law_chunk_order_independence(state, slot, second, parts);
    assert forall|index: u64| first.contains(index) <==> second.contains(index) by {
        assert(first.to_set().contains(index) <==> first.contains(index));
        assert(second.to_set().contains(index) <==> second.contains(index));
    }
    assert(arrived(first, parts) =~= arrived(second, parts));
}

/// The views of the blocks that are being collected.
pub open spec fn collecting_views(blocks: Map<u64, UnprocessedBlock>) -> Collecting {
    blocks.map_values(|b: UnprocessedBlock| b@)
}

/// The chunk reassembler.
#[derive(Debug)]
pub struct Handler {
    unprocessed_block_collector: HashMap<u64, UnprocessedBlock>,
}

impl View for Handler {
    type V = Collecting;

    closed spec fn view(&self) -> Collecting {
        collecting_views(self.unprocessed_block_collector@)
    }
}

impl Handler {
    #[verifier::type_invariant]
    spec fn inv(self) -> bool {
        all_collecting(self@)
    }

    /// A reassembler that holds no block.
    pub fn initialize() -> (r: Self)
        ensures
            r@ == Map::<u64, UnprocessedView>::empty(),
    {
        let unprocessed_block_collector: HashMap<u64, UnprocessedBlock> = HashMap::new();
        assert(collecting_views(unprocessed_block_collector@) =~= Map::empty());
        Handler { unprocessed_block_collector }
    }

    /// Takes in the chunk `chunk_no` of the block `block_no`. Where it
    /// completes the block, the block is no longer held and the message that
    /// hands it to the store is returned.
    pub fn handle_unprocessed_block(
        &mut self,
        block_no: u64,
        total_chunks: u64,
        chunk_no: u64,
        block: Block,
    ) -> (r: Option<ProtocolMessage>)
        ensures
            final(self)@ == receive(old(self)@, block_no, total_chunks, chunk_no, block@),
            message_view(r) == emitted(old(self)@, block_no, total_chunks, chunk_no, block@),
            all_collecting(final(self)@),
    {
        proof {
            use_type_invariant(&*self);
        }
        let mut collector: HashMap<u64, UnprocessedBlock> = HashMap::new();
        core::mem::swap(&mut self.unprocessed_block_collector, &mut collector);
        let ghost before = collecting_views(collector@);
        let mut unprocessed_block = match collector.remove(&block_no) {
            Some(unprocessed_block) => unprocessed_block,
            None => UnprocessedBlock::new(total_chunks),
        };
        assert(collecting_views(collector@) =~= before.remove(block_no));
        unprocessed_block.insert_chunk(chunk_no, block);
        assert(unprocessed_block@ == joined(before, block_no, total_chunks, chunk_no, block@));
        let r = if unprocessed_block.is_complete() {
            let complete_block = unprocessed_block.complete_the_block();
            Some(ProtocolMessage::FinalizeBlock(block_no, complete_block))
        } else {
            collector.insert(block_no, unprocessed_block);
            assert(collecting_views(collector@) =~= before.insert(block_no, unprocessed_block@));
            None
        };
        self.unprocessed_block_collector = collector;
        r
    }

    /// The message that asks the store for the record of a transaction.
    pub fn handle_tx_details(&mut self, tx_id: String) -> (r: ProtocolMessage)
        ensures
            r@ == MessageView::FetchTransactionDetails(tx_id@),
            final(self)@ == old(self)@,
    {
        ProtocolMessage::FetchTransactionDetails(tx_id)
    }

    /// The message that asks the store for the block of a slot.
    pub fn handle_block_details(&mut self, block_no: String) -> (r: ProtocolMessage)
        ensures
            r@ == MessageView::FetchBlockDetails(block_no@),
            final(self)@ == old(self)@,
    {
        ProtocolMessage::FetchBlockDetails(block_no)
    }

    /// The message that asks the store for the balance of an account.
    pub fn handle_account_balance(
        &mut self,
        pubkey: String,
        block_no: Option<u64>,
    ) -> (r: ProtocolMessage)
        ensures
            r@ == MessageView::FetchAccountBalance(pubkey@, block_no),
            final(self)@ == old(self)@,
    {
        ProtocolMessage::FetchAccountBalance(pubkey, block_no)
    }

    /// The message that asks the store for the latest finalized block.
    pub fn handle_latest_block_request(&mut self) -> (r: ProtocolMessage)
        ensures
            r@ == MessageView::FetchLatestBlock,
            final(self)@ == old(self)@,
    {
        ProtocolMessage::FetchLatestBlock
    }

    /// The message that asks the store for the blocks of a range of slots.
    pub fn handle_block_range_request(&mut self, start: u64, end: u64) -> (r: ProtocolMessage)
        ensures
            r@ == MessageView::FetchBlockRange(start, end),
            final(self)@ == old(self)@,
    {
        ProtocolMessage::FetchBlockRange(start, end)
    }

    /// Handles one message and returns the message to send to the store, if
    /// any: a decoded chunk joins its block; a query is passed on; any other
    /// message is dropped.
    pub fn step(&mut self, message: ProtocolMessage) -> (r: Option<ProtocolMessage>)
        ensures
            final(self)@ == handled(old(self)@, message@),
            message_view(r) == forwarded(old(self)@, message@),
            all_collecting(final(self)@),
    {
        proof {
            use_type_invariant(&*self);
        }
        match message {
            ProtocolMessage::ParsedBlock(block_no, total_chunks, chunk_no, block) => {
                self.handle_unprocessed_block(block_no, total_chunks, chunk_no, block)
            },
            ProtocolMessage::FetchTransactionDetails(tx_id) => Some(self.handle_tx_details(tx_id)),
            ProtocolMessage::FetchBlockDetails(block_no) => Some(
                self.handle_block_details(block_no),
            ),
            ProtocolMessage::FetchLatestBlock => Some(self.handle_latest_block_request()),
            ProtocolMessage::FetchBlockRange(start, end) => Some(
                self.handle_block_range_request(start, end),
            ),
            ProtocolMessage::FetchAccountBalance(pubkey, block_no) => Some(
                self.handle_account_balance(pubkey, block_no),
            ),
            _ => None,
        }
    }
}

} // verus!
