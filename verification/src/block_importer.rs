//! The slot poller and the fetch dispatcher: which slot to fetch next, and
//! how a fetched block is cut into chunks for decoding.

use crate::parser::EncodedTransaction;
use crate::util::MessageView;
use crate::util::ProtocolMessage;
use vstd::prelude::*;

verus! {

/// How far behind the polled slot the fetched slot trails.
pub const FIXED_LAG: u64 = 500;

/// How many transactions a chunk holds at most.
pub const CHUNK_SIZE: usize = 10;

/// What a poller knows.
pub struct SubscriberView {
    pub latest_slot: u64,
    pub chain_url: Seq<char>,
}

/// The slot poller: it follows the head of the source one slot per poll.
#[derive(Debug)]
pub struct Subscriber {
    latest_slot: u64,
    chain_url: String,
}

impl View for Subscriber {
    type V = SubscriberView;

    closed spec fn view(&self) -> SubscriberView {
        SubscriberView { latest_slot: self.latest_slot, chain_url: self.chain_url@ }
    }
}

impl Subscriber {
    /// A poller for the source at `chain_url` that starts at `latest_slot`,
    /// the head that the source reported when asked first.
    pub fn initialize(chain_url: String, latest_slot: u64) -> (r: Self)
        ensures
            r@ == (SubscriberView { latest_slot, chain_url: chain_url@ }),
    {
        Subscriber { latest_slot, chain_url }
    }

    /// The slot that the poller has reached.
    pub fn latest_slot(&self) -> (r: u64)
        ensures
            r == self@.latest_slot,
    {
        self.latest_slot
    }

    /// The address of the source.
    pub fn chain_url(&self) -> (r: &String)
        ensures
            r@ == self@.chain_url,
    {
        &self.chain_url
    }

    /// One poll. `fetched` is the head that the source reported, or `None`
    /// where the poll failed. Where the head is beyond the slot that the
    /// poller has reached, the poller moves on by exactly one slot and
    /// returns the message that asks for the block of the new slot; else
    /// nothing changes and nothing is sent.
    pub fn step(&mut self, fetched: Option<u64>) -> (r: Option<ProtocolMessage>)
        ensures
            final(self)@.chain_url == old(self)@.chain_url,
            match fetched {
                Some(head) => if old(self)@.latest_slot < head {
                    &&& final(self)@.latest_slot == old(self)@.latest_slot + 1
                    &&& r matches Some(message) && message@ == MessageView::FetchBlock(
                        old(self)@.chain_url,
                        final(self)@.latest_slot,
                    )
                } else {
                    final(self)@ == old(self)@ && r is None
                },
                None => final(self)@ == old(self)@ && r is None,
            },
    {
        match fetched {
            Some(head) => {
                if self.latest_slot < head {
                    self.latest_slot = self.latest_slot + 1;
                    Some(ProtocolMessage::fetch_block(self.chain_url.clone(), self.latest_slot))
                } else {
                    None
                }
            },
            None => None,
        }
    }
}

/// The number of chunks that `count` transactions are cut into.
pub open spec fn chunk_count(count: nat) -> nat {
    (count + CHUNK_SIZE - 1) as nat / (CHUNK_SIZE as nat)
}

/// The chunk with the index `index` of `txs`.
pub open spec fn chunk_at(txs: Seq<EncodedTransaction>, index: nat) -> Seq<EncodedTransaction> {
    txs.subrange(
        (index * CHUNK_SIZE) as int,
        if (index + 1) * CHUNK_SIZE <= txs.len() {
            ((index + 1) * CHUNK_SIZE) as int
        } else {
            txs.len() as int
        },
    )
}

/// The fetch dispatcher.
pub struct BlockFetcher;

impl BlockFetcher {
    /// The slot whose block is fetched when the poller has reached
    /// `latest_slot`: the slot that trails it by the fixed lag, and slot zero
    /// while the poller is not that far yet.
    pub fn target_slot(latest_slot: u64) -> (r: u64)
        ensures
            r == if latest_slot >= FIXED_LAG {
                latest_slot - FIXED_LAG
            } else {
                0
            },
    {
        latest_slot.saturating_sub(FIXED_LAG)
    }

    /// Cuts the transactions of a fetched block into chunks of at most
    /// `CHUNK_SIZE`, in order, and returns one message per chunk, each with
    /// the block's number, the chunk's index and the number of chunks. A
    /// block without a number or without a transaction list gives none.
    pub fn invoke(
        block_height: Option<u64>,
        transactions: Option<Vec<EncodedTransaction>>,
    ) -> (r: Vec<ProtocolMessage>)
        ensures
            match (block_height, transactions) {
                (Some(block_no), Some(txs)) => {
                    &&& r@.len() == chunk_count(txs@.len())
                    &&& forall|index: int|
                        0 <= index < r@.len() ==> (#[trigger] r@[index])@ == MessageView::NewChuck(
                            block_no,
                            index as u64,
                            chunk_count(txs@.len()) as u64,
                            chunk_at(txs@, index as nat),
                        )
                },
                _ => r@.len() == 0,
            },
    {
        let mut messages: Vec<ProtocolMessage> = Vec::new();
        let block_no = match block_height {
            Some(block_no) => block_no,
            None => {
                return messages;
            },
        };
        let mut rest = match transactions {
            Some(txs) => txs,
            None => {
                return messages;
            },
        };
        let ghost txs = rest@;
        let count = rest.len();
        let len_of_chunks: usize = if count % CHUNK_SIZE == 0 {
            count / CHUNK_SIZE
        } else {
            count / CHUNK_SIZE + 1
        };
        assert(len_of_chunks == chunk_count(count as nat));
        let mut index: usize = 0;
        while index < len_of_chunks
            invariant
                index <= len_of_chunks,
                len_of_chunks == chunk_count(txs.len()),
                count == txs.len(),
                index < len_of_chunks ==> index * CHUNK_SIZE < count && rest@ == txs.subrange(
                    (index * CHUNK_SIZE) as int,
                    count as int,
                ),
                messages@.len() == index,
                forall|i: int|
                    0 <= i < index ==> (#[trigger] messages@[i])@ == MessageView::NewChuck(
                        block_no,
                        i as u64,
                        len_of_chunks as u64,
                        chunk_at(txs, i as nat),
                    ),
            decreases len_of_chunks - index,
        {
            let take = if rest.len() < CHUNK_SIZE {
                rest.len()
            } else {
                CHUNK_SIZE
            };
            let tail = rest.split_off(take);
            assert(rest@ =~= chunk_at(txs, index as nat));
            proof {
                if index + 1 < len_of_chunks {
                    assert(tail@ =~= txs.subrange(((index + 1) * CHUNK_SIZE) as int, count as int));
                }
            }
            messages.push(
                ProtocolMessage::new_chuck(block_no, index as u64, len_of_chunks as u64, rest),
            );
            rest = tail;
            index += 1;
        }
        messages
    }
}

} // verus!
