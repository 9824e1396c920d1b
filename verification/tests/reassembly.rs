use solana_agg::handler::Handler;
use solana_agg::util::Block;
use solana_agg::util::ProtocolMessage;
use solana_agg::util::TxRecord;
use solana_agg::util::UnprocessedBlock;

fn chunk(hashes: &[&str], accounts: &[(&str, u64)]) -> Block {
    let mut block = Block::default();
    for hash in hashes {
        block.insert_transaction(hash.to_string(), TxRecord::default());
    }
    for (account, balance) in accounts {
        block.insert_account(account.to_string(), *balance);
    }
    block
}

fn tagged(tag: &str) -> Block {
    let mut block = Block::default();
    block.insert_transaction("same".to_string(), TxRecord::new(Vec::new(), Some(tag.to_string())));
    block
}

fn sorted_hashes(block: &Block) -> Vec<String> {
    let mut hashes = block.get_tx_hash();
    hashes.sort();
    hashes
}

fn part(index: u64) -> Block {
    match index {
        0 => chunk(&["a", "b"], &[("X", 1), ("Y", 2)]),
        1 => chunk(&["c"], &[("Y", 20)]),
        2 => chunk(&["d", "e"], &[("X", 100), ("Z", 3)]),
        _ => Block::default(),
    }
}

#[test]
fn chunks_one_zero_two_complete_block_ten() {
    let mut handler = Handler::initialize();
    assert!(handler.handle_unprocessed_block(10, 3, 1, part(1)).is_none());
    assert!(handler.handle_unprocessed_block(10, 3, 0, part(0)).is_none());
    let message = handler.handle_unprocessed_block(10, 3, 2, part(2));
    match message {
        Some(ProtocolMessage::FinalizeBlock(slot, block)) => {
            assert_eq!(slot, 10);
            assert_eq!(sorted_hashes(&block), vec!["a", "b", "c", "d", "e"]);
            assert_eq!(block.get_tx_hash().len(), 5);
            assert_eq!(block.get_account_balance("X"), Some(100));
            assert_eq!(block.get_account_balance("Y"), Some(20));
            assert_eq!(block.get_account_balance("Z"), Some(3));
        },
        _ => panic!("expected the whole block"),
    }
}

#[test]
fn every_order_of_chunks_gives_the_same_block() {
    let orders: [[u64; 3]; 6] =
        [[0, 1, 2], [0, 2, 1], [1, 0, 2], [1, 2, 0], [2, 0, 1], [2, 1, 0]];
    for order in orders.iter() {
        let mut handler = Handler::initialize();
        let mut last = None;
        for (n, index) in order.iter().enumerate() {
            let message = handler.handle_unprocessed_block(77, 3, *index, part(*index));
            if n < 2 {
                assert!(message.is_none());
            } else {
                last = message;
            }
        }
        match last {
            Some(ProtocolMessage::FinalizeBlock(slot, block)) => {
                assert_eq!(slot, 77);
                assert_eq!(sorted_hashes(&block), vec!["a", "b", "c", "d", "e"]);
                assert_eq!(block.get_account_balance("X"), Some(100));
                assert_eq!(block.get_account_balance("Y"), Some(20));
                assert_eq!(block.get_account_balance("Z"), Some(3));
            },
            _ => panic!("expected the whole block"),
        }
    }
}

#[test]
fn chunk_with_the_higher_index_wins_whatever_the_order() {
    for order in [[0u64, 1], [1, 0]].iter() {
        let mut handler = Handler::initialize();
        let mut last = None;
        for index in order.iter() {
            let tag = if *index == 0 { "low" } else { "high" };
            last = handler.handle_unprocessed_block(1, 2, *index, tagged(tag));
        }
        match last {
            Some(ProtocolMessage::FinalizeBlock(_, block)) => {
                let record = block.get_tx_details("same").unwrap();
                assert_eq!(record.metadata(), &Some("high".to_string()));
            },
            _ => panic!("expected the whole block"),
        }
    }
}

#[test]
fn single_chunk_block_completes_at_once_and_is_not_kept() {
    let mut handler = Handler::initialize();
    let message = handler.handle_unprocessed_block(4, 1, 0, chunk(&["a"], &[]));
    assert!(matches!(message, Some(ProtocolMessage::FinalizeBlock(4, _))));
    let message = handler.handle_unprocessed_block(4, 1, 0, chunk(&["b"], &[]));
    match message {
        Some(ProtocolMessage::FinalizeBlock(4, block)) => {
            assert_eq!(block.get_tx_hash(), vec!["b".to_string()]);
        },
        _ => panic!("expected the whole block"),
    }
}

#[test]
fn slots_are_collected_apart() {
    let mut handler = Handler::initialize();
    assert!(handler.handle_unprocessed_block(1, 2, 0, chunk(&["a"], &[])).is_none());
    assert!(handler.handle_unprocessed_block(2, 2, 0, chunk(&["x"], &[])).is_none());
    let first = handler.handle_unprocessed_block(1, 2, 1, chunk(&["b"], &[]));
    match first {
        Some(ProtocolMessage::FinalizeBlock(1, block)) => {
            assert_eq!(sorted_hashes(&block), vec!["a", "b"]);
        },
        _ => panic!("expected block one"),
    }
    let second = handler.handle_unprocessed_block(2, 2, 1, chunk(&["y"], &[]));
    match second {
        Some(ProtocolMessage::FinalizeBlock(2, block)) => {
            assert_eq!(sorted_hashes(&block), vec!["x", "y"]);
        },
        _ => panic!("expected block two"),
    }
}

#[test]
fn first_chunk_sets_the_number_of_chunks() {
    let mut handler = Handler::initialize();
    assert!(handler.handle_unprocessed_block(1, 3, 0, chunk(&["a"], &[])).is_none());
    assert!(handler.handle_unprocessed_block(1, 2, 1, chunk(&["b"], &[])).is_none());
    assert!(handler.handle_unprocessed_block(1, 9, 2, chunk(&["c"], &[])).is_some());
}

#[test]
fn duplicate_chunk_overwrites_and_counts() {
    let mut handler = Handler::initialize();
    assert!(handler.handle_unprocessed_block(1, 3, 0, tagged("one")).is_none());
    assert!(handler.handle_unprocessed_block(1, 3, 0, tagged("two")).is_none());
    let message = handler.handle_unprocessed_block(1, 3, 1, chunk(&["b"], &[]));
    match message {
        Some(ProtocolMessage::FinalizeBlock(1, block)) => {
            assert_eq!(sorted_hashes(&block), vec!["b", "same"]);
            let record = block.get_tx_details("same").unwrap();
            assert_eq!(record.metadata(), &Some("two".to_string()));
        },
        _ => panic!("expected the whole block"),
    }
}

#[test]
fn block_declared_with_no_chunks_never_completes() {
    let mut handler = Handler::initialize();
    for index in 0..5u64 {
        assert!(handler.handle_unprocessed_block(1, 0, index, Block::default()).is_none());
    }
}

#[test]
fn unprocessed_block_counts_arrivals() {
    let mut state = UnprocessedBlock::new(2);
    assert!(!state.is_complete());
    state.insert_chunk(5, chunk(&["a"], &[]));
    assert!(!state.is_complete());
    state.insert_chunk(3, chunk(&["b"], &[]));
    assert!(state.is_complete());
    assert_eq!(sorted_hashes(&state.complete_the_block()), vec!["a", "b"]);
    state.insert_chunk(4, chunk(&["c"], &[]));
    assert!(!state.is_complete());
}

#[test]
fn unprocessed_block_of_no_chunks_is_complete_and_empty() {
    let state = UnprocessedBlock::new(0);
    assert!(state.is_complete());
    let block = state.complete_the_block();
    assert_eq!(block.get_tx_hash().len(), 0);
    assert!(block.get_account_map().is_none());
}

#[test]
fn chunk_with_empty_account_map_leaves_none() {
    let mut with_empty = Block::default();
    with_empty.set_account_map(solana_agg::text_map::TextMap::new());
    let mut state = UnprocessedBlock::new(1);
    state.insert_chunk(0, with_empty);
    assert!(state.complete_the_block().get_account_map().is_none());
}

#[test]
fn handler_passes_queries_on() {
    let mut handler = Handler::initialize();
    let message = handler.step(ProtocolMessage::FetchTransactionDetails("h".to_string()));
    assert!(matches!(message, Some(ProtocolMessage::FetchTransactionDetails(h)) if h == "h"));
    let message = handler.step(ProtocolMessage::FetchBlockDetails("7".to_string()));
    assert!(matches!(message, Some(ProtocolMessage::FetchBlockDetails(s)) if s == "7"));
    let message = handler.step(ProtocolMessage::FetchLatestBlock);
    assert!(matches!(message, Some(ProtocolMessage::FetchLatestBlock)));
    let message = handler.step(ProtocolMessage::FetchBlockRange(2, 5));
    assert!(matches!(message, Some(ProtocolMessage::FetchBlockRange(2, 5))));
    let message = handler.step(ProtocolMessage::FetchAccountBalance("A".to_string(), Some(3)));
    assert!(matches!(message, Some(ProtocolMessage::FetchAccountBalance(a, Some(3))) if a == "A"));
    let message = handler.step(ProtocolMessage::AccountBalance(3));
    assert!(message.is_none());
}

#[test]
fn handler_step_collects_chunks() {
    let mut handler = Handler::initialize();
    let message = handler.step(ProtocolMessage::parsed_block(6, 2, 1, chunk(&["b"], &[])));
    assert!(message.is_none());
    let message = handler.step(ProtocolMessage::parsed_block(6, 2, 0, chunk(&["a"], &[])));
    match message {
        Some(ProtocolMessage::FinalizeBlock(6, block)) => {
            assert_eq!(sorted_hashes(&block), vec!["a", "b"]);
        },
        _ => panic!("expected the whole block"),
    }
}

#[test]
fn forwarders_build_the_queries() {
    let mut handler = Handler::initialize();
    assert!(matches!(
        handler.handle_tx_details("h".to_string()),
        ProtocolMessage::FetchTransactionDetails(h) if h == "h"
    ));
    assert!(matches!(
        handler.handle_block_details("9".to_string()),
        ProtocolMessage::FetchBlockDetails(s) if s == "9"
    ));
    assert!(matches!(
        handler.handle_account_balance("A".to_string(), None),
        ProtocolMessage::FetchAccountBalance(a, None) if a == "A"
    ));
    assert!(matches!(handler.handle_latest_block_request(), ProtocolMessage::FetchLatestBlock));
    assert!(matches!(
        handler.handle_block_range_request(1, 2),
        ProtocolMessage::FetchBlockRange(1, 2)
    ));
}
