use solana_agg::db_handler::FinalizationStore;
use solana_agg::error::AggError;
use solana_agg::util::Block;
use solana_agg::util::ProtocolMessage;
use solana_agg::util::TxRecord;

fn block_with(hashes: &[&str], accounts: &[(&str, u64)]) -> Block {
    let mut block = Block::default();
    for hash in hashes {
        block.insert_transaction(hash.to_string(), TxRecord::default());
    }
    for (account, balance) in accounts {
        block.insert_account(account.to_string(), *balance);
    }
    block
}

fn balances_of(block: &Block) -> Vec<(String, u64)> {
    let mut out = Vec::new();
    if let Some(map) = block.get_account_map() {
        for key in map.keys() {
            let value = *map.get(&key).unwrap();
            out.push((key, value));
        }
    }
    out.sort();
    out
}

fn snapshot_at(store: &FinalizationStore, slot: u64) -> Vec<(String, u64)> {
    balances_of(&store.get_block(slot).unwrap())
}

fn pairs(list: &[(&str, u64)]) -> Vec<(String, u64)> {
    let mut out: Vec<(String, u64)> = list.iter().map(|(a, b)| (a.to_string(), *b)).collect();
    out.sort();
    out
}

fn balance(store: &FinalizationStore, account: &str, slot: Option<u64>) -> Result<u64, String> {
    store.handle_account_balance_request(account.to_string(), slot).map_err(|e| e.message())
}

fn deltas(slot: u64) -> Block {
    match slot {
        1 => block_with(&["t1"], &[("A", 10), ("B", 20)]),
        2 => block_with(&["t2"], &[("B", 21), ("C", 30)]),
        3 => block_with(&["t3"], &[("A", 11)]),
        4 => block_with(&["t4"], &[("D", 40), ("C", 31)]),
        _ => Block::default(),
    }
}

fn run(order: &[u64]) -> FinalizationStore {
    let mut store = FinalizationStore::new();
    for slot in order {
        store.handle_block(*slot, deltas(*slot));
    }
    store
}

#[test]
fn new_store_has_nothing() {
    let store = FinalizationStore::new();
    assert_eq!(store.get_latest_block(), None);
    assert!(store.get_block(0).is_none());
    assert!(!store.is_pending(0));
    assert!(matches!(store.handle_latest_block_request(), Err(AggError::NoBlockFinalised)));
}

#[test]
fn first_block_is_finalized_at_once() {
    let mut store = FinalizationStore::new();
    let finalized = store.handle_block(42, block_with(&["h"], &[("A", 7)]));
    assert_eq!(finalized, vec![42]);
    assert_eq!(store.get_latest_block(), Some(42));
    assert!(store.is_finalized(42));
    assert!(!store.is_pending(42));
    assert_eq!(snapshot_at(&store, 42), pairs(&[("A", 7)]));
}

#[test]
fn first_block_without_balances_gets_an_empty_snapshot() {
    let mut store = FinalizationStore::new();
    store.handle_block(3, block_with(&["h"], &[]));
    let block = store.get_block(3).unwrap();
    assert!(block.get_account_map().is_some());
    assert_eq!(balances_of(&block), Vec::new());
}

#[test]
fn successor_is_finalized_on_the_previous_snapshot() {
    let mut store = FinalizationStore::new();
    store.handle_block(5, block_with(&[], &[("A", 10), ("B", 20)]));
    let finalized = store.handle_block(6, block_with(&[], &[("B", 25), ("C", 5)]));
    assert_eq!(finalized, vec![6]);
    assert_eq!(store.get_latest_block(), Some(6));
    assert_eq!(snapshot_at(&store, 6), pairs(&[("A", 10), ("B", 25), ("C", 5)]));
    assert_eq!(snapshot_at(&store, 5), pairs(&[("A", 10), ("B", 20)]));
}

#[test]
fn out_of_order_block_is_parked() {
    let mut store = FinalizationStore::new();
    store.handle_block(5, block_with(&[], &[("A", 10)]));
    let finalized = store.handle_block(7, block_with(&[], &[("A", 1)]));
    assert_eq!(finalized, Vec::<u64>::new());
    assert_eq!(store.get_latest_block(), Some(5));
    assert!(store.is_pending(7));
    assert!(!store.is_finalized(7));
    assert!(store.get_block(7).is_some());
}

#[test]
fn arrivals_five_seven_six_cascade() {
    let mut store = FinalizationStore::new();
    assert_eq!(store.handle_block(5, block_with(&["a"], &[("A", 10), ("B", 20)])), vec![5]);
    assert_eq!(store.handle_block(7, block_with(&["c"], &[("A", 1), ("D", 9)])), Vec::<u64>::new());
    assert!(store.is_pending(7));
    assert_eq!(store.handle_block(6, block_with(&["b"], &[("B", 25), ("C", 5)])), vec![6, 7]);
    assert!(!store.is_pending(5));
    assert!(!store.is_pending(6));
    assert!(!store.is_pending(7));
    assert_eq!(store.get_latest_block(), Some(7));
    assert_eq!(snapshot_at(&store, 5), pairs(&[("A", 10), ("B", 20)]));
    assert_eq!(snapshot_at(&store, 6), pairs(&[("A", 10), ("B", 25), ("C", 5)]));
    assert_eq!(snapshot_at(&store, 7), pairs(&[("A", 1), ("B", 25), ("C", 5), ("D", 9)]));
    assert!(store.is_finalized(6));
    assert!(store.is_finalized(7));
}

#[test]
fn every_order_that_starts_low_converges() {
    let orders: [[u64; 4]; 6] = [
        [1, 2, 3, 4],
        [1, 2, 4, 3],
        [1, 3, 2, 4],
        [1, 3, 4, 2],
        [1, 4, 2, 3],
        [1, 4, 3, 2],
    ];
    let expected = pairs(&[("A", 11), ("B", 21), ("C", 31), ("D", 40)]);
    for order in orders.iter() {
        let store = run(order);
        assert_eq!(store.get_latest_block(), Some(4));
        assert_eq!(snapshot_at(&store, 4), expected);
        assert_eq!(snapshot_at(&store, 3), pairs(&[("A", 11), ("B", 21), ("C", 30)]));
        for slot in 1..=4u64 {
            assert!(!store.is_pending(slot));
            assert!(store.is_finalized(slot));
        }
    }
}

#[test]
fn order_that_starts_higher_leaves_lower_slots_pending() {
    let store = run(&[2, 1, 3, 4]);
    assert_eq!(store.get_latest_block(), Some(4));
    assert!(store.is_pending(1));
    assert!(!store.is_finalized(1));
    assert_eq!(snapshot_at(&store, 4), pairs(&[("A", 11), ("B", 21), ("C", 31), ("D", 40)]));
    let other = run(&[2, 4, 3, 1]);
    assert_eq!(snapshot_at(&other, 4), snapshot_at(&store, 4));
    assert!(other.is_pending(1));
    let third = run(&[3, 4, 1, 2]);
    assert_eq!(snapshot_at(&third, 4), pairs(&[("A", 11), ("C", 31), ("D", 40)]));
    assert!(third.is_pending(1));
    assert!(third.is_pending(2));
}

#[test]
fn latest_moves_one_slot_at_a_time() {
    let mut store = FinalizationStore::new();
    store.handle_block(10, Block::default());
    store.handle_block(13, Block::default());
    store.handle_block(12, Block::default());
    store.handle_block(15, Block::default());
    assert_eq!(store.get_latest_block(), Some(10));
    let finalized = store.handle_block(11, Block::default());
    assert_eq!(finalized, vec![11, 12, 13]);
    assert_eq!(store.get_latest_block(), Some(13));
    assert!(store.is_pending(15));
    assert!(!store.is_pending(14));
    let finalized = store.handle_block(14, Block::default());
    assert_eq!(finalized, vec![14, 15]);
    assert_eq!(store.get_latest_block(), Some(15));
}

#[test]
fn pending_slot_is_stored_without_snapshot_and_is_not_next() {
    let mut store = FinalizationStore::new();
    store.handle_block(1, Block::default());
    for slot in [3u64, 9, 4, 0, 1] {
        store.handle_block(slot, block_with(&[], &[("X", slot)]));
        let latest = store.get_latest_block().unwrap();
        for candidate in 0..12u64 {
            if store.is_pending(candidate) {
                assert!(store.get_block(candidate).is_some());
                assert!(!store.is_finalized(candidate));
                assert_ne!(candidate, latest + 1);
            }
        }
    }
    assert!(store.is_pending(0));
    assert!(store.is_pending(1));
    assert_eq!(store.get_latest_block(), Some(1));
}

#[test]
fn slot_after_the_largest_is_never_next() {
    let mut store = FinalizationStore::new();
    store.handle_block(u64::MAX, Block::default());
    assert_eq!(store.get_latest_block(), Some(u64::MAX));
    let finalized = store.handle_block(u64::MAX, Block::default());
    assert_eq!(finalized, Vec::<u64>::new());
    assert!(store.is_pending(u64::MAX));
    let finalized = store.handle_block(0, Block::default());
    assert_eq!(finalized, Vec::<u64>::new());
    assert_eq!(store.get_latest_block(), Some(u64::MAX));
}

#[test]
fn balance_of_pending_slot_is_zero() {
    let mut store = FinalizationStore::new();
    store.handle_block(5, block_with(&[], &[("X", 10)]));
    store.handle_block(7, block_with(&[], &[("X", 99)]));
    assert!(store.is_pending(7));
    assert_eq!(balance(&store, "X", Some(7)), Ok(0));
    assert_eq!(balance(&store, "Y", Some(7)), Ok(0));
}

#[test]
fn balance_queries() {
    let mut store = FinalizationStore::new();
    assert_eq!(balance(&store, "X", None), Err("No Block Finalised".to_string()));
    assert_eq!(balance(&store, "X", Some(0)), Err("Block Not Found".to_string()));
    assert!(matches!(
        store.handle_account_balance_request("X".to_string(), None),
        Err(AggError::NoBlockFinalised)
    ));
    store.handle_block(5, block_with(&[], &[("X", 10)]));
    store.handle_block(6, block_with(&[], &[("Y", 3)]));
    assert_eq!(balance(&store, "X", None), Ok(10));
    assert_eq!(balance(&store, "Y", None), Ok(3));
    assert_eq!(balance(&store, "Y", Some(5)), Ok(0));
    assert_eq!(balance(&store, "X", Some(6)), Ok(10));
    assert_eq!(balance(&store, "Z", Some(6)), Ok(0));
    assert_eq!(balance(&store, "X", Some(8)), Err("Block Not Found".to_string()));
    assert!(matches!(
        store.handle_account_balance_request("X".to_string(), Some(8)),
        Err(AggError::BlockNotFound)
    ));
}

#[test]
fn transaction_of_pending_block_is_found() {
    let mut store = FinalizationStore::new();
    store.handle_block(5, block_with(&["first"], &[]));
    store.handle_block(9, block_with(&["later"], &[]));
    assert!(store.is_pending(9));
    assert!(store.handle_tx_request("later".to_string()).is_ok());
    assert!(store.handle_tx_request("first".to_string()).is_ok());
}

#[test]
fn transaction_lookup_misses() {
    let mut store = FinalizationStore::new();
    assert!(matches!(store.handle_tx_request("h".to_string()), Err(AggError::TxNotFound)));
    store.handle_block(5, block_with(&["h"], &[]));
    assert!(matches!(store.handle_tx_request("g".to_string()), Err(AggError::TxNotFound)));
    store.handle_block(5, block_with(&["g"], &[]));
    assert!(matches!(store.handle_tx_request("h".to_string()), Err(AggError::TxNotFound)));
    assert!(store.handle_tx_request("g".to_string()).is_ok());
}

#[test]
fn transaction_record_is_returned_as_stored() {
    let mut block = Block::default();
    block.insert_transaction(
        "h".to_string(),
        TxRecord::new(Vec::new(), Some("{\"fee\":5000}".to_string())),
    );
    let mut store = FinalizationStore::new();
    store.handle_block(1, block);
    let record = store.handle_tx_request("h".to_string()).unwrap();
    assert_eq!(record.metadata(), &Some("{\"fee\":5000}".to_string()));
    assert_eq!(record.instructions().len(), 0);
}

#[test]
fn block_lookup_by_decimal_text() {
    let mut store = FinalizationStore::new();
    store.handle_block(7, block_with(&["h"], &[]));
    assert!(store.handle_block_request("7".to_string()).is_ok());
    assert!(matches!(store.handle_block_request("8".to_string()), Err(AggError::BlockNotFound)));
    assert!(matches!(store.handle_block_request("07".to_string()), Err(AggError::BlockNotFound)));
    assert!(matches!(store.handle_block_request("+7".to_string()), Err(AggError::BlockNotFound)));
    assert!(matches!(store.handle_block_request("".to_string()), Err(AggError::BlockNotFound)));
    assert!(matches!(store.handle_block_request("seven".to_string()), Err(AggError::BlockNotFound)));
    let found = store.handle_block_request("7".to_string()).unwrap();
    assert_eq!(found.get_tx_hash(), vec!["h".to_string()]);
}

#[test]
fn latest_block_lookup() {
    let mut store = FinalizationStore::new();
    store.handle_block(7, block_with(&["h"], &[("A", 1)]));
    store.handle_block(9, block_with(&["i"], &[("A", 2)]));
    let (slot, block) = store.handle_latest_block_request().unwrap();
    assert_eq!(slot, 7);
    assert_eq!(block.get_tx_hash(), vec!["h".to_string()]);
    assert_eq!(block.get_account_balance("A"), Some(1));
}

#[test]
fn block_range_skips_absent_slots() {
    let mut store = FinalizationStore::new();
    store.handle_block(3, block_with(&["c"], &[]));
    store.handle_block(5, block_with(&["e"], &[]));
    store.handle_block(8, block_with(&["h"], &[]));
    let range = store.handle_block_range_request(2, 6);
    let slots: Vec<u64> = range.keys().cloned().collect();
    assert_eq!(slots, vec![3, 5]);
    assert_eq!(range.get(&5).unwrap().get_tx_hash(), vec!["e".to_string()]);
    assert_eq!(store.handle_block_range_request(6, 2).len(), 0);
    assert_eq!(store.handle_block_range_request(8, 8).len(), 1);
    assert_eq!(store.handle_block_range_request(u64::MAX - 1, u64::MAX).len(), 0);
    assert_eq!(store.handle_block_range_request(0, 2).len(), 0);
}

#[test]
fn later_arrival_takes_over_the_index() {
    let mut store = FinalizationStore::new();
    store.handle_block(5, block_with(&["h"], &[]));
    let mut again = Block::default();
    again.insert_transaction("h".to_string(), TxRecord::new(Vec::new(), Some("m".to_string())));
    store.handle_block(9, again);
    let record = store.handle_tx_request("h".to_string()).unwrap();
    assert_eq!(record.metadata(), &Some("m".to_string()));
}

#[test]
fn step_finalizes_and_gives_no_reply() {
    let mut store = FinalizationStore::new();
    let outcome = store.step(ProtocolMessage::FinalizeBlock(4, block_with(&["h"], &[("A", 2)])));
    assert!(outcome.reply.is_none());
    assert_eq!(outcome.finalized, vec![4]);
    assert_eq!(store.get_latest_block(), Some(4));
}

#[test]
fn step_answers_queries() {
    let mut store = FinalizationStore::new();
    store.step(ProtocolMessage::FinalizeBlock(4, block_with(&["h"], &[("A", 2)])));
    let outcome = store.step(ProtocolMessage::FetchTransactionDetails("h".to_string()));
    assert!(matches!(outcome.reply, Some(ProtocolMessage::TxDetails(_))));
    assert_eq!(outcome.finalized, Vec::<u64>::new());
    let outcome = store.step(ProtocolMessage::FetchBlockDetails("4".to_string()));
    assert!(matches!(outcome.reply, Some(ProtocolMessage::BlockDetails(_))));
    let outcome = store.step(ProtocolMessage::FetchLatestBlock);
    assert!(matches!(outcome.reply, Some(ProtocolMessage::LatestBlockDetails(4, _))));
    let outcome = store.step(ProtocolMessage::FetchBlockRange(0, 10));
    match outcome.reply {
        Some(ProtocolMessage::BlockRangeDetails(blocks)) => assert_eq!(blocks.len(), 1),
        _ => panic!("expected a range"),
    }
    let outcome = store.step(ProtocolMessage::FetchAccountBalance("A".to_string(), None));
    assert!(matches!(outcome.reply, Some(ProtocolMessage::AccountBalance(2))));
    let outcome = store.step(ProtocolMessage::FetchAccountBalance("A".to_string(), Some(9)));
    match outcome.reply {
        Some(ProtocolMessage::Error(text)) => assert_eq!(text, "Block Not Found"),
        _ => panic!("expected an error"),
    }
    let outcome = store.step(ProtocolMessage::AccountBalance(1));
    assert!(outcome.reply.is_none());
}

#[test]
fn step_reports_misses_as_error_messages() {
    let mut store = FinalizationStore::new();
    let outcome = store.step(ProtocolMessage::FetchLatestBlock);
    match outcome.reply {
        Some(ProtocolMessage::Error(text)) => assert_eq!(text, "No Block Finalised"),
        _ => panic!("expected an error"),
    }
    let outcome = store.step(ProtocolMessage::FetchTransactionDetails("h".to_string()));
    match outcome.reply {
        Some(ProtocolMessage::Error(text)) => assert_eq!(text, "Transaction Not Found"),
        _ => panic!("expected an error"),
    }
    let outcome = store.step(ProtocolMessage::FetchBlockDetails("1".to_string()));
    match outcome.reply {
        Some(ProtocolMessage::Error(text)) => assert_eq!(text, "Block Not Found"),
        _ => panic!("expected an error"),
    }
    let outcome = store.step(ProtocolMessage::FetchAccountBalance("A".to_string(), None));
    match outcome.reply {
        Some(ProtocolMessage::Error(text)) => assert_eq!(text, "No Block Finalised"),
        _ => panic!("expected an error"),
    }
    let outcome = store.step(ProtocolMessage::FetchAccountBalance("A".to_string(), Some(3)));
    match outcome.reply {
        Some(ProtocolMessage::Error(text)) => assert_eq!(text, "Block Not Found"),
        _ => panic!("expected an error"),
    }
}

#[test]
fn every_query_gets_exactly_one_reply() {
    let mut store = FinalizationStore::new();
    for round in 0..3u64 {
        let queries = vec![
            ProtocolMessage::FetchTransactionDetails("h".to_string()),
            ProtocolMessage::FetchBlockDetails("4".to_string()),
            ProtocolMessage::FetchBlockDetails("x".to_string()),
            ProtocolMessage::FetchLatestBlock,
            ProtocolMessage::FetchBlockRange(0, 9),
            ProtocolMessage::FetchBlockRange(9, 0),
            ProtocolMessage::FetchAccountBalance("A".to_string(), None),
            ProtocolMessage::FetchAccountBalance("A".to_string(), Some(4)),
            ProtocolMessage::FetchAccountBalance("A".to_string(), Some(6)),
            ProtocolMessage::FetchAccountBalance("A".to_string(), Some(99)),
        ];
        for query in queries {
            let outcome = store.step(query);
            assert!(outcome.reply.is_some());
            assert_eq!(outcome.finalized, Vec::<u64>::new());
        }
        store.handle_block(4 + 2 * round, block_with(&["h"], &[("A", round)]));
    }
}

#[test]
fn duplicate_arrival_of_a_finalized_slot_is_parked_raw() {
    let mut store = FinalizationStore::new();
    store.handle_block(5, block_with(&[], &[("A", 1)]));
    store.handle_block(6, block_with(&[], &[("B", 2)]));
    let finalized = store.handle_block(5, block_with(&[], &[("C", 3)]));
    assert_eq!(finalized, Vec::<u64>::new());
    assert!(store.is_pending(5));
    assert!(!store.is_finalized(5));
    assert_eq!(store.get_latest_block(), Some(6));
    assert_eq!(balance(&store, "C", Some(5)), Ok(0));
}

#[test]
fn store_starts_again_from_what_was_kept() {
    let stored = vec![
        (5, block_with(&["a"], &[("A", 10)])),
        (6, block_with(&["b"], &[("A", 10), ("B", 2)])),
        (9, block_with(&["c"], &[("C", 3)])),
    ];
    let mut store = FinalizationStore::restore(Some(6), stored);
    assert_eq!(store.get_latest_block(), Some(6));
    assert!(store.is_finalized(5));
    assert!(store.is_finalized(6));
    assert!(!store.is_finalized(9));
    assert!(!store.is_pending(9));
    assert!(store.handle_tx_request("c".to_string()).is_ok());
    assert!(store.handle_tx_request("a".to_string()).is_ok());
    assert_eq!(balance(&store, "B", None), Ok(2));
    assert_eq!(balance(&store, "A", Some(5)), Ok(10));
    assert_eq!(balance(&store, "C", Some(9)), Ok(0));
    let finalized = store.handle_block(7, block_with(&["d"], &[("A", 11)]));
    assert_eq!(finalized, vec![7]);
    assert_eq!(snapshot_at(&store, 7), pairs(&[("A", 11), ("B", 2)]));
}

#[test]
fn store_starts_empty_without_the_latest_block() {
    let store = FinalizationStore::restore(Some(6), vec![(5, block_with(&["a"], &[]))]);
    assert_eq!(store.get_latest_block(), None);
    assert!(store.get_block(5).is_none());
    assert!(store.handle_tx_request("a".to_string()).is_err());
    let store = FinalizationStore::restore(None, vec![(5, block_with(&["a"], &[]))]);
    assert_eq!(store.get_latest_block(), None);
    assert!(store.get_block(5).is_none());
    let store = FinalizationStore::restore(None, Vec::new());
    assert_eq!(store.get_latest_block(), None);
}

#[test]
fn first_of_two_kept_entries_for_a_slot_stands() {
    let stored = vec![(5, block_with(&["first"], &[])), (5, block_with(&["second"], &[]))];
    let store = FinalizationStore::restore(Some(5), stored);
    assert!(store.is_finalized(5));
    assert_eq!(store.get_block(5).unwrap().get_tx_hash(), vec!["first".to_string()]);
    assert!(store.handle_tx_request("first".to_string()).is_ok());
}
