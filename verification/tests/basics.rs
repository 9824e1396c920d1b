use solana_agg::block_importer::BlockFetcher;
use solana_agg::block_importer::Subscriber;
use solana_agg::builder::Builder;
use solana_agg::cli::Cli;
use solana_agg::decimal::digit_of;
use solana_agg::decimal::parse_decimal;
use solana_agg::error::AggError;
use solana_agg::keys::same_key;
use solana_agg::layout::block_key;
use solana_agg::layout::read_slot_value;
use solana_agg::layout::slot_of_block_key;
use solana_agg::layout::slot_text;
use solana_agg::layout::slot_value;
use solana_agg::layout::tx_key;
use solana_agg::layout::BLOCK_KEY_PREFIX;
use solana_agg::layout::LATEST_BLOCK_NO_KEY;
use solana_agg::parser::EncodedTransaction;
use solana_agg::text_map::TextMap;
use solana_agg::util::Block;
use solana_agg::util::ProtocolMessage;
use solana_agg::util::QueryParams;
use solana_agg::util::TxRecord;

fn raw(count: usize) -> Vec<EncodedTransaction> {
    let mut txs = Vec::new();
    for n in 0..count {
        txs.push(EncodedTransaction {
            message: None,
            meta: Some(solana_agg::parser::TransactionMeta {
                post_balances: vec![n as u64],
                serialized: String::new(),
            }),
        });
    }
    txs
}

fn chunk_sizes(messages: &Vec<ProtocolMessage>) -> Vec<(u64, u64, u64, usize)> {
    messages
        .iter()
        .map(|m| match m {
            ProtocolMessage::NewChuck(slot, index, total, txs) => (*slot, *index, *total, txs.len()),
            _ => panic!("expected a chunk"),
        })
        .collect()
}

#[test]
fn decimal_text_is_read() {
    assert_eq!(parse_decimal("0"), Some(0));
    assert_eq!(parse_decimal("7"), Some(7));
    assert_eq!(parse_decimal("10"), Some(10));
    assert_eq!(parse_decimal("301265452"), Some(301265452));
    assert_eq!(parse_decimal("18446744073709551615"), Some(u64::MAX));
    assert_eq!(parse_decimal("18446744073709551610"), Some(u64::MAX - 5));
}

#[test]
fn other_text_is_rejected() {
    assert_eq!(parse_decimal(""), None);
    assert_eq!(parse_decimal("00"), None);
    assert_eq!(parse_decimal("01"), None);
    assert_eq!(parse_decimal("+1"), None);
    assert_eq!(parse_decimal("-1"), None);
    assert_eq!(parse_decimal(" 1"), None);
    assert_eq!(parse_decimal("1 "), None);
    assert_eq!(parse_decimal("1a"), None);
    assert_eq!(parse_decimal("١"), None);
    assert_eq!(parse_decimal("18446744073709551616"), None);
    assert_eq!(parse_decimal("18446744073709551620"), None);
    assert_eq!(parse_decimal("99999999999999999999"), None);
    assert_eq!(parse_decimal("184467440737095516150"), None);
}

#[test]
fn digits_are_told_apart() {
    assert_eq!(digit_of('0'), Some(0));
    assert_eq!(digit_of('5'), Some(5));
    assert_eq!(digit_of('9'), Some(9));
    assert_eq!(digit_of('a'), None);
    assert_eq!(digit_of('/'), None);
    assert_eq!(digit_of(':'), None);
}

#[test]
fn error_messages() {
    assert_eq!(AggError::BlockNotFound.message(), "Block Not Found");
    assert_eq!(AggError::NoBlockFinalised.message(), "No Block Finalised");
    assert_eq!(AggError::TxNotFound.message(), "Transaction Not Found");
    assert_eq!(
        AggError::ConversionError.message(),
        "Conversion Error: could not convert slice to array"
    );
}

#[test]
fn parse_error_message_carries_the_outside_text() {
    let invalid =
        AggError::UnableToParsePublicKey(solana_program::pubkey::ParsePubkeyError::Invalid);
    assert_eq!(invalid.message(), "Unable to parse public key: Invalid Base58 string");
    let wrong_size =
        AggError::UnableToParsePublicKey(solana_program::pubkey::ParsePubkeyError::WrongSize);
    assert_eq!(wrong_size.message(), "Unable to parse public key: String is the wrong size");
}

#[test]
fn keys_are_compared_by_their_bytes() {
    let mut other = [4u8; 32];
    assert!(same_key(&[4u8; 32], &other));
    other[31] = 5;
    assert!(!same_key(&[4u8; 32], &other));
    other[31] = 4;
    other[0] = 0;
    assert!(!same_key(&[4u8; 32], &other));
}

#[test]
fn poller_advances_by_one_slot() {
    let mut poller = Subscriber::initialize("http://source".to_string(), 1000);
    assert_eq!(poller.latest_slot(), 1000);
    assert_eq!(poller.chain_url(), "http://source");
    let message = poller.step(Some(1500));
    assert!(matches!(message, Some(ProtocolMessage::FetchBlock(url, 1001)) if url == "http://source"));
    assert_eq!(poller.latest_slot(), 1001);
    let message = poller.step(Some(1002));
    assert!(matches!(message, Some(ProtocolMessage::FetchBlock(_, 1002))));
    assert_eq!(poller.latest_slot(), 1002);
}

#[test]
fn poller_waits_when_the_head_has_not_moved() {
    let mut poller = Subscriber::initialize("u".to_string(), 1000);
    assert!(poller.step(Some(1000)).is_none());
    assert!(poller.step(Some(999)).is_none());
    assert!(poller.step(None).is_none());
    assert_eq!(poller.latest_slot(), 1000);
    let mut last = Subscriber::initialize("u".to_string(), u64::MAX);
    assert!(last.step(Some(u64::MAX)).is_none());
    assert_eq!(last.latest_slot(), u64::MAX);
}

#[test]
fn fetched_slot_trails_by_the_lag() {
    assert_eq!(BlockFetcher::target_slot(1000), 500);
    assert_eq!(BlockFetcher::target_slot(500), 0);
    assert_eq!(BlockFetcher::target_slot(499), 0);
    assert_eq!(BlockFetcher::target_slot(0), 0);
    assert_eq!(BlockFetcher::target_slot(u64::MAX), u64::MAX - 500);
}

#[test]
fn transactions_are_cut_into_chunks_of_ten() {
    let messages = BlockFetcher::invoke(Some(9), Some(raw(25)));
    assert_eq!(chunk_sizes(&messages), vec![(9, 0, 3, 10), (9, 1, 3, 10), (9, 2, 3, 5)]);
    match &messages[2] {
        ProtocolMessage::NewChuck(_, _, _, txs) => {
            let first = txs[0].meta.as_ref().unwrap().post_balances[0];
            let last = txs[4].meta.as_ref().unwrap().post_balances[0];
            assert_eq!((first, last), (20, 24));
        },
        _ => panic!("expected a chunk"),
    }
    let messages = BlockFetcher::invoke(Some(9), Some(raw(10)));
    assert_eq!(chunk_sizes(&messages), vec![(9, 0, 1, 10)]);
    let messages = BlockFetcher::invoke(Some(9), Some(raw(11)));
    assert_eq!(chunk_sizes(&messages), vec![(9, 0, 2, 10), (9, 1, 2, 1)]);
    let messages = BlockFetcher::invoke(Some(9), Some(raw(1)));
    assert_eq!(chunk_sizes(&messages), vec![(9, 0, 1, 1)]);
}

#[test]
fn block_without_number_or_transactions_gives_no_chunk() {
    assert_eq!(BlockFetcher::invoke(None, Some(raw(3))).len(), 0);
    assert_eq!(BlockFetcher::invoke(Some(1), None).len(), 0);
    assert_eq!(BlockFetcher::invoke(None, None).len(), 0);
    assert_eq!(BlockFetcher::invoke(Some(1), Some(raw(0))).len(), 0);
}

#[test]
fn builder_keeps_what_it_is_given() {
    let builder = Builder::default().chain_url("http://source".to_string()).router_sender(7u8);
    assert_eq!(builder.chain_url.0, "http://source");
    assert_eq!(builder.router_sender.0, 7);
    let builder = Builder::default().db_path("/tmp/db".to_string()).db_receiver("rx");
    assert_eq!(builder.db_path.0, "/tmp/db");
    assert_eq!(builder.db_receiver.0, "rx");
    let builder = Builder::default().db_sender(1u32).router_receiver(2u64);
    assert_eq!(builder.db_sender.0, 1);
    assert_eq!(builder.router_receiver.0, 2);
    let builder = builder.chain_url("a".to_string()).chain_url("b".to_string());
    assert_eq!(builder.chain_url.0, "b");
    assert_eq!(builder.db_sender.0, 1);
}

#[test]
fn server_binds_to_the_local_host() {
    let cli = Cli {
        chain_url: "http://source".to_string(),
        db_path: "/tmp/db".to_string(),
        port_no: "9944".to_string(),
    };
    assert_eq!(cli.bind_address(), "127.0.0.1:9944");
}

#[test]
fn query_params_carry_the_slot() {
    let params = QueryParams { block_no: Some(4) };
    assert_eq!(params.block_no, Some(4));
}

#[test]
fn text_map_keeps_one_value_per_key() {
    let mut map: TextMap<u64> = TextMap::new();
    assert_eq!(map.len(), 0);
    map.insert("a".to_string(), 1);
    map.insert("b".to_string(), 2);
    map.insert("a".to_string(), 3);
    assert_eq!(map.len(), 2);
    assert_eq!(map.get(&"a".to_string()), Some(&3));
    assert_eq!(map.get(&"b".to_string()), Some(&2));
    assert_eq!(map.get(&"c".to_string()), None);
    assert!(map.contains_key(&"b".to_string()));
    assert!(!map.contains_key(&"".to_string()));
    assert_eq!(map.keys(), vec!["a".to_string(), "b".to_string()]);
    assert_eq!(map.key_at(1), "b");
    assert_eq!(*map.value_at(0), 3);
}

#[test]
fn text_map_extend_prefers_the_other_map() {
    let mut map: TextMap<u64> = TextMap::new();
    map.insert("a".to_string(), 1);
    map.insert("b".to_string(), 2);
    let mut other: TextMap<u64> = TextMap::new();
    other.insert("b".to_string(), 20);
    other.insert("c".to_string(), 30);
    map.extend_from(&other);
    assert_eq!(map.len(), 3);
    assert_eq!(map.get(&"a".to_string()), Some(&1));
    assert_eq!(map.get(&"b".to_string()), Some(&20));
    assert_eq!(map.get(&"c".to_string()), Some(&30));
    let copy = map.clone();
    assert_eq!(copy.keys(), map.keys());
    assert_eq!(copy.get(&"b".to_string()), Some(&20));
}

#[test]
fn block_accounts_and_transactions() {
    let mut block = Block::default();
    assert!(block.get_account_map().is_none());
    assert_eq!(block.get_account_balance("A"), None);
    block.insert_account("A".to_string(), 1);
    block.insert_account("A".to_string(), 2);
    block.insert_account("B".to_string(), 3);
    assert_eq!(block.get_account_balance("A"), Some(2));
    assert_eq!(block.get_account_balance("B"), Some(3));
    assert_eq!(block.get_account_balance("C"), None);
    assert_eq!(block.get_account_map().unwrap().len(), 2);
    assert_eq!(block.accounts().as_ref().unwrap().len(), 2);
    block.insert_transaction("h".to_string(), TxRecord::default());
    assert!(block.get_tx_details("h").is_some());
    assert!(block.get_tx_details("g").is_none());
    let mut map: TextMap<u64> = TextMap::new();
    map.insert("Z".to_string(), 9);
    block.set_account_map(map);
    assert_eq!(block.get_account_balance("A"), None);
    assert_eq!(block.get_account_balance("Z"), Some(9));
    let copy = block.clone();
    assert_eq!(copy.get_tx_hash(), vec!["h".to_string()]);
    assert_eq!(copy.get_account_balance("Z"), Some(9));
}

#[test]
fn block_absorbs_a_part() {
    let mut block = Block::default();
    block.insert_account("A".to_string(), 1);
    block.insert_transaction("h".to_string(), TxRecord::new(Vec::new(), Some("old".to_string())));
    let mut part = Block::default();
    part.insert_account("A".to_string(), 5);
    part.insert_account("B".to_string(), 6);
    part.insert_transaction("h".to_string(), TxRecord::new(Vec::new(), Some("new".to_string())));
    part.insert_transaction("g".to_string(), TxRecord::default());
    block.absorb(&part);
    assert_eq!(block.get_account_balance("A"), Some(5));
    assert_eq!(block.get_account_balance("B"), Some(6));
    assert_eq!(block.get_tx_hash().len(), 2);
    assert_eq!(block.get_tx_details("h").unwrap().metadata(), &Some("new".to_string()));
    block.absorb(&Block::default());
    assert_eq!(block.get_account_balance("A"), Some(5));
    assert_eq!(block.get_tx_hash().len(), 2);
}

#[test]
fn message_builders() {
    assert!(matches!(
        ProtocolMessage::fetch_block("u".to_string(), 3),
        ProtocolMessage::FetchBlock(u, 3) if u == "u"
    ));
    assert!(matches!(
        ProtocolMessage::new_chuck(1, 2, 3, raw(2)),
        ProtocolMessage::NewChuck(1, 2, 3, txs) if txs.len() == 2
    ));
    assert!(matches!(
        ProtocolMessage::parsed_block(1, 3, 2, Block::default()),
        ProtocolMessage::ParsedBlock(1, 3, 2, _)
    ));
}

#[test]
fn slot_is_written_as_decimal_text() {
    assert_eq!(slot_text(0), "0");
    assert_eq!(slot_text(7), "7");
    assert_eq!(slot_text(10), "10");
    assert_eq!(slot_text(301265452), "301265452");
    assert_eq!(slot_text(u64::MAX), "18446744073709551615");
    for slot in [0u64, 9, 10, 99, 100, 12345, u64::MAX - 1, u64::MAX] {
        assert_eq!(parse_decimal(&slot_text(slot)), Some(slot));
        assert_eq!(slot_text(slot), format!("{}", slot));
    }
}

#[test]
fn block_keys() {
    assert_eq!(BLOCK_KEY_PREFIX, "BlockNo");
    assert_eq!(LATEST_BLOCK_NO_KEY, "lst_blk_no");
    assert_eq!(block_key(0), "BlockNo0");
    assert_eq!(block_key(301265452), "BlockNo301265452");
    assert_eq!(slot_of_block_key("BlockNo0"), Some(0));
    assert_eq!(slot_of_block_key("BlockNo301265452"), Some(301265452));
    assert_eq!(slot_of_block_key(&block_key(u64::MAX)), Some(u64::MAX));
    assert_eq!(slot_of_block_key("BlockNo"), None);
    assert_eq!(slot_of_block_key("BlockNo01"), None);
    assert_eq!(slot_of_block_key("BlockNo1x"), None);
    assert_eq!(slot_of_block_key("blockNo1"), None);
    assert_eq!(slot_of_block_key("Block"), None);
    assert_eq!(slot_of_block_key(""), None);
    assert_eq!(slot_of_block_key("lst_blk_no"), None);
    assert_eq!(slot_of_block_key("BlockNo18446744073709551616"), None);
}

#[test]
fn transaction_key_is_the_json_text_of_the_hash() {
    assert_eq!(tx_key(&"abc".to_string()).unwrap(), b"\"abc\"".to_vec());
    assert_eq!(tx_key(&"a\"b".to_string()).unwrap(), b"\"a\\\"b\"".to_vec());
    assert_eq!(tx_key(&String::new()).unwrap(), b"\"\"".to_vec());
}

#[test]
fn slot_value_is_json() {
    assert_eq!(slot_value(42).unwrap(), b"42".to_vec());
    assert_eq!(slot_value(0).unwrap(), b"0".to_vec());
    assert_eq!(read_slot_value(b"42").unwrap(), 42);
    assert_eq!(read_slot_value(b" 7 ").unwrap(), 7);
    assert_eq!(read_slot_value(&slot_value(u64::MAX).unwrap()).unwrap(), u64::MAX);
    assert_eq!(slot_value(u64::MAX).unwrap(), b"18446744073709551615".to_vec());
    for slot in [0u64, 7, 10, 301265452, u64::MAX] {
        assert_eq!(slot_value(slot).unwrap(), slot_text(slot).into_bytes());
        assert!(tx_key(&slot_text(slot)).is_ok());
    }
}

#[test]
fn unreadable_slot_value_is_a_json_error() {
    let error = read_slot_value(b"seven").unwrap_err();
    assert!(matches!(error, AggError::JsonError(_)));
    let text = error.message();
    assert!(text.starts_with("Json Error: "));
    assert!(text.len() > "Json Error: ".len());
    assert!(matches!(read_slot_value(b"-1"), Err(AggError::JsonError(_))));
    assert!(matches!(read_slot_value(b"18446744073709551616"), Err(AggError::JsonError(_))));
    assert!(matches!(read_slot_value(b""), Err(AggError::JsonError(_))));
}
