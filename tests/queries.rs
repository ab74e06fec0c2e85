use solana_block_cache::day::{day_start_secs, parse_day};
use solana_block_cache::fault::{RpcFault, StoreFault};
use solana_block_cache::query::{
    account_key_bytes, contains_signature, reduce_transaction, search_transactions,
    select_transactions, BlockRecord, EncodedTransaction, QueryError, TransactionMessage, TxFilter,
    TxPos,
};

fn strings(v: &[&str]) -> Vec<String> {
    v.iter().map(|s| s.to_string()).collect()
}

fn json_tx(sigs: &[&str]) -> EncodedTransaction {
    EncodedTransaction::Json {
        signatures: strings(sigs),
        message: TransactionMessage::Raw {
            recent_blockhash: "hash".to_string(),
            account_keys: strings(&["acct"]),
        },
    }
}

fn two_days() -> Vec<BlockRecord> {
    vec![
        BlockRecord {
            transactions: vec![json_tx(&["a1"]), json_tx(&["a2", "shared"])],
            block_time: Some(1700000000),
        },
        BlockRecord {
            transactions: vec![json_tx(&["b1"])],
            block_time: Some(1700090000),
        },
        BlockRecord { transactions: vec![json_tx(&["c1"])], block_time: None },
    ]
}

fn params(v: &[(&str, &str)]) -> Vec<(String, String)> {
    v.iter().map(|(k, x)| (k.to_string(), x.to_string())).collect()
}

fn pos(block: usize, index: usize) -> TxPos {
    TxPos { block, index }
}

#[test]
fn day_query_selects_blocks_of_that_day() {
    let blocks = two_days();
    let r = search_transactions(&blocks, &params(&[("day", "14/11/2023")])).ok().unwrap();
    assert_eq!(r, vec![pos(0, 0), pos(0, 1)]);
    let r = search_transactions(&blocks, &params(&[("day", "15/11/2023")])).ok().unwrap();
    assert_eq!(r, vec![pos(1, 0)]);
    let r = search_transactions(&blocks, &params(&[("day", "16/11/2023")])).ok().unwrap();
    assert!(r.is_empty());
}

#[test]
fn day_start_is_utc_midnight() {
    assert_eq!(day_start_secs("14/11/2023"), Some(1699920000));
    assert_eq!(day_start_secs("01/01/1970"), Some(0));
    assert_eq!(day_start_secs("31/12/1969"), Some(-86400));
    assert_eq!(day_start_secs("29/02/2024"), Some(1709164800));
    assert_eq!(day_start_secs("29/02/2023"), None);
    assert_eq!(day_start_secs("32/01/2023"), None);
    assert_eq!(day_start_secs("01/13/2023"), None);
    assert_eq!(day_start_secs("1/1/2023"), None);
    assert_eq!(day_start_secs("2023-11-14"), None);
    assert_eq!(parse_day("14/11/2023"), Some((14, 11, 2023)));
    assert_eq!(parse_day("14-11-2023"), None);
}

#[test]
fn malformed_day_is_an_error() {
    let blocks = two_days();
    match search_transactions(&blocks, &params(&[("day", "31/02/2023")])) {
        Err(QueryError::MalformedDay(v)) => assert_eq!(v, "31/02/2023"),
        _ => panic!("expected a malformed day"),
    }
}

#[test]
fn signature_search_finds_the_one_transaction() {
    let blocks = two_days();
    let r = search_transactions(&blocks, &params(&[("id", "shared")])).ok().unwrap();
    assert_eq!(r, vec![pos(0, 1)]);
    let r = search_transactions(&blocks, &params(&[("id", "c1")])).ok().unwrap();
    assert_eq!(r, vec![pos(2, 0)]);
}

#[test]
fn signature_search_for_absent_id_is_empty() {
    let blocks = two_days();
    let r = search_transactions(&blocks, &params(&[("id", "nowhere")])).ok().unwrap();
    assert!(r.is_empty());
}

#[test]
fn unknown_parameter_is_an_error() {
    let blocks = two_days();
    match search_transactions(&blocks, &params(&[("foo", "bar")])) {
        Err(QueryError::UnknownParameter(n)) => assert_eq!(n, "foo"),
        _ => panic!("expected an unknown parameter"),
    }
    match search_transactions(&blocks, &params(&[("id", "a1"), ("foo", "bar")])) {
        Err(QueryError::UnknownParameter(n)) => assert_eq!(n, "foo"),
        _ => panic!("expected an unknown parameter"),
    }
}

#[test]
fn parameters_combine_in_order() {
    let blocks = two_days();
    let r = search_transactions(&blocks, &params(&[("id", "b1"), ("day", "14/11/2023")]))
        .ok()
        .unwrap();
    assert_eq!(r, vec![pos(1, 0), pos(0, 0), pos(0, 1)]);
    let r = search_transactions(&blocks, &params(&[])).ok().unwrap();
    assert!(r.is_empty());
}

#[test]
fn window_filter_is_half_open() {
    let blocks = two_days();
    let f = TxFilter::Window { lo: 1700000000, hi: 1700090000 };
    assert_eq!(select_transactions(&blocks, &f), vec![pos(0, 0), pos(0, 1)]);
    let f = TxFilter::Window { lo: 1700000001, hi: 1700090001 };
    assert_eq!(select_transactions(&blocks, &f), vec![pos(1, 0)]);
}

#[test]
fn contains_signature_by_encoding() {
    assert!(contains_signature(&json_tx(&["x", "y"]), "y"));
    assert!(!contains_signature(&json_tx(&["x", "y"]), "z"));
    let accounts = EncodedTransaction::Accounts {
        signatures: strings(&["s"]),
        account_keys: strings(&["k"]),
    };
    assert!(contains_signature(&accounts, "s"));
    assert!(!contains_signature(&EncodedTransaction::Binary, "s"));
}

#[test]
fn reduce_transaction_reads_json_only() {
    let tx = EncodedTransaction::Json {
        signatures: strings(&["s1", "s2"]),
        message: TransactionMessage::Parsed {
            recent_blockhash: "bh".to_string(),
            account_keys: strings(&["k1", "k2"]),
        },
    };
    let (sigs, hash, keys) = reduce_transaction(&tx);
    assert_eq!(sigs, strings(&["s1", "s2"]));
    assert_eq!(hash, "bh");
    assert_eq!(keys, strings(&["k1", "k2"]));
    let accounts = EncodedTransaction::Accounts {
        signatures: strings(&["s"]),
        account_keys: strings(&["k"]),
    };
    let (sigs, hash, keys) = reduce_transaction(&accounts);
    assert!(sigs.is_empty() && hash.is_empty() && keys.is_empty());
}

#[test]
fn account_key_must_be_32_bytes() {
    let key = "0123456789abcdef0123456789abcdef";
    assert_eq!(account_key_bytes(key).ok().unwrap(), key.as_bytes().to_vec());
    match account_key_bytes("short") {
        Err(QueryError::MalformedKey(k)) => assert_eq!(k, "short"),
        _ => panic!("expected a malformed key"),
    }
}

#[test]
fn fault_messages() {
    assert_eq!(StoreFault::KeyNotFound.message(), "Key not found");
    assert_eq!(StoreFault::TypeMismatch("u64".to_string()).message(), "Type mismatch: u64");
    assert_eq!(StoreFault::Other.message(), "Default error");
    assert_eq!(RpcFault::Signing.message(), "Signing error");
    assert_eq!(RpcFault::Io.message(), "I/O error");
}
