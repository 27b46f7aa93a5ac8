use cosmos_indexer::helpers::{decode_base64_text, parse_u64, utf8_text};
use cosmos_indexer::rpc::{order_txs, tx_search_query, Tx, TxPager, TxResult, TxSearchResponse, TxSearchResult};

fn tx(hash: &str, height: u64, index: u64, code: i64) -> Tx {
    Tx { hash: hash.to_string(), height, index, tx_result: TxResult { code, events: None } }
}

fn page(n: usize, total_count: u64) -> TxSearchResponse {
    let txs = (0..n).map(|i| tx("h", 10, i as u64, 0)).collect();
    TxSearchResponse { result: TxSearchResult { txs, total_count } }
}

#[test]
fn query_for_one_height() {
    assert_eq!(tx_search_query(5, 5), "\"tx.height = 5\"");
}

#[test]
fn query_for_a_range() {
    assert_eq!(tx_search_query(1001, 1200), "\"tx.height >= 1001 AND tx.height <= 1200\"");
}

#[test]
fn paging_accumulates_until_total() {
    let mut pager = TxPager::new();
    assert_eq!(pager.next_page(), Some(1));
    pager.absorb(page(100, 250));
    assert_eq!(pager.next_page(), Some(2));
    pager.absorb(page(100, 999));
    assert_eq!(pager.next_page(), Some(3));
    pager.absorb(page(50, 0));
    assert_eq!(pager.next_page(), None);
    assert_eq!(pager.total_count, 250);
    assert_eq!(pager.txs.len(), 250);
}

#[test]
fn paging_stops_after_empty_first_page() {
    let mut pager = TxPager::new();
    pager.absorb(page(0, 0));
    assert_eq!(pager.next_page(), None);
    assert!(pager.finish().is_empty());
}

#[test]
fn order_is_height_then_index_and_failed_dropped() {
    let txs = vec![
        tx("a", 12, 1, 0),
        tx("b", 11, 2, 0),
        tx("c", 12, 0, 0),
        tx("d", 11, 0, 3),
        tx("e", 11, 1, 0),
    ];
    let hashes: Vec<String> = order_txs(txs).into_iter().map(|t| t.hash).collect();
    assert_eq!(hashes, vec!["e", "b", "c", "a"]);
}

#[test]
fn order_keeps_equal_keys_in_place() {
    let txs = vec![tx("x", 5, 0, 0), tx("y", 4, 0, 0), tx("z", 5, 0, 0), tx("w", 5, 0, 0)];
    let hashes: Vec<String> = order_txs(txs).into_iter().map(|t| t.hash).collect();
    assert_eq!(hashes, vec!["y", "x", "z", "w"]);
}

#[test]
fn parse_decimal_numbers() {
    assert_eq!(parse_u64("123"), Some(123));
    assert_eq!(parse_u64("+7"), Some(7));
    assert_eq!(parse_u64("007"), Some(7));
    assert_eq!(parse_u64("18446744073709551615"), Some(u64::MAX));
}

#[test]
fn parse_rejects_malformed_numbers() {
    assert_eq!(parse_u64(""), None);
    assert_eq!(parse_u64("+"), None);
    assert_eq!(parse_u64("-1"), None);
    assert_eq!(parse_u64("12a"), None);
    assert_eq!(parse_u64(" 1"), None);
    assert_eq!(parse_u64("18446744073709551616"), None);
}

#[test]
fn base64_text_decodes() {
    assert_eq!(decode_base64_text("aGVsbG8="), Some("hello".to_string()));
    assert_eq!(decode_base64_text("X2NvbnRyYWN0X2FkZHJlc3M="), Some("_contract_address".to_string()));
    assert_eq!(decode_base64_text(""), Some(String::new()));
}

#[test]
fn invalid_base64_is_absent() {
    assert_eq!(decode_base64_text("not base64!"), None);
    assert_eq!(decode_base64_text("aGVsbG8"), None);
}

#[test]
fn non_utf8_bytes_are_absent() {
    assert_eq!(decode_base64_text("/w=="), None);
    assert_eq!(utf8_text(Some(vec![0xff])), None);
    assert_eq!(utf8_text(Some(vec![104, 105])), Some("hi".to_string()));
    assert_eq!(utf8_text(None), None);
}
