use cosmos_indexer::matcher_config::{MatcherConfig, MatcherEvent, Pattern};
use cosmos_indexer::processor::{
    count_matching_pairs, event_matches, group_attributes, process_event_matcher, process_tx,
    process_txs, AttrPair,
};
use cosmos_indexer::rpc::{Attribute, Event, Tx, TxResult};

fn attr(k: &str, v: &str) -> Attribute {
    Attribute { key: Some(k.to_string()), value: Some(v.to_string()) }
}

fn pair(k: &str, v: &str) -> AttrPair {
    (k.to_string(), v.to_string())
}

fn pattern(k: &str, v: &str) -> Pattern {
    Pattern { key: k.to_string(), value: v.to_string() }
}

fn swap_matcher() -> MatcherConfig {
    MatcherConfig {
        events: vec![MatcherEvent {
            name: "swap".to_string(),
            key: "swap_k".to_string(),
            patterns: vec![pattern("action", "swap"), pattern("amount", "10")],
        }],
    }
}

fn swap_attributes() -> Vec<Attribute> {
    vec![
        attr("_contract_address", "c1"),
        attr("action", "swap"),
        attr("amount", "10"),
        attr("_contract_address", "c2"),
        attr("action", "mint"),
    ]
}

fn wasm_tx(code: i64, attributes: Vec<Attribute>) -> Tx {
    Tx {
        hash: "H1".to_string(),
        height: 101,
        index: 0,
        tx_result: TxResult {
            code,
            events: Some(vec![Event {
                type_str: Some("wasm".to_string()),
                attributes: Some(attributes),
            }]),
        },
    }
}

#[test]
fn groups_split_at_contract_address() {
    let (groups, full) = group_attributes(&swap_attributes());
    assert_eq!(groups.len(), 3);
    assert!(groups[0].is_empty());
    assert_eq!(
        groups[1],
        vec![pair("_contract_address", "c1"), pair("action", "swap"), pair("amount", "10")]
    );
    assert_eq!(groups[2], vec![pair("_contract_address", "c2"), pair("action", "mint")]);
    assert_eq!(full.len(), 5);
    let joined: Vec<AttrPair> = groups.concat();
    assert_eq!(joined, full);
}

#[test]
fn groups_without_contract_address_form_one_group() {
    let attrs = vec![attr("action", "swap"), attr("amount", "10")];
    let (groups, full) = group_attributes(&attrs);
    assert_eq!(groups, vec![vec![pair("action", "swap"), pair("amount", "10")]]);
    assert_eq!(full.len(), 2);
}

#[test]
fn groups_of_no_attributes_are_empty() {
    let (groups, full) = group_attributes(&vec![]);
    assert!(groups.is_empty());
    assert!(full.is_empty());
}

#[test]
fn absent_attribute_is_skipped_everywhere() {
    let attrs = vec![
        attr("_contract_address", "c1"),
        Attribute { key: Some("amount".to_string()), value: None },
        Attribute { key: None, value: Some("x".to_string()) },
        attr("action", "swap"),
    ];
    let (groups, full) = group_attributes(&attrs);
    assert_eq!(full, vec![pair("_contract_address", "c1"), pair("action", "swap")]);
    assert_eq!(groups.len(), 2);
    assert_eq!(groups[1], full);
}

#[test]
fn matcher_hit_writes_one_record() {
    let tx = wasm_tx(0, swap_attributes());
    let records = process_tx(&swap_matcher(), &"chain-1".to_string(), &tx);
    assert_eq!(records.len(), 1);
    let r = &records[0];
    assert_eq!(r.key, "swap_k");
    assert_eq!(r.chain_id, "chain-1");
    assert_eq!(r.block_height, 101);
    assert_eq!(r.tx_hash, "H1");
    let logs: Vec<(String, String)> =
        r.logs.iter().map(|l| (l.key.clone(), l.value.clone())).collect();
    assert_eq!(
        logs,
        vec![pair("_contract_address", "c1"), pair("action", "swap"), pair("amount", "10")]
    );
    let full: Vec<(String, String)> =
        r.full_logs.iter().map(|l| (l.key.clone(), l.value.clone())).collect();
    assert_eq!(full.len(), 5);
    assert_eq!(full[3], pair("_contract_address", "c2"));
}

#[test]
fn failed_tx_is_skipped() {
    let tx = wasm_tx(5, swap_attributes());
    assert!(process_tx(&swap_matcher(), &"chain-1".to_string(), &tx).is_empty());
}

#[test]
fn tx_without_events_yields_nothing() {
    let tx = Tx {
        hash: "H".to_string(),
        height: 1,
        index: 0,
        tx_result: TxResult { code: 0, events: None },
    };
    assert!(process_tx(&swap_matcher(), &"c".to_string(), &tx).is_empty());
}

#[test]
fn non_wasm_event_is_ignored() {
    let mut tx = wasm_tx(0, swap_attributes());
    if let Some(events) = tx.tx_result.events.as_mut() {
        events[0].type_str = Some("transfer".to_string());
    }
    assert!(process_tx(&swap_matcher(), &"c".to_string(), &tx).is_empty());
}

#[test]
fn counting_rule_counts_each_pair_once() {
    let patterns = vec![pattern("action", "swap"), pattern("action", "swap")];
    let grouped = vec![pair("action", "swap"), pair("amount", "10")];
    assert_eq!(count_matching_pairs(&grouped, &patterns), 1);
}

#[test]
fn matcher_law_on_distinct_pairs() {
    let event = MatcherEvent {
        name: "n".to_string(),
        key: "k".to_string(),
        patterns: vec![pattern("a", "1"), pattern("b", "2")],
    };
    assert!(event_matches(&event, &vec![pair("a", "1"), pair("b", "2"), pair("c", "3")]));
    assert!(!event_matches(&event, &vec![pair("a", "1"), pair("c", "3")]));
    assert!(!event_matches(&event, &vec![pair("a", "2"), pair("b", "1")]));
}

#[test]
fn counting_rule_over_matches_on_repeated_pairs() {
    let event = MatcherEvent {
        name: "n".to_string(),
        key: "k".to_string(),
        patterns: vec![pattern("a", "1"), pattern("b", "2")],
    };
    assert!(event_matches(&event, &vec![pair("a", "1"), pair("a", "1")]));
}

#[test]
fn every_matching_entry_gives_a_record_in_catalogue_order() {
    let matcher = MatcherConfig {
        events: vec![
            MatcherEvent {
                name: "first".to_string(),
                key: "k1".to_string(),
                patterns: vec![pattern("action", "swap")],
            },
            MatcherEvent {
                name: "never".to_string(),
                key: "k2".to_string(),
                patterns: vec![pattern("action", "burn")],
            },
            MatcherEvent { name: "any".to_string(), key: "k3".to_string(), patterns: vec![] },
        ],
    };
    let grouped = vec![pair("action", "swap")];
    let records =
        process_event_matcher(&matcher, &"c".to_string(), 7, &"h".to_string(), &grouped, &grouped);
    let keys: Vec<String> = records.iter().map(|r| r.key.clone()).collect();
    assert_eq!(keys, vec!["k1".to_string(), "k3".to_string()]);
}

#[test]
fn empty_range_yields_no_records() {
    assert!(process_txs(&swap_matcher(), &"c".to_string(), &vec![]).is_empty());
}

#[test]
fn records_carry_their_tx_height() {
    let mut a = wasm_tx(0, swap_attributes());
    a.height = 200;
    let mut b = wasm_tx(0, swap_attributes());
    b.height = 205;
    let records = process_txs(&swap_matcher(), &"c".to_string(), &vec![a, b]);
    let heights: Vec<u64> = records.iter().map(|r| r.block_height).collect();
    assert_eq!(heights, vec![200, 205]);
}
