use cosmos_indexer::indexer::{pacing_timeout, plan_range, Indexer, RangePlan, SyncMode};
use cosmos_indexer::matcher_config::MatcherConfig;
use cosmos_indexer::processor::process_txs;
use cosmos_indexer::{resolve_matcher_source, IndexerConfig, MatcherOptions, MatcherSource};

fn config(start_height: u64, batch: u64) -> IndexerConfig {
    IndexerConfig {
        chain_id: "chain-1".to_string(),
        rpc_endpoint: "http://rpc".to_string(),
        database_driver: "mongodb".to_string(),
        database_uri: "mongodb://db".to_string(),
        database_name: "indexer".to_string(),
        start_height,
        block_lag_batch_size: batch,
        fetch_batch_timeout: 50,
        fetch_single_timeout: 1000,
        block_notifications_enabled: true,
        aws_sns_topic: "topic".to_string(),
        aws_localstack: false,
        aws_localstack_endpoint: String::new(),
    }
}

#[test]
fn cold_start_resume() {
    let cfg = config(50, 200);
    let mut indexer = Indexer::start(Some(100), &cfg);
    assert_eq!(indexer.last_indexed_height, 100);
    let plan = indexer.plan(101, &cfg).unwrap();
    assert_eq!(plan, RangePlan { from: 101, to: 101, mode: SyncMode::Stream });
    let matcher = MatcherConfig { events: vec![] };
    assert!(process_txs(&matcher, &cfg.chain_id, &vec![]).is_empty());
    indexer.commit(&plan);
    assert_eq!(indexer.last_indexed_height, 101);
}

#[test]
fn batch_catch_up() {
    let cfg = config(1000, 200);
    let mut indexer = Indexer::start(Some(0), &cfg);
    let first = indexer.plan(5000, &cfg).unwrap();
    assert_eq!(first, RangePlan { from: 1001, to: 1200, mode: SyncMode::Batch });
    let mut iterations = 0;
    while let Some(plan) = indexer.plan(5000, &cfg) {
        indexer.commit(&plan);
        iterations += 1;
    }
    assert_eq!(iterations, 20);
    assert_eq!(indexer.last_indexed_height, 5000);
}

#[test]
fn missing_cursor_starts_at_start_height() {
    let cfg = config(1000, 200);
    assert_eq!(Indexer::start(None, &cfg).last_indexed_height, 1000);
    assert_eq!(Indexer::start(Some(5), &config(0, 1)).last_indexed_height, 5);
}

#[test]
fn notification_failure_keeps_commit() {
    let cfg = config(0, 20);
    let mut indexer = Indexer::start(Some(199), &cfg);
    let plan = indexer.plan(210, &cfg).unwrap();
    assert_eq!((plan.from, plan.to), (200, 210));
    indexer.commit(&plan);
    assert_eq!(indexer.last_indexed_height, 210);
}

#[test]
fn caught_up_fetches_nothing() {
    let cfg = config(0, 20);
    let indexer = Indexer::start(Some(300), &cfg);
    assert_eq!(indexer.plan(300, &cfg), None);
    assert_eq!(indexer.plan(250, &cfg), None);
    assert_eq!(pacing_timeout(&None, &cfg), 1000);
}

#[test]
fn mode_follows_lag() {
    assert_eq!(plan_range(10, 11, 5), Some(RangePlan { from: 11, to: 11, mode: SyncMode::Stream }));
    assert_eq!(plan_range(10, 12, 5), Some(RangePlan { from: 11, to: 12, mode: SyncMode::Batch }));
    assert_eq!(plan_range(10, 100, 5), Some(RangePlan { from: 11, to: 15, mode: SyncMode::Batch }));
    assert_eq!(plan_range(10, 100, 1), Some(RangePlan { from: 11, to: 11, mode: SyncMode::Batch }));
    assert_eq!(
        plan_range(u64::MAX - 1, u64::MAX, u64::MAX),
        Some(RangePlan { from: u64::MAX, to: u64::MAX, mode: SyncMode::Stream })
    );
    assert_eq!(
        plan_range(0, u64::MAX, u64::MAX),
        Some(RangePlan { from: 1, to: u64::MAX, mode: SyncMode::Batch })
    );
}

#[test]
fn pacing_by_range_width() {
    let cfg = config(0, 20);
    let wide = Some(RangePlan { from: 1, to: 3, mode: SyncMode::Batch });
    let narrow = Some(RangePlan { from: 1, to: 2, mode: SyncMode::Batch });
    assert_eq!(pacing_timeout(&wide, &cfg), 50);
    assert_eq!(pacing_timeout(&narrow, &cfg), 1000);
}

#[test]
fn commit_of_stale_plan_keeps_cursor() {
    let cfg = config(0, 20);
    let mut indexer = Indexer::start(Some(40), &cfg);
    indexer.commit(&RangePlan { from: 30, to: 35, mode: SyncMode::Batch });
    assert_eq!(indexer.last_indexed_height, 40);
}

#[test]
fn matcher_source_prefers_given_config() {
    let given = MatcherOptions {
        matcher_file_path: Some("m.yaml".to_string()),
        matcher_config: Some(MatcherConfig { events: vec![] }),
    };
    assert!(matches!(resolve_matcher_source(Some(given)), MatcherSource::Config(_)));
    let file = MatcherOptions { matcher_file_path: Some("m.yaml".to_string()), matcher_config: None };
    assert!(matches!(resolve_matcher_source(Some(file)), MatcherSource::File(p) if p == "m.yaml"));
    assert!(matches!(resolve_matcher_source(None), MatcherSource::File(p) if p == "config.yaml"));
}
