//! Streaming event indexer for Cosmos-family chains: range planning against a
//! moving chain tip, transaction ordering, attribute grouping and pattern
//! matching of contract events.

pub mod helpers;
pub mod indexer;
pub mod matcher_config;
pub mod processor;
pub mod rpc;

use matcher_config::MatcherConfig;
use vstd::prelude::*;

verus! {

/// Static settings of one indexer process.
#[derive(Debug, Clone)]
pub struct IndexerConfig {
    pub chain_id: String,
    pub rpc_endpoint: String,
    pub database_driver: String,
    pub database_uri: String,
    pub database_name: String,
    pub start_height: u64,
    pub block_lag_batch_size: u64,
    pub fetch_batch_timeout: u64,
    pub fetch_single_timeout: u64,
    pub block_notifications_enabled: bool,
    pub aws_sns_topic: String,
    pub aws_localstack: bool,
    pub aws_localstack_endpoint: String,
}

/// Where the catalogue comes from: given whole, or read from a file.
pub struct MatcherOptions {
    pub matcher_file_path: Option<String>,
    pub matcher_config: Option<MatcherConfig>,
}

/// The catalogue itself, or the file to read it from.
pub enum MatcherSource {
    Config(MatcherConfig),
    File(String),
}

/// Picks the catalogue: one given whole wins; else the given file, else
/// `config.yaml`.
pub fn resolve_matcher_source(options: Option<MatcherOptions>) -> (r: MatcherSource)
    ensures
        match options {
            Some(o) => match o.matcher_config {
                Some(c) => r == MatcherSource::Config(c),
                None => match o.matcher_file_path {
                    Some(p) => r matches MatcherSource::File(f) && f@ == p@,
                    None => r matches MatcherSource::File(f) && f@ == "config.yaml"@,
                },
            },
            None => r matches MatcherSource::File(f) && f@ == "config.yaml"@,
        },
{
    match options {
        Some(o) => match o.matcher_config {
            Some(c) => MatcherSource::Config(c),
            None => match o.matcher_file_path {
                Some(p) => MatcherSource::File(p),
                None => MatcherSource::File(String::from_str("config.yaml")),
            },
        },
        None => MatcherSource::File(String::from_str("config.yaml")),
    }
}

} // verus!
