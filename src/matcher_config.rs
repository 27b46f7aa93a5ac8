//! The catalogue of contract events that the indexer persists.

use vstd::prelude::*;

verus! {

/// One attribute that a contract event must carry: exact key and value.
#[derive(Debug, Clone)]
pub struct Pattern {
    pub key: String,
    pub value: String,
}

/// A named catalogue entry; `key` is the tag stored with every match.
#[derive(Debug, Clone)]
pub struct MatcherEvent {
    pub name: String,
    pub key: String,
    pub patterns: Vec<Pattern>,
}

/// The ordered catalogue, loaded once and shared by every worker.
#[derive(Debug, Clone)]
pub struct MatcherConfig {
    pub events: Vec<MatcherEvent>,
}

} // verus!
