//! Turning one transaction into matched event records: the wasm events'
//! attributes are split into one group per contract invocation, and each
//! group is held against the catalogue.

use crate::matcher_config::{MatcherConfig, MatcherEvent, Pattern};
use crate::rpc::{Attribute, Event, Tx};
use vstd::prelude::*;

verus! {

/// A decoded attribute: key and value.
pub type AttrPair = (String, String);

/// The model of an attribute pair.
pub type PairModel = (Seq<char>, Seq<char>);

/// The key that opens the group of one contract invocation.
pub open spec fn contract_address_key() -> Seq<char> {
    "_contract_address"@
}

pub open spec fn pair_view(p: AttrPair) -> PairModel {
    (p.0@, p.1@)
}

pub open spec fn pairs_view(v: Seq<AttrPair>) -> Seq<PairModel> {
    v.map_values(|p: AttrPair| pair_view(p))
}

pub open spec fn groups_view(v: Seq<Vec<AttrPair>>) -> Seq<Seq<PairModel>> {
    v.map_values(|g: Vec<AttrPair>| pairs_view(g@))
}

/// The attributes whose key and value are both present, in order.
pub open spec fn present_pairs(attrs: Seq<Attribute>) -> Seq<PairModel>
    decreases attrs.len(),
{
    if attrs.len() == 0 {
        seq![]
    } else {
        let rest = present_pairs(attrs.drop_last());
        let a = attrs.last();
        match (a.key, a.value) {
            (Some(k), Some(v)) => rest.push((k@, v@)),
            _ => rest,
        }
    }
}

/// The walk over the pairs: the groups closed so far and the open group.
/// A `_contract_address` pair closes the open group (empty or not) and
/// opens a new one that it heads.
pub open spec fn group_walk(s: Seq<PairModel>) -> (Seq<Seq<PairModel>>, Seq<PairModel>)
    decreases s.len(),
{
    if s.len() == 0 {
        (seq![], seq![])
    } else {
        let (closed, open) = group_walk(s.drop_last());
        let p = s.last();
        if p.0 == contract_address_key() {
            (closed.push(open), seq![p])
        } else {
            (closed, open.push(p))
        }
    }
}

/// The groups of one event's pairs: the closed groups, then the open group
/// where it is not empty.
pub open spec fn groups_of(s: Seq<PairModel>) -> Seq<Seq<PairModel>> {
    let (closed, open) = group_walk(s);
    if open.len() > 0 {
        closed.push(open)
    } else {
        closed
    }
}

/// The groups laid end to end.
pub open spec fn concat_groups(g: Seq<Seq<PairModel>>) -> Seq<PairModel>
    decreases g.len(),
{
    if g.len() == 0 {
        seq![]
    } else {
        concat_groups(g.drop_last()) + g.last()
    }
}

proof fn lemma_group_walk(s: Seq<PairModel>)
    ensures
        concat_groups(group_walk(s).0) + group_walk(s).1 == s,
        forall|k: int, j: int|
            0 <= k < group_walk(s).0.len() && 0 < j < group_walk(s).0[k].len()
                ==> (#[trigger] group_walk(s).0[k][j]).0 != contract_address_key(),
        forall|j: int|
            0 < j < group_walk(s).1.len() ==> (#[trigger] group_walk(s).1[j]).0
                != contract_address_key(),
    decreases s.len(),
{
    if s.len() > 0 {
        let t = s.drop_last();
        let p = s.last();
        lemma_group_walk(t);
        assert(s =~= t.push(p));
        let (closed, open) = group_walk(t);
        if p.0 == contract_address_key() {
            assert(closed.push(open).drop_last() =~= closed);
            assert(concat_groups(closed) + open + seq![p] =~= s);
            assert forall|k: int, j: int|
                0 <= k < closed.push(open).len() && 0 < j < closed.push(open)[k].len()
                implies (#[trigger] closed.push(open)[k][j]).0 != contract_address_key() by {
                if k < closed.len() {
                    assert(closed.push(open)[k] == closed[k]);
                } else {
                    assert(closed.push(open)[k] == open);
                }
            }
        } else {
            assert(concat_groups(closed) + open.push(p) =~= s);
            assert forall|j: int| 0 < j < open.push(p).len()
                implies (#[trigger] open.push(p)[j]).0 != contract_address_key() by {
                if j < open.len() {
                    assert(open.push(p)[j] == open[j]);
                }
            }
        }
    } else {
        assert(concat_groups(seq![]) + seq![] =~= s);
    }
}

/// The grouping law: the groups of an event, laid end to end, give back in
/// order the event's attributes with key and value present, and a
/// `_contract_address` attribute only ever stands first in its group.
pub proof fn lemma_grouping_law(attributes: Seq<Attribute>)
    ensures
        concat_groups(groups_of(present_pairs(attributes))) == present_pairs(attributes),
        forall|k: int, j: int|
            0 <= k < groups_of(present_pairs(attributes)).len() && 0 < j < groups_of(
                present_pairs(attributes),
            )[k].len() ==> (#[trigger] groups_of(present_pairs(attributes))[k][j]).0
                != contract_address_key(),
{
    let s = present_pairs(attributes);
    lemma_group_walk(s);
    let (closed, open) = group_walk(s);
    if open.len() > 0 {
        assert(closed.push(open).drop_last() =~= closed);
        assert forall|k: int, j: int|
            0 <= k < closed.push(open).len() && 0 < j < closed.push(open)[k].len()
            implies (#[trigger] closed.push(open)[k][j]).0 != contract_address_key() by {
            if k < closed.len() {
                assert(closed.push(open)[k] == closed[k]);
            } else {
                assert(closed.push(open)[k] == open);
            }
        }
    } else {
        assert(open =~= seq![]);
        assert(concat_groups(closed) + open =~= concat_groups(closed));
    }
}

/// Splits the attributes of one event into groups, one per contract
/// invocation, and lists every attribute with key and value present.
/// Returns `(groups, full)`.
pub fn group_attributes(attributes: &Vec<Attribute>) -> (r: (Vec<Vec<AttrPair>>, Vec<AttrPair>))
    ensures
        pairs_view(r.1@) == present_pairs(attributes@),
        groups_view(r.0@) == groups_of(present_pairs(attributes@)),
{
    let address = String::from_str("_contract_address");
    let mut full: Vec<AttrPair> = Vec::new();
    let mut grouped: Vec<Vec<AttrPair>> = Vec::new();
    let mut current: Vec<AttrPair> = Vec::new();
    let n = attributes.len();
    let mut i: usize = 0;
    while i < n
        invariant
            n == attributes@.len(),
            i <= n,
            address@ == contract_address_key(),
            pairs_view(full@) == present_pairs(attributes@.subrange(0, i as int)),
            (groups_view(grouped@), pairs_view(current@)) == group_walk(
                present_pairs(attributes@.subrange(0, i as int)),
            ),
        decreases n - i,
    {
        let ghost prefix = attributes@.subrange(0, i as int);
        let ghost next = attributes@.subrange(0, i + 1);
        assert(next.drop_last() =~= prefix);
        let attribute = &attributes[i];
        match (&attribute.key, &attribute.value) {
            (Some(key), Some(value)) => {
                let ghost s = present_pairs(prefix);
                let ghost p = (key@, value@);
                assert(present_pairs(next) == s.push(p));
                assert(s.push(p).drop_last() =~= s);
                if key.eq(&address) {
                    let ghost old_grouped = grouped@;
                    grouped.push(current);
                    current = Vec::new();
                    assert(groups_view(grouped@) =~= groups_view(old_grouped).push(
                        group_walk(s).1,
                    ));
                }
                let ghost old_current = current@;
                let ghost old_full = full@;
                current.push((key.clone(), value.clone()));
                full.push((key.clone(), value.clone()));
                assert(pairs_view(current@) =~= pairs_view(old_current).push(p));
                assert(pairs_view(full@) =~= pairs_view(old_full).push(p));
            },
            _ => {
                assert(present_pairs(next) == present_pairs(prefix));
            },
        }
        i += 1;
    }
    assert(attributes@.subrange(0, n as int) =~= attributes@);
    if current.len() > 0 {
        let ghost old_grouped = grouped@;
        grouped.push(current);
        assert(groups_view(grouped@) =~= groups_view(old_grouped).push(
            group_walk(present_pairs(attributes@)).1,
        ));
    }
    (grouped, full)
}

/// One attribute as it is stored with a match.
#[derive(Debug, Clone)]
pub struct EventLog {
    pub key: String,
    pub value: String,
}

/// A match of one attribute group against one catalogue entry, as it is
/// appended to the event store (which adds its own id and creation time).
#[derive(Debug, Clone)]
pub struct EventRecord {
    pub chain_id: String,
    pub block_height: u64,
    pub tx_hash: String,
    pub key: String,
    pub logs: Vec<EventLog>,
    pub full_logs: Vec<EventLog>,
}

/// The model of an [`EventRecord`].
pub struct EventRecordModel {
    pub chain_id: Seq<char>,
    pub block_height: u64,
    pub tx_hash: Seq<char>,
    pub key: Seq<char>,
    pub logs: Seq<PairModel>,
    pub full_logs: Seq<PairModel>,
}

pub open spec fn logs_view(v: Seq<EventLog>) -> Seq<PairModel> {
    v.map_values(|l: EventLog| (l.key@, l.value@))
}

impl View for EventRecord {
    type V = EventRecordModel;

    open spec fn view(&self) -> EventRecordModel {
        EventRecordModel {
            chain_id: self.chain_id@,
            block_height: self.block_height,
            tx_hash: self.tx_hash@,
            key: self.key@,
            logs: logs_view(self.logs@),
            full_logs: logs_view(self.full_logs@),
        }
    }
}

pub open spec fn records_view(v: Seq<EventRecord>) -> Seq<EventRecordModel> {
    v.map_values(|r: EventRecord| r@)
}

pub open spec fn pattern_view(p: Pattern) -> PairModel {
    (p.key@, p.value@)
}

/// The pair equals, in key and value, some pattern of the list.
pub open spec fn satisfies_some(pair: PairModel, patterns: Seq<Pattern>) -> bool {
    exists|j: int| 0 <= j < patterns.len() && pattern_view(#[trigger] patterns[j]) == pair
}

/// How many pairs of the group equal some pattern; a pair counts once however
/// many patterns it equals.
pub open spec fn count_satisfying(grouped: Seq<PairModel>, patterns: Seq<Pattern>) -> nat
    decreases grouped.len(),
{
    if grouped.len() == 0 {
        0
    } else {
        count_satisfying(grouped.drop_last(), patterns) + if satisfies_some(
            grouped.last(),
            patterns,
        ) {
            1nat
        } else {
            0nat
        }
    }
}

/// A group matches a catalogue entry when the number of its pairs that equal
/// some pattern is the number of patterns.
pub open spec fn group_matches(grouped: Seq<PairModel>, event: MatcherEvent) -> bool {
    count_satisfying(grouped, event.patterns@) == event.patterns@.len()
}

/// The records that one group yields: one per matching catalogue entry, in
/// catalogue order.
pub open spec fn group_records(
    events: Seq<MatcherEvent>,
    chain_id: Seq<char>,
    height: u64,
    hash: Seq<char>,
    grouped: Seq<PairModel>,
    full: Seq<PairModel>,
) -> Seq<EventRecordModel>
    decreases events.len(),
{
    if events.len() == 0 {
        seq![]
    } else {
        let rest = group_records(events.drop_last(), chain_id, height, hash, grouped, full);
        let e = events.last();
        if group_matches(grouped, e) {
            rest.push(
                EventRecordModel {
                    chain_id,
                    block_height: height,
                    tx_hash: hash,
                    key: e.key@,
                    logs: grouped,
                    full_logs: full,
                },
            )
        } else {
            rest
        }
    }
}

/// The models of the patterns, in order.
pub open spec fn pattern_models(patterns: Seq<Pattern>) -> Seq<PairModel> {
    patterns.map_values(|p: Pattern| pattern_view(p))
}

/// The distinct pairs of the group that equal some pattern.
pub open spec fn satisfying_set(grouped: Seq<PairModel>, patterns: Seq<Pattern>) -> Set<PairModel> {
    grouped.to_set().filter(|x: PairModel| satisfies_some(x, patterns))
}

proof fn lemma_count_is_set_len(grouped: Seq<PairModel>, patterns: Seq<Pattern>)
    requires
        grouped.no_duplicates(),
    ensures
        satisfying_set(grouped, patterns).finite(),
        count_satisfying(grouped, patterns) == satisfying_set(grouped, patterns).len(),
    decreases grouped.len(),
{
    broadcast use vstd::seq_lib::seq_to_set_is_finite;
    broadcast use vstd::seq_lib::group_seq_properties;

    if grouped.len() == 0 {
        assert(satisfying_set(grouped, patterns) =~= Set::empty());
    } else {
        let t = grouped.drop_last();
        let x = grouped.last();
        assert(grouped =~= t.push(x));
        assert(t.no_duplicates());
        assert(!t.contains(x)) by {
            if t.contains(x) {
                let k = choose|k: int| 0 <= k < t.len() && t[k] == x;
                assert(grouped[k] == grouped[grouped.len() - 1]);
            }
        }
        lemma_count_is_set_len(t, patterns);
        assert(grouped.to_set() =~= t.to_set().insert(x));
        if satisfies_some(x, patterns) {
            assert(satisfying_set(grouped, patterns) =~= satisfying_set(t, patterns).insert(x));
            assert(!satisfying_set(t, patterns).contains(x));
        } else {
            assert(satisfying_set(grouped, patterns) =~= satisfying_set(t, patterns));
        }
    }
}

/// The matcher law, on groups and catalogue entries that repeat no pair: a
/// group matches an entry exactly when every pattern of the entry equals some
/// pair of the group. (Where pairs repeat, only the counting rule of
/// [`group_matches`] holds.)
pub proof fn lemma_matcher_law(grouped: Seq<PairModel>, event: MatcherEvent)
    requires
        grouped.no_duplicates(),
        pattern_models(event.patterns@).no_duplicates(),
    ensures
        group_matches(grouped, event) <==> forall|i: int|
            0 <= i < event.patterns@.len() ==> exists|j: int|
                0 <= j < grouped.len() && grouped[j] == pattern_view(
                    #[trigger] event.patterns@[i],
                ),
{
    broadcast use vstd::seq_lib::seq_to_set_is_finite;

    let patterns = event.patterns@;
    let models = pattern_models(patterns);
    let all = models.to_set();
    let sat = satisfying_set(grouped, patterns);
    lemma_count_is_set_len(grouped, patterns);
    models.unique_seq_to_set();
    assert(sat.subset_of(all)) by {
        assert forall|x: PairModel| sat.contains(x) implies all.contains(x) by {
            let j = choose|j: int| 0 <= j < patterns.len() && pattern_view(patterns[j]) == x;
            assert(models[j] == x);
        }
    }
    if group_matches(grouped, event) {
        vstd::set_lib::lemma_subset_equality(sat, all);
        assert forall|i: int| 0 <= i < patterns.len() implies exists|j: int|
            0 <= j < grouped.len() && grouped[j] == pattern_view(#[trigger] patterns[i]) by {
            assert(models[i] == pattern_view(patterns[i]));
            assert(all.contains(models[i]));
            assert(grouped.to_set().contains(models[i]));
        }
    }
    if forall|i: int|
        0 <= i < patterns.len() ==> exists|j: int|
            0 <= j < grouped.len() && grouped[j] == pattern_view(#[trigger] patterns[i]) {
        assert forall|x: PairModel| all.contains(x) implies sat.contains(x) by {
            let i = choose|i: int| 0 <= i < models.len() && models[i] == x;
            assert(models[i] == pattern_view(patterns[i]));
            let j = choose|j: int| 0 <= j < grouped.len() && grouped[j] == pattern_view(patterns[i]);
            assert(grouped.contains(x));
            assert(satisfies_some(x, patterns));
        }
        assert(sat =~= all);
    }
}

/// Whether the pair equals some pattern of the list.
fn pair_satisfies_some(pair: &AttrPair, patterns: &Vec<Pattern>) -> (r: bool)
    ensures
        r == satisfies_some(pair_view(*pair), patterns@),
{
    let n = patterns.len();
    let mut j: usize = 0;
    while j < n
        invariant
            n == patterns@.len(),
            j <= n,
            forall|k: int| 0 <= k < j ==> pattern_view(#[trigger] patterns@[k]) != pair_view(*pair),
        decreases n - j,
    {
        let pattern = &patterns[j];
        if pattern.key.eq(&pair.0) && pattern.value.eq(&pair.1) {
            assert(pattern_view(patterns@[j as int]) == pair_view(*pair));
            return true;
        }
        j += 1;
    }
    false
}

/// Counts the pairs of the group that equal some pattern.
pub fn count_matching_pairs(grouped: &Vec<AttrPair>, patterns: &Vec<Pattern>) -> (r: usize)
    ensures
        r == count_satisfying(pairs_view(grouped@), patterns@),
{
    let n = grouped.len();
    let mut i: usize = 0;
    let mut count: usize = 0;
    while i < n
        invariant
            n == grouped@.len(),
            i <= n,
            count <= i,
            count == count_satisfying(pairs_view(grouped@.subrange(0, i as int)), patterns@),
        decreases n - i,
    {
        let ghost before = pairs_view(grouped@.subrange(0, i as int));
        let ghost after = pairs_view(grouped@.subrange(0, i + 1));
        assert(after.drop_last() =~= before);
        assert(after.last() == pair_view(grouped@[i as int]));
        if pair_satisfies_some(&grouped[i], patterns) {
            count += 1;
        }
        i += 1;
    }
    assert(grouped@.subrange(0, n as int) =~= grouped@);
    count
}

/// Whether the group matches the catalogue entry.
pub fn event_matches(event: &MatcherEvent, grouped: &Vec<AttrPair>) -> (r: bool)
    ensures
        r == group_matches(pairs_view(grouped@), *event),
{
    count_matching_pairs(grouped, &event.patterns) == event.patterns.len()
}

/// Copies attribute pairs into stored logs.
fn to_event_logs(pairs: &Vec<AttrPair>) -> (r: Vec<EventLog>)
    ensures
        logs_view(r@) == pairs_view(pairs@),
{
    let mut logs: Vec<EventLog> = Vec::new();
    let n = pairs.len();
    let mut i: usize = 0;
    while i < n
        invariant
            n == pairs@.len(),
            i <= n,
            logs_view(logs@) =~= pairs_view(pairs@.subrange(0, i as int)),
        decreases n - i,
    {
        let p = &pairs[i];
        let ghost old_logs = logs@;
        let log = EventLog { key: p.0.clone(), value: p.1.clone() };
        logs.push(log);
        assert(logs_view(logs@) =~= logs_view(old_logs).push(pair_view(pairs@[i as int])));
        assert(pairs@.subrange(0, i + 1) =~= pairs@.subrange(0, i as int).push(pairs@[i as int]));
        i += 1;
    }
    assert(pairs@.subrange(0, n as int) =~= pairs@);
    logs
}

/// Holds one attribute group against every catalogue entry and builds a
/// record for each entry that it matches, in catalogue order.
pub fn process_event_matcher(
    matcher: &MatcherConfig,
    chain_id: &String,
    tx_height: u64,
    tx_hash: &String,
    grouped: &Vec<AttrPair>,
    full: &Vec<AttrPair>,
) -> (r: Vec<EventRecord>)
    ensures
        records_view(r@) == group_records(
            matcher.events@,
            chain_id@,
            tx_height,
            tx_hash@,
            pairs_view(grouped@),
            pairs_view(full@),
        ),
{
    let mut records: Vec<EventRecord> = Vec::new();
    let n = matcher.events.len();
    let mut i: usize = 0;
    while i < n
        invariant
            n == matcher.events@.len(),
            i <= n,
            records_view(records@) == group_records(
                matcher.events@.subrange(0, i as int),
                chain_id@,
                tx_height,
                tx_hash@,
                pairs_view(grouped@),
                pairs_view(full@),
            ),
        decreases n - i,
    {
        let event = &matcher.events[i];
        assert(matcher.events@.subrange(0, i + 1).drop_last() =~= matcher.events@.subrange(
            0,
            i as int,
        ));
        if event_matches(event, grouped) {
            let ghost old_records = records@;
            let record = EventRecord {
                chain_id: chain_id.clone(),
                block_height: tx_height,
                tx_hash: tx_hash.clone(),
                key: event.key.clone(),
                logs: to_event_logs(grouped),
                full_logs: to_event_logs(full),
            };
            records.push(record);
            assert(records_view(records@) =~= records_view(old_records).push(record@));
        }
        i += 1;
    }
    assert(matcher.events@.subrange(0, n as int) =~= matcher.events@);
    records
}

/// The records of every group of one event, group by group.
pub open spec fn records_over_groups(
    events: Seq<MatcherEvent>,
    chain_id: Seq<char>,
    height: u64,
    hash: Seq<char>,
    groups: Seq<Seq<PairModel>>,
    full: Seq<PairModel>,
) -> Seq<EventRecordModel>
    decreases groups.len(),
{
    if groups.len() == 0 {
        seq![]
    } else {
        records_over_groups(events, chain_id, height, hash, groups.drop_last(), full)
            + group_records(events, chain_id, height, hash, groups.last(), full)
    }
}

/// The event is of type `wasm`.
pub open spec fn is_wasm(type_str: Option<String>) -> bool {
    match type_str {
        Some(t) => t@ == "wasm"@,
        None => false,
    }
}

/// The records of one event: none unless it is a wasm event with attributes.
pub open spec fn event_match_records(
    events: Seq<MatcherEvent>,
    chain_id: Seq<char>,
    height: u64,
    hash: Seq<char>,
    event: Event,
) -> Seq<EventRecordModel> {
    match event.attributes {
        Some(a) => if is_wasm(event.type_str) {
            let full = present_pairs(a@);
            records_over_groups(events, chain_id, height, hash, groups_of(full), full)
        } else {
            seq![]
        },
        None => seq![],
    }
}

/// The records of a transaction's events, event by event.
pub open spec fn records_over_events(
    events: Seq<MatcherEvent>,
    chain_id: Seq<char>,
    height: u64,
    hash: Seq<char>,
    tx_events: Seq<Event>,
) -> Seq<EventRecordModel>
    decreases tx_events.len(),
{
    if tx_events.len() == 0 {
        seq![]
    } else {
        records_over_events(events, chain_id, height, hash, tx_events.drop_last())
            + event_match_records(events, chain_id, height, hash, tx_events.last())
    }
}

/// The records of one transaction: none for a failed one.
pub open spec fn tx_records(events: Seq<MatcherEvent>, chain_id: Seq<char>, tx: Tx) -> Seq<
    EventRecordModel,
> {
    if tx.tx_result.code != 0 {
        seq![]
    } else {
        match tx.tx_result.events {
            Some(evs) => records_over_events(events, chain_id, tx.height, tx.hash@, evs@),
            None => seq![],
        }
    }
}

/// The records of a list of transactions, transaction by transaction.
pub open spec fn range_records(events: Seq<MatcherEvent>, chain_id: Seq<char>, txs: Seq<Tx>) -> Seq<
    EventRecordModel,
>
    decreases txs.len(),
{
    if txs.len() == 0 {
        seq![]
    } else {
        range_records(events, chain_id, txs.drop_last()) + tx_records(
            events,
            chain_id,
            txs.last(),
        )
    }
}

/// Every record has a block height within `from..=to`.
pub open spec fn heights_within(records: Seq<EventRecordModel>, from: u64, to: u64) -> bool {
    forall|k: int| 0 <= k < records.len() ==> from <= (#[trigger] records[k]).block_height <= to
}

/// Every transaction has a height within `from..=to`.
pub open spec fn txs_within(txs: Seq<Tx>, from: u64, to: u64) -> bool {
    forall|k: int| 0 <= k < txs.len() ==> from <= (#[trigger] txs[k]).height <= to
}

proof fn lemma_group_records_height(
    events: Seq<MatcherEvent>,
    chain_id: Seq<char>,
    height: u64,
    hash: Seq<char>,
    grouped: Seq<PairModel>,
    full: Seq<PairModel>,
)
    ensures
        heights_within(group_records(events, chain_id, height, hash, grouped, full), height, height),
    decreases events.len(),
{
    if events.len() > 0 {
        lemma_group_records_height(events.drop_last(), chain_id, height, hash, grouped, full);
    }
}

proof fn lemma_records_over_groups_height(
    events: Seq<MatcherEvent>,
    chain_id: Seq<char>,
    height: u64,
    hash: Seq<char>,
    groups: Seq<Seq<PairModel>>,
    full: Seq<PairModel>,
)
    ensures
        heights_within(
            records_over_groups(events, chain_id, height, hash, groups, full),
            height,
            height,
        ),
    decreases groups.len(),
{
    if groups.len() > 0 {
        lemma_records_over_groups_height(events, chain_id, height, hash, groups.drop_last(), full);
        lemma_group_records_height(events, chain_id, height, hash, groups.last(), full);
        let a = records_over_groups(events, chain_id, height, hash, groups.drop_last(), full);
        let b = group_records(events, chain_id, height, hash, groups.last(), full);
        assert forall|k: int| 0 <= k < (a + b).len() implies height <= (#[trigger] (a
            + b)[k]).block_height <= height by {
            if k >= a.len() {
                assert((a + b)[k] == b[k - a.len()]);
            }
        }
    }
}

proof fn lemma_records_over_events_height(
    events: Seq<MatcherEvent>,
    chain_id: Seq<char>,
    height: u64,
    hash: Seq<char>,
    tx_events: Seq<Event>,
)
    ensures
        heights_within(
            records_over_events(events, chain_id, height, hash, tx_events),
            height,
            height,
        ),
    decreases tx_events.len(),
{
    if tx_events.len() > 0 {
        lemma_records_over_events_height(events, chain_id, height, hash, tx_events.drop_last());
        let e = tx_events.last();
        if let Some(attrs) = e.attributes {
            let full = present_pairs(attrs@);
            lemma_records_over_groups_height(events, chain_id, height, hash, groups_of(full), full);
        }
        let a = records_over_events(events, chain_id, height, hash, tx_events.drop_last());
        let b = event_match_records(events, chain_id, height, hash, e);
        assert forall|k: int| 0 <= k < (a + b).len() implies height <= (#[trigger] (a
            + b)[k]).block_height <= height by {
            if k >= a.len() {
                assert((a + b)[k] == b[k - a.len()]);
            }
        }
    }
}

/// The records built from transactions of heights `from..=to` all have a
/// height within `from..=to`.
pub proof fn lemma_range_records_within(
    events: Seq<MatcherEvent>,
    chain_id: Seq<char>,
    txs: Seq<Tx>,
    from: u64,
    to: u64,
)
    requires
        txs_within(txs, from, to),
    ensures
        heights_within(range_records(events, chain_id, txs), from, to),
    decreases txs.len(),
{
    if txs.len() > 0 {
        let t = txs.drop_last();
        let x = txs.last();
        assert(txs_within(t, from, to)) by {
            assert forall|k: int| 0 <= k < t.len() implies from <= (#[trigger] t[k]).height <= to by {
                assert(t[k] == txs[k]);
            }
        }
        lemma_range_records_within(events, chain_id, t, from, to);
        if x.tx_result.code == 0 {
            if let Some(evs) = x.tx_result.events {
                lemma_records_over_events_height(events, chain_id, x.height, x.hash@, evs@);
            }
        }
        let a = range_records(events, chain_id, t);
        let b = tx_records(events, chain_id, x);
        assert forall|k: int| 0 <= k < (a + b).len() implies from <= (#[trigger] (a
            + b)[k]).block_height <= to by {
            if k >= a.len() {
                assert((a + b)[k] == b[k - a.len()]);
            }
        }
    }
}

proof fn lemma_records_view_append(a: Seq<EventRecord>, b: Seq<EventRecord>)
    ensures
        records_view(a + b) == records_view(a) + records_view(b),
{
    assert(records_view(a + b) =~= records_view(a) + records_view(b));
}

/// Groups one event's attributes and matches each group.
pub fn process_event(
    matcher: &MatcherConfig,
    chain_id: &String,
    tx_height: u64,
    tx_hash: &String,
    event: &Event,
) -> (r: Vec<EventRecord>)
    ensures
        records_view(r@) == event_match_records(
            matcher.events@,
            chain_id@,
            tx_height,
            tx_hash@,
            *event,
        ),
{
    let wasm = String::from_str("wasm");
    let mut records: Vec<EventRecord> = Vec::new();
    match (&event.type_str, &event.attributes) {
        (Some(type_str), Some(attributes)) => {
            if !type_str.eq(&wasm) {
                return records;
            }
            let (groups, full) = group_attributes(attributes);
            let ghost full_model = present_pairs(attributes@);
            let ghost groups_model = groups_of(full_model);
            let n = groups.len();
            let mut i: usize = 0;
            while i < n
                invariant
                    n == groups@.len(),
                    i <= n,
                    pairs_view(full@) == full_model,
                    groups_view(groups@) == groups_model,
                    records_view(records@) == records_over_groups(
                        matcher.events@,
                        chain_id@,
                        tx_height,
                        tx_hash@,
                        groups_model.subrange(0, i as int),
                        full_model,
                    ),
                decreases n - i,
            {
                assert(groups_model.subrange(0, i + 1).drop_last() =~= groups_model.subrange(
                    0,
                    i as int,
                ));
                assert(groups_model[i as int] == pairs_view(groups@[i as int]@));
                let mut more = process_event_matcher(
                    matcher,
                    chain_id,
                    tx_height,
                    tx_hash,
                    &groups[i],
                    &full,
                );
                let ghost old_records = records@;
                let ghost added = more@;
                records.append(&mut more);
                proof {
                    lemma_records_view_append(old_records, added);
                }
                i += 1;
            }
            assert(groups_model.subrange(0, n as int) =~= groups_model);
            records
        },
        _ => records,
    }
}

/// Builds the records of one transaction: a failed transaction yields none;
/// otherwise each of its wasm events is grouped and matched, in order.
pub fn process_tx(matcher: &MatcherConfig, chain_id: &String, tx: &Tx) -> (r: Vec<EventRecord>)
    ensures
        records_view(r@) == tx_records(matcher.events@, chain_id@, *tx),
{
    let mut records: Vec<EventRecord> = Vec::new();
    if tx.tx_result.code != 0 {
        return records;
    }
    match &tx.tx_result.events {
        Some(events) => {
            let n = events.len();
            let mut i: usize = 0;
            while i < n
                invariant
                    n == events@.len(),
                    i <= n,
                    records_view(records@) == records_over_events(
                        matcher.events@,
                        chain_id@,
                        tx.height,
                        tx.hash@,
                        events@.subrange(0, i as int),
                    ),
                decreases n - i,
            {
                assert(events@.subrange(0, i + 1).drop_last() =~= events@.subrange(0, i as int));
                let mut more = process_event(matcher, chain_id, tx.height, &tx.hash, &events[i]);
                let ghost old_records = records@;
                let ghost added = more@;
                records.append(&mut more);
                proof {
                    lemma_records_view_append(old_records, added);
                }
                i += 1;
            }
            assert(events@.subrange(0, n as int) =~= events@);
            records
        },
        None => records,
    }
}

/// Builds the records of every transaction of a range, transaction by
/// transaction.
pub fn process_txs(matcher: &MatcherConfig, chain_id: &String, txs: &Vec<Tx>) -> (r: Vec<
    EventRecord,
>)
    ensures
        records_view(r@) == range_records(matcher.events@, chain_id@, txs@),
{
    let mut records: Vec<EventRecord> = Vec::new();
    let n = txs.len();
    let mut i: usize = 0;
    while i < n
        invariant
            n == txs@.len(),
            i <= n,
            records_view(records@) == range_records(
                matcher.events@,
                chain_id@,
                txs@.subrange(0, i as int),
            ),
        decreases n - i,
    {
        assert(txs@.subrange(0, i + 1).drop_last() =~= txs@.subrange(0, i as int));
        let mut more = process_tx(matcher, chain_id, &txs[i]);
        let ghost old_records = records@;
        let ghost added = more@;
        records.append(&mut more);
        proof {
            lemma_records_view_append(old_records, added);
        }
        i += 1;
    }
    assert(txs@.subrange(0, n as int) =~= txs@);
    records
}

} // verus!
