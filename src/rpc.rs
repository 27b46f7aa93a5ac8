//! What the chain's RPC returns, and the decisions around its calls: the
//! query for a height range, paging, and the order in which the
//! transactions are handed on.

use crate::helpers::{decimal_digits, u64_to_decimal};
use vstd::prelude::*;

verus! {

/// One attribute of an event, decoded from base64; absent where the text was
/// not base64 of UTF-8.
#[derive(Debug, Clone)]
pub struct Attribute {
    pub key: Option<String>,
    pub value: Option<String>,
}

/// One event of a transaction's result.
#[derive(Debug, Clone)]
pub struct Event {
    pub type_str: Option<String>,
    pub attributes: Option<Vec<Attribute>>,
}

/// Outcome of a transaction: `code` is 0 on success.
#[derive(Debug, Clone)]
pub struct TxResult {
    pub code: i64,
    pub events: Option<Vec<Event>>,
}

/// One transaction as `tx_search` lists it.
#[derive(Debug, Clone)]
pub struct Tx {
    pub hash: String,
    pub height: u64,
    pub index: u64,
    pub tx_result: TxResult,
}

/// One page of `tx_search`: the page's transactions and the number that the
/// whole search matches.
#[derive(Debug, Clone)]
pub struct TxSearchResult {
    pub txs: Vec<Tx>,
    pub total_count: u64,
}

#[derive(Debug, Clone)]
pub struct TxSearchResponse {
    pub result: TxSearchResult,
}

/// The tip report of the `blockchain` endpoint.
#[derive(Debug, Clone)]
pub struct BlockchainResult {
    pub last_height: u64,
}

#[derive(Debug, Clone)]
pub struct BlockchainResponse {
    pub result: BlockchainResult,
}

/// Transactions listed per page of `tx_search`.
pub const PER_PAGE: u64 = 100;

/// The `tx_search` query for the heights `from..=to`, quoted as the RPC
/// expects it.
pub open spec fn spec_tx_search_query(from: u64, to: u64) -> Seq<char> {
    if from == to {
        "\"tx.height = "@ + decimal_digits(from as nat) + "\""@
    } else {
        "\"tx.height >= "@ + decimal_digits(from as nat) + " AND tx.height <= "@ + decimal_digits(
            to as nat,
        ) + "\""@
    }
}

/// Builds the `tx_search` query for the heights `from..=to`.
pub fn tx_search_query(from: u64, to: u64) -> (r: String)
    ensures
        r@ == spec_tx_search_query(from, to),
{
    if from == to {
        let mut q = String::from_str("\"tx.height = ");
        let h = u64_to_decimal(from);
        q.append(h.as_str());
        q.append("\"");
        q
    } else {
        let mut q = String::from_str("\"tx.height >= ");
        let f = u64_to_decimal(from);
        let t = u64_to_decimal(to);
        q.append(f.as_str());
        q.append(" AND tx.height <= ");
        q.append(t.as_str());
        q.append("\"");
        q
    }
}

/// Collects the pages of one `tx_search`. Page 0 means that nothing has been
/// fetched yet; the total is the one that the first page reports.
pub struct TxPager {
    pub txs: Vec<Tx>,
    pub total_count: u64,
    pub page: u64,
}

impl TxPager {
    pub fn new() -> (r: TxPager)
        ensures
            r.txs@ == Seq::<Tx>::empty(),
            r.total_count == 0,
            r.page == 0,
    {
        TxPager { txs: Vec::new(), total_count: 0, page: 0 }
    }

    /// The page to fetch next: the first one, then the following ones while
    /// fewer transactions have come than the total; `None` once they are all
    /// in (or the page number would pass `u64::MAX`).
    pub fn next_page(&self) -> (r: Option<u64>)
        ensures
            self.page == 0 ==> r == Some(1u64),
            self.page > 0 ==> (r is Some <==> (self.txs@.len() < self.total_count
                && self.page < u64::MAX)),
            self.page > 0 && r is Some ==> r == Some((self.page + 1) as u64),
    {
        if self.page == 0 {
            Some(1)
        } else if (self.txs.len() as u64) < self.total_count && self.page < u64::MAX {
            Some(self.page + 1)
        } else {
            None
        }
    }

    /// Takes in the page that `next_page` asked for: its transactions are
    /// appended, and the first page sets the total.
    pub fn absorb(&mut self, response: TxSearchResponse)
        requires
            old(self).page < u64::MAX,
        ensures
            final(self).page == old(self).page + 1,
            final(self).txs@ == old(self).txs@ + response.result.txs@,
            final(self).total_count == if old(self).page == 0 {
                response.result.total_count
            } else {
                old(self).total_count
            },
    {
        if self.page == 0 {
            self.total_count = response.result.total_count;
        }
        let mut txs = response.result.txs;
        self.txs.append(&mut txs);
        self.page = self.page + 1;
    }

    /// The collected transactions, in the order `order_txs` gives them.
    pub fn finish(self) -> (r: Vec<Tx>)
        ensures
            sorted_by_height_index(r@),
            forall|h: u64, i: u64|
                #[trigger] r@.filter(key_is(h, i)) == self.txs@.filter(succeeded_with_key(h, i)),
    {
        order_txs(self.txs)
    }
}

/// `a` comes strictly before `b` by height, then by index.
pub open spec fn tx_key_lt(a: Tx, b: Tx) -> bool {
    a.height < b.height || (a.height == b.height && a.index < b.index)
}

pub open spec fn sorted_by_height_index(s: Seq<Tx>) -> bool {
    forall|i: int, j: int| 0 <= i < j < s.len() ==> !tx_key_lt(#[trigger] s[j], #[trigger] s[i])
}

/// The transaction has height `h` and index `i`.
pub open spec fn key_is(h: u64, i: u64) -> spec_fn(Tx) -> bool {
    |t: Tx| t.height == h && t.index == i
}

/// The transaction has height `h` and index `i`, and succeeded.
pub open spec fn succeeded_with_key(h: u64, i: u64) -> spec_fn(Tx) -> bool {
    |t: Tx| t.height == h && t.index == i && t.tx_result.code == 0
}

/// Puts the transactions in order of height, then index, keeping the order
/// of those equal in both, and drops those that failed. Every successful
/// transaction with a given height and index thus stays, in its order.
pub fn order_txs(txs: Vec<Tx>) -> (r: Vec<Tx>)
    ensures
        sorted_by_height_index(r@),
        forall|h: u64, i: u64|
            #[trigger] r@.filter(key_is(h, i)) == txs@.filter(succeeded_with_key(h, i)),
{
    let ghost input = txs@;
    let mut rest = txs;
    let mut out: Vec<Tx> = Vec::new();
    while rest.len() > 0
        invariant
            rest@.len() <= input.len(),
            rest@ == input.subrange(0, rest@.len() as int),
            sorted_by_height_index(out@),
            forall|h: u64, i: u64|
                #[trigger] out@.filter(key_is(h, i)) == input.subrange(
                    rest@.len() as int,
                    input.len() as int,
                ).filter(succeeded_with_key(h, i)),
        decreases rest@.len(),
    {
        let ghost done = input.subrange(rest@.len() as int, input.len() as int);
        let ghost old_rest = rest@;
        let x = rest.pop().unwrap();
        assert(old_rest =~= rest@.push(x));
        assert(x == input[rest@.len() as int]);
        assert(rest@ =~= input.subrange(0, rest@.len() as int));
        let ghost now = input.subrange(rest@.len() as int, input.len() as int);
        assert(now =~= seq![x] + done);
        if x.tx_result.code != 0 {
            assert forall|h: u64, i: u64| #[trigger]
                out@.filter(key_is(h, i)) == now.filter(succeeded_with_key(h, i)) by {
                done.lemma_filter_prepend(x, succeeded_with_key(h, i));
            }
        } else {
            let mut p: usize = 0;
            while p < out.len() && tx_key_lt_exec(&out[p], &x)
                invariant
                    p <= out@.len(),
                    forall|k: int| 0 <= k < p ==> tx_key_lt(#[trigger] out@[k], x),
                decreases out@.len() - p,
            {
                p += 1;
            }
            let ghost before = out@;
            out.insert(p, x);
            proof {
                before.insert_ensures(p as int, x);
                let lo = before.subrange(0, p as int);
                let hi = before.subrange(p as int, before.len() as int);
                assert(before =~= lo + hi);
                assert(out@ =~= lo + (seq![x] + hi));
                assert forall|h: u64, i: u64| #[trigger]
                    out@.filter(key_is(h, i)) == now.filter(succeeded_with_key(h, i)) by {
                    let f = key_is(h, i);
                    Seq::filter_distributes_over_add(lo, hi, f);
                    Seq::filter_distributes_over_add(lo, seq![x] + hi, f);
                    hi.lemma_filter_prepend(x, f);
                    done.lemma_filter_prepend(x, succeeded_with_key(h, i));
                    if f(x) {
                        assert(lo.all(|t: Tx| !f(t))) by {
                            assert forall|k: int| 0 <= k < lo.len() implies !f(#[trigger] lo[k]) by {
                                assert(tx_key_lt(before[k], x));
                            }
                        }
                        lo.lemma_all_neg_filter_empty(f);
                        assert(lo.filter(f) =~= Seq::<Tx>::empty());
                        assert(out@.filter(f) =~= seq![x] + before.filter(f));
                    } else {
                        assert(out@.filter(f) =~= before.filter(f));
                    }
                }
                assert forall|a: int, b: int| 0 <= a < b < out@.len() implies !tx_key_lt(
                    #[trigger] out@[b],
                    #[trigger] out@[a],
                ) by {
                    if b < p {
                    } else if b == p {
                        assert(tx_key_lt(before[a], x));
                    } else if a < p {
                        assert(out@[b] == before[b - 1]);
                        assert(!tx_key_lt(before[b - 1], x) || b - 1 < p);
                    } else if a == p {
                        assert(out@[b] == before[b - 1]);
                        if p < before.len() {
                            assert(!tx_key_lt(before[p as int], x));
                        }
                    } else {
                        assert(out@[b] == before[b - 1]);
                        assert(out@[a] == before[a - 1]);
                    }
                }
            }
        }
    }
    assert(input.subrange(0, input.len() as int) =~= input);
    out
}

/// Whether `a` comes strictly before `b` by height, then by index.
fn tx_key_lt_exec(a: &Tx, b: &Tx) -> (r: bool)
    ensures
        r == tx_key_lt(*a, *b),
{
    a.height < b.height || (a.height == b.height && a.index < b.index)
}

} // verus!
