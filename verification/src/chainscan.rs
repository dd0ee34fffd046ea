//! Facts that readers derive from the chain: who blocked whom, who was
//! reported how often, which grants were revoked, and who matched.

use crate::block::{BlockView, GlobalBlock};
use crate::codec::same_text;
use crate::transaction::{Payload, PayloadView, Transaction, TransactionView};
use vstd::prelude::*;

verus! {

/// A question that is put to each transaction of the chain.
#[derive(Clone, Copy, Debug)]
pub enum Probe<'a> {
    /// Did one of `a` and `b` block the other?
    BlockBetween { a: &'a str, b: &'a str },
    /// Was `user` reported?
    ReportOf { user: &'a str },
    /// Did `revoker` withdraw `target`'s access?
    RevocationOf { revoker: &'a str, target: &'a str },
    /// Did `a` and `b` match?
    MatchBetween { a: &'a str, b: &'a str },
}

/// The mathematical value of a `Probe`.
pub enum ProbeView {
    BlockBetween { a: Seq<char>, b: Seq<char> },
    ReportOf { user: Seq<char> },
    RevocationOf { revoker: Seq<char>, target: Seq<char> },
    MatchBetween { a: Seq<char>, b: Seq<char> },
}

impl<'a> View for Probe<'a> {
    type V = ProbeView;

    open spec fn view(&self) -> ProbeView {
        match *self {
            Probe::BlockBetween { a, b } => ProbeView::BlockBetween { a: a@, b: b@ },
            Probe::ReportOf { user } => ProbeView::ReportOf { user: user@ },
            Probe::RevocationOf { revoker, target } => ProbeView::RevocationOf {
                revoker: revoker@,
                target: target@,
            },
            Probe::MatchBetween { a, b } => ProbeView::MatchBetween { a: a@, b: b@ },
        }
    }
}

/// Whether `tx` answers `probe` with yes.
///
/// A block counts in either direction, by sender and receiver. A report
/// counts against its receiver. A revocation counts for exactly the pair it
/// names. A match counts for the pair it names, in either order.
pub open spec fn probe_hits(probe: ProbeView, tx: TransactionView) -> bool {
    match probe {
        ProbeView::BlockBetween { a, b } => tx.payload is BlockUser && ((tx.sender_id == a
            && tx.receiver_id == b) || (tx.sender_id == b && tx.receiver_id == a)),
        ProbeView::ReportOf { user } => tx.payload is ReportUser && tx.receiver_id == user,
        ProbeView::RevocationOf { revoker, target } => tx.payload == (PayloadView::KeyRevocation {
            revoker,
            target,
        }),
        ProbeView::MatchBetween { a, b } => match tx.payload {
            PayloadView::Match { first, second } => (first == a && second == b) || (second == a
                && first == b),
            _ => false,
        },
    }
}

/// How many transactions of `txs` answer `probe` with yes.
pub open spec fn hits_in(txs: Seq<TransactionView>, probe: ProbeView) -> nat
    decreases txs.len(),
{
    if txs.len() == 0 {
        0
    } else {
        hits_in(txs.drop_last(), probe) + if probe_hits(probe, txs.last()) {
            1nat
        } else {
            0nat
        }
    }
}

/// How many transactions of the chain answer `probe` with yes.
pub open spec fn hits_in_chain(chain: Seq<BlockView>, probe: ProbeView) -> nat
    decreases chain.len(),
{
    if chain.len() == 0 {
        0
    } else {
        hits_in_chain(chain.drop_last(), probe) + hits_in(chain.last().transactions, probe)
    }
}

/// A transaction that answers yes is counted.
pub proof fn lemma_hit_is_counted(txs: Seq<TransactionView>, probe: ProbeView, j: int)
    requires
        0 <= j < txs.len(),
        probe_hits(probe, txs[j]),
    ensures
        hits_in(txs, probe) >= 1,
    decreases txs.len(),
{
    if j < txs.len() - 1 {
        lemma_hit_is_counted(txs.drop_last(), probe, j);
    }
}

/// A transaction of the chain that answers yes is counted.
pub proof fn lemma_chain_hit_is_counted(chain: Seq<BlockView>, probe: ProbeView, i: int, j: int)
    requires
        0 <= i < chain.len(),
        0 <= j < chain[i].transactions.len(),
        probe_hits(probe, chain[i].transactions[j]),
    ensures
        hits_in_chain(chain, probe) >= 1,
    decreases chain.len(),
{
    if i < chain.len() - 1 {
        lemma_chain_hit_is_counted(chain.drop_last(), probe, i, j);
    } else {
        lemma_hit_is_counted(chain.last().transactions, probe, j);
    }
}

/// Where the count is not zero, some transaction answers yes.
pub proof fn lemma_counted_hit_exists(txs: Seq<TransactionView>, probe: ProbeView) -> (j: int)
    requires
        hits_in(txs, probe) >= 1,
    ensures
        0 <= j < txs.len(),
        probe_hits(probe, txs[j]),
    decreases txs.len(),
{
    if probe_hits(probe, txs.last()) {
        txs.len() - 1
    } else {
        lemma_counted_hit_exists(txs.drop_last(), probe)
    }
}

/// Where the chain's count is not zero, some transaction of the chain
/// answers yes.
pub proof fn lemma_counted_chain_hit_exists(chain: Seq<BlockView>, probe: ProbeView) -> (at: (
    int,
    int,
))
    requires
        hits_in_chain(chain, probe) >= 1,
    ensures
        0 <= at.0 < chain.len(),
        0 <= at.1 < chain[at.0].transactions.len(),
        probe_hits(probe, chain[at.0].transactions[at.1]),
    decreases chain.len(),
{
    if hits_in(chain.last().transactions, probe) >= 1 {
        let j = lemma_counted_hit_exists(chain.last().transactions, probe);
        (chain.len() - 1, j)
    } else {
        lemma_counted_chain_hit_exists(chain.drop_last(), probe)
    }
}

/// A longer list counts no fewer hits.
proof fn lemma_hits_grow(txs: Seq<TransactionView>, probe: ProbeView, j: int)
    requires
        0 <= j <= txs.len(),
    ensures
        hits_in(txs.take(j), probe) <= hits_in(txs, probe),
    decreases txs.len() - j,
{
    if j < txs.len() {
        lemma_hits_grow(txs, probe, j + 1);
        assert(txs.take(j + 1).drop_last() =~= txs.take(j));
    } else {
        assert(txs.take(j) =~= txs);
    }
}

/// A longer chain counts no fewer hits.
proof fn lemma_chain_hits_grow(chain: Seq<BlockView>, probe: ProbeView, i: int)
    requires
        0 <= i <= chain.len(),
    ensures
        hits_in_chain(chain.take(i), probe) <= hits_in_chain(chain, probe),
    decreases chain.len() - i,
{
    if i < chain.len() {
        lemma_chain_hits_grow(chain, probe, i + 1);
        assert(chain.take(i + 1).drop_last() =~= chain.take(i));
    } else {
        assert(chain.take(i) =~= chain);
    }
}

/// The smaller of two counts.
pub open spec fn at_most(count: nat, limit: nat) -> nat {
    if count <= limit {
        count
    } else {
        limit
    }
}

impl<'a> Probe<'a> {
    /// Whether `tx` answers this probe with yes.
    pub fn hits(&self, tx: &Transaction) -> (r: bool)
        ensures
            r == probe_hits(self@, tx@),
    {
        match *self {
            Probe::BlockBetween { a, b } => match &tx.payload {
                Payload::BlockUser => {
                    let sender = tx.sender_id.as_str();
                    let receiver = tx.receiver_id.as_str();
                    (same_text(sender, a) && same_text(receiver, b)) || (same_text(sender, b)
                        && same_text(receiver, a))
                },
                _ => false,
            },
            Probe::ReportOf { user } => match &tx.payload {
                Payload::ReportUser { .. } => same_text(tx.receiver_id.as_str(), user),
                _ => false,
            },
            Probe::RevocationOf { revoker, target } => match &tx.payload {
                Payload::KeyRevocation { revoker: r, target: t } => same_text(r.as_str(), revoker)
                    && same_text(t.as_str(), target),
                _ => false,
            },
            Probe::MatchBetween { a, b } => match &tx.payload {
                Payload::Match { first, second } => {
                    let first = first.as_str();
                    let second = second.as_str();
                    (same_text(first, a) && same_text(second, b)) || (same_text(second, a)
                        && same_text(first, b))
                },
                _ => false,
            },
        }
    }
}

/// Counts on from `start` the transactions of `txs` that answer `probe`
/// with yes, and stops at `limit`.
fn count_hits_in(txs: &Vec<Transaction>, probe: &Probe, start: usize, limit: usize) -> (n: usize)
    requires
        start < limit,
    ensures
        n == at_most((start + hits_in(txs.deep_view(), probe@)) as nat, limit as nat),
{
    let mut n: usize = start;
    let mut j: usize = 0;
    assert(txs.deep_view().take(0) =~= Seq::<TransactionView>::empty());
    while j < txs.len()
        invariant
            j <= txs.len(),
            n < limit,
            n == start + hits_in(txs.deep_view().take(j as int), probe@),
        decreases txs.len() - j,
    {
        proof {
            let next = txs.deep_view().take(j + 1);
            assert(next.drop_last() =~= txs.deep_view().take(j as int));
            assert(next.last() == txs[j as int]@);
            lemma_hits_grow(txs.deep_view(), probe@, j + 1);
        }
        if probe.hits(&txs[j]) {
            n += 1;
            if n == limit {
                return n;
            }
        }
        j += 1;
    }
    assert(txs.deep_view().take(j as int) =~= txs.deep_view());
    n
}

/// How many transactions of the chain answer `probe` with yes, counted up
/// to `limit`.
pub fn count_hits(chain: &Vec<GlobalBlock>, probe: &Probe, limit: usize) -> (n: usize)
    ensures
        n == at_most(hits_in_chain(chain.deep_view(), probe@), limit as nat),
{
    if limit == 0 {
        return 0;
    }
    let mut n: usize = 0;
    let mut i: usize = 0;
    assert(chain.deep_view().take(0) =~= Seq::<BlockView>::empty());
    while i < chain.len()
        invariant
            i <= chain.len(),
            n < limit,
            n == hits_in_chain(chain.deep_view().take(i as int), probe@),
        decreases chain.len() - i,
    {
        proof {
            let next = chain.deep_view().take(i + 1);
            assert(next.drop_last() =~= chain.deep_view().take(i as int));
            assert(next.last() == chain[i as int]@);
            lemma_chain_hits_grow(chain.deep_view(), probe@, i + 1);
        }
        n = count_hits_in(&chain[i].transactions, probe, n, limit);
        if n == limit {
            return n;
        }
        i += 1;
    }
    assert(chain.deep_view().take(i as int) =~= chain.deep_view());
    n
}

} // verus!
