//! The wallet: the transfers it reports, and which of them are news.
//!
//! The wallet is asked again and again for all incoming transfers, so the
//! same transfer comes back many times, first from the pool and later as
//! confirmed. Only the first sight of a transaction is passed on.

use vstd::prelude::*;
use vstd::string::*;
use crate::config::HostPort;
use crate::seen::TransactionSet;
use crate::text::{digits, push_decimal};

verus! {

/// One incoming transfer, as the wallet reports it.
#[derive(Debug, PartialEq, Eq)]
pub struct MoneroTransfer {
    /// The address the money was sent to.
    pub address: String,
    /// The amount, in piconero.
    pub amount: u64,
    /// The transaction the transfer belongs to.
    pub txid: String,
}

/// The mathematical value of a [`MoneroTransfer`].
pub ghost struct TransferView {
    pub address: Seq<char>,
    pub amount: u64,
    pub txid: Seq<char>,
}

impl View for MoneroTransfer {
    type V = TransferView;

    open spec fn view(&self) -> TransferView {
        TransferView { address: self.address@, amount: self.amount, txid: self.txid@ }
    }
}

impl Clone for MoneroTransfer {
    fn clone(&self) -> (r: MoneroTransfer)
        ensures
            r@ == self@,
    {
        MoneroTransfer {
            address: self.address.clone(),
            amount: self.amount,
            txid: self.txid.clone(),
        }
    }
}

/// The transfers of one answer of the wallet.
#[derive(Debug, PartialEq, Eq)]
pub struct MoneroResult {
    /// The confirmed incoming transfers, if any were reported.
    pub transfers: Option<Vec<MoneroTransfer>>,
    /// The incoming transfers still in the pool, if any were reported.
    pub pool: Option<Vec<MoneroTransfer>>,
}

/// One answer of the wallet.
#[derive(Debug, PartialEq, Eq)]
pub struct MoneroResponse {
    pub result: MoneroResult,
}

/// The wallet's RPC service.
pub struct Monero {
    /// Where the service listens.
    pub config: HostPort,
}

/// The values of a list of transfers.
pub open spec fn views(transfers: Seq<MoneroTransfer>) -> Seq<TransferView> {
    transfers.map_values(|t: MoneroTransfer| t@)
}

/// The transaction ids that occur in `transfers`.
pub open spec fn txids_of(transfers: Seq<TransferView>) -> Set<Seq<char>> {
    Set::new(|txid: Seq<char>| exists|i: int| 0 <= i < transfers.len() && transfers[i].txid == txid)
}

/// Whether the transfer at `i` is news: its transaction has not been seen
/// before and occurs nowhere earlier in the list.
pub open spec fn is_news(transfers: Seq<TransferView>, i: int, seen: Set<Seq<char>>) -> bool {
    &&& !seen.contains(transfers[i].txid)
    &&& forall|j: int| 0 <= j < i ==> transfers[j].txid != transfers[i].txid
}

/// The transfers that are passed on: those that are news, in the order in
/// which they were reported.
pub open spec fn passed_on(transfers: Seq<TransferView>, seen: Set<Seq<char>>) -> Seq<
    TransferView,
>
    decreases transfers.len(),
{
    if transfers.len() == 0 {
        Seq::empty()
    } else {
        let earlier = passed_on(transfers.drop_last(), seen);
        if is_news(transfers, transfers.len() - 1, seen) {
            earlier.push(transfers.last())
        } else {
            earlier
        }
    }
}

/// The address of the wallet's RPC service at `host` and `port`.
pub open spec fn json_rpc_url(host: Seq<char>, port: u16) -> Seq<char> {
    "http://"@ + host + ":"@ + digits(port as nat) + "/json_rpc"@
}

/// Picks the news out of `transactions` and remembers their transactions.
///
/// A transfer is passed on if its transaction is not among
/// `old_transactions` and has not occurred earlier in `transactions`;
/// afterwards every transaction of the list is among `old_transactions`.
pub fn iterate_monero_transactions(
    transactions: &Vec<MoneroTransfer>,
    old_transactions: &mut TransactionSet,
) -> (sent: Vec<MoneroTransfer>)
    ensures
        views(sent@) == passed_on(views(transactions@), old(old_transactions)@),
        final(old_transactions)@ == old(old_transactions)@.union(
            txids_of(views(transactions@)),
        ),
{
    let mut sent: Vec<MoneroTransfer> = Vec::new();
    let ghost all = views(transactions@);
    let ghost seen = old_transactions@;
    let mut i: usize = 0;
    assert(views(sent@) =~= passed_on(all.take(0), seen));
    assert(old_transactions@ =~= seen.union(txids_of(all.take(0))));
    while i < transactions.len()
        invariant
            i <= transactions.len(),
            all == views(transactions@),
            views(sent@) == passed_on(all.take(i as int), seen),
            old_transactions@ == seen.union(txids_of(all.take(i as int))),
        decreases transactions.len() - i,
    {
        let t = &transactions[i];
        let ghost before = all.take(i as int);
        let ghost after = all.take(i + 1);
        assert(after.drop_last() =~= before);
        assert(after.last() == t@);
        assert forall|txid: Seq<char>| #[trigger]
            txids_of(after).contains(txid) == (txids_of(before).contains(txid) || txid
                == t@.txid) by {
            if txids_of(before).contains(txid) {
                let j = choose|j: int| 0 <= j < before.len() && before[j].txid == txid;
                assert(after[j].txid == txid);
            }
            if txid == t@.txid {
                assert(after[i as int].txid == txid);
            }
            if txids_of(after).contains(txid) {
                let j = choose|j: int| 0 <= j < after.len() && after[j].txid == txid;
                if j < i {
                    assert(before[j].txid == txid);
                }
            }
        }
        assert(is_news(after, i as int, seen) == !old_transactions@.contains(t@.txid)) by {
            if txids_of(before).contains(t@.txid) {
                let j = choose|j: int| 0 <= j < before.len() && before[j].txid == t@.txid;
                assert(after[j].txid == after[i as int].txid);
            }
            if !is_news(after, i as int, seen) && !seen.contains(t@.txid) {
                let j = choose|j: int| 0 <= j < i && after[j].txid == after[i as int].txid;
                assert(before[j].txid == t@.txid);
            }
        }
        if !old_transactions.contains(t.txid.as_str()) {
            let ghost sent_before = sent@;
            sent.push(t.clone());
            assert(views(sent@) =~= views(sent_before).push(t@));
            old_transactions.insert(t.txid.clone());
        }
        assert(old_transactions@ =~= seen.union(txids_of(after)));
        i += 1;
    }
    assert(all.take(transactions.len() as int) =~= all);
    sent
}

impl Monero {
    /// The wallet's RPC service at `config`.
    pub fn new(config: HostPort) -> (monero: Self)
        ensures
            monero.config.host@ == config.host@,
            monero.config.port == config.port,
    {
        Monero { config }
    }

    /// The address that requests to the service are sent to.
    pub fn url(&self) -> (url: String)
        ensures
            url@ == json_rpc_url(self.config.host@, self.config.port),
    {
        let mut url = String::from_str("http://");
        url.append(self.config.host.as_str());
        url.append(":");
        push_decimal(&mut url, self.config.port as u64);
        url.append("/json_rpc");
        url
    }

    /// Picks the news out of `transactions` and remembers their
    /// transactions, as the function of the same name does.
    pub fn iterate_monero_transactions(
        &self,
        transactions: &Vec<MoneroTransfer>,
        old_transactions: &mut TransactionSet,
    ) -> (sent: Vec<MoneroTransfer>)
        ensures
            views(sent@) == passed_on(views(transactions@), old(old_transactions)@),
            final(old_transactions)@ == old(old_transactions)@.union(
                txids_of(views(transactions@)),
            ),
    {
        iterate_monero_transactions(transactions, old_transactions)
    }
}

/// Every transfer that is passed on was reported.
proof fn lemma_passed_on_was_reported(transfers: Seq<TransferView>, seen: Set<Seq<char>>, k: int)
    requires
        0 <= k < passed_on(transfers, seen).len(),
    ensures
        exists|i: int|
            0 <= i < transfers.len() && transfers[i] == passed_on(transfers, seen)[k] && is_news(
                transfers,
                i,
                seen,
            ),
    decreases transfers.len(),
{
    let earlier = passed_on(transfers.drop_last(), seen);
    let last = transfers.len() - 1;
    if k < earlier.len() {
        lemma_passed_on_was_reported(transfers.drop_last(), seen, k);
        let i = choose|i: int|
            0 <= i < transfers.drop_last().len() && transfers.drop_last()[i] == earlier[k]
                && is_news(transfers.drop_last(), i, seen);
        assert(transfers[i] == passed_on(transfers, seen)[k]);
        assert forall|j: int| 0 <= j < i implies transfers[j].txid != transfers[i].txid by {
            assert(transfers.drop_last()[j].txid != transfers.drop_last()[i].txid);
        }
        assert(is_news(transfers, i, seen));
    } else {
        assert(transfers[last] == passed_on(transfers, seen)[k]);
    }
}

/// News is news once. No transfer that is passed on belongs to a
/// transaction that had been seen before, and no two of them belong to
/// the same transaction.
pub proof fn law_news_is_passed_on_once(transfers: Seq<TransferView>, seen: Set<Seq<char>>)
    ensures
        forall|k: int|
            0 <= k < passed_on(transfers, seen).len() ==> !seen.contains(
                (#[trigger] passed_on(transfers, seen)[k]).txid,
            ),
        forall|k: int, l: int|
            0 <= k < l < passed_on(transfers, seen).len() ==> passed_on(transfers, seen)[k].txid
                != passed_on(transfers, seen)[l].txid,
    decreases transfers.len(),
{
    let sent = passed_on(transfers, seen);
    assert forall|k: int| 0 <= k < sent.len() implies !seen.contains((#[trigger] sent[k]).txid) by {
        lemma_passed_on_was_reported(transfers, seen, k);
    }
    if transfers.len() > 0 {
        let earlier = passed_on(transfers.drop_last(), seen);
        law_news_is_passed_on_once(transfers.drop_last(), seen);
        assert forall|k: int, l: int| 0 <= k < l < sent.len() implies sent[k].txid
            != sent[l].txid by {
            if l < earlier.len() {
                assert(sent[k] == earlier[k] && sent[l] == earlier[l]);
            } else {
                lemma_passed_on_was_reported(transfers.drop_last(), seen, k);
                let i = choose|i: int|
                    0 <= i < transfers.drop_last().len() && transfers.drop_last()[i] == earlier[k]
                        && is_news(transfers.drop_last(), i, seen);
                assert(transfers[i] == sent[k]);
                assert(sent[l] == transfers.last());
            }
        }
    }
}

/// The transfers that an answer of the wallet reports: the confirmed ones
/// first, then those still in the pool; a list that is absent reports
/// nothing.
pub open spec fn reported(result: MoneroResult) -> Seq<TransferView> {
    listed(result.transfers) + listed(result.pool)
}

/// The transfers of a list that may be absent.
pub open spec fn listed(list: Option<Vec<MoneroTransfer>>) -> Seq<TransferView> {
    match list {
        Some(transfers) => views(transfers@),
        None => Seq::empty(),
    }
}

/// The transactions of two lists are those of the one and those of the
/// other.
pub proof fn lemma_txids_of_concat(first: Seq<TransferView>, second: Seq<TransferView>)
    ensures
        txids_of(first + second) == txids_of(first).union(txids_of(second)),
{
    let both = first + second;
    assert forall|txid: Seq<char>| #[trigger]
        txids_of(both).contains(txid) == (txids_of(first).contains(txid) || txids_of(
            second,
        ).contains(txid)) by {
        if txids_of(first).contains(txid) {
            let i = choose|i: int| 0 <= i < first.len() && first[i].txid == txid;
            assert(both[i].txid == txid);
        }
        if txids_of(second).contains(txid) {
            let i = choose|i: int| 0 <= i < second.len() && second[i].txid == txid;
            assert(both[first.len() + i].txid == txid);
        }
        if txids_of(both).contains(txid) {
            let i = choose|i: int| 0 <= i < both.len() && both[i].txid == txid;
            if i < first.len() {
                assert(first[i].txid == txid);
            } else {
                assert(second[i - first.len()].txid == txid);
            }
        }
    }
    assert(txids_of(both) =~= txids_of(first).union(txids_of(second)));
}

/// Picking the news out of two lists, one after the other, is picking it
/// out of the two as one list.
pub proof fn lemma_passed_on_concat(
    first: Seq<TransferView>,
    second: Seq<TransferView>,
    seen: Set<Seq<char>>,
)
    ensures
        passed_on(first + second, seen) == passed_on(first, seen) + passed_on(
            second,
            seen.union(txids_of(first)),
        ),
    decreases second.len(),
{
    let both = first + second;
    let known = seen.union(txids_of(first));
    if second.len() == 0 {
        assert(both =~= first);
        assert(passed_on(first, seen) + passed_on(second, known) =~= passed_on(first, seen));
    } else {
        lemma_passed_on_concat(first, second.drop_last(), seen);
        assert(both.drop_last() =~= first + second.drop_last());
        assert(both.last() == second.last());
        let last = second.len() - 1;
        let txid = second.last().txid;
        assert(is_news(both, both.len() - 1, seen) == is_news(second, last, known)) by {
            if txids_of(first).contains(txid) {
                let i = choose|i: int| 0 <= i < first.len() && first[i].txid == txid;
                assert(both[i].txid == both[both.len() - 1].txid);
            }
            if is_news(both, both.len() - 1, seen) {
                assert forall|j: int| 0 <= j < last implies (#[trigger] second[j]).txid
                    != second[last].txid by {
                    assert(both[first.len() + j].txid != both[both.len() - 1].txid);
                }
            }
            if is_news(second, last, known) {
                let end = both.len() - 1;
                assert forall|j: int| 0 <= j < end implies (#[trigger] both[j]).txid
                    != both[end].txid by {
                    if j < first.len() {
                        assert(first[j].txid == both[j].txid);
                    } else {
                        assert(second[j - first.len()].txid != second[last].txid);
                    }
                }
            }
        }
        if is_news(second, last, known) {
            assert(passed_on(first, seen) + passed_on(second.drop_last(), known).push(
                second.last(),
            ) =~= (passed_on(first, seen) + passed_on(second.drop_last(), known)).push(
                second.last(),
            ));
        }
    }
}

/// Picks the news out of one answer of the wallet and remembers their
/// transactions: the confirmed transfers are looked at first, then those
/// still in the pool, and a list that is absent brings nothing.
pub fn news_of(response: &MoneroResponse, old_transactions: &mut TransactionSet) -> (sent: Vec<
    MoneroTransfer,
>)
    ensures
        views(sent@) == passed_on(reported(response.result), old(old_transactions)@),
        final(old_transactions)@ == old(old_transactions)@.union(
            txids_of(reported(response.result)),
        ),
{
    let ghost seen = old_transactions@;
    let ghost confirmed = listed(response.result.transfers);
    let ghost pending = listed(response.result.pool);
    let mut sent: Vec<MoneroTransfer> = match &response.result.transfers {
        Some(list) => iterate_monero_transactions(list, old_transactions),
        None => Vec::new(),
    };
    assert(views(sent@) =~= passed_on(confirmed, seen));
    assert(old_transactions@ =~= seen.union(txids_of(confirmed)));
    let ghost first = sent@;
    let mut more: Vec<MoneroTransfer> = match &response.result.pool {
        Some(list) => iterate_monero_transactions(list, old_transactions),
        None => Vec::new(),
    };
    assert(views(more@) =~= passed_on(pending, seen.union(txids_of(confirmed))));
    let ghost second = more@;
    sent.append(&mut more);
    proof {
        assert(views(first + second) =~= views(first) + views(second));
        lemma_passed_on_concat(confirmed, pending, seen);
        lemma_txids_of_concat(confirmed, pending);
        assert(old_transactions@ =~= seen.union(txids_of(confirmed + pending)));
    }
    sent
}

} // verus!
