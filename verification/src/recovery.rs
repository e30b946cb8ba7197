//! What a restart does: the journal, the router and the controller taken
//! together.

use vstd::prelude::*;
use crate::common::PaymentView;
use crate::controller::{transition, ControllerView, EventView};
use crate::journal::{
    completed, credit_of, entry_line, file_name_of, is_stamp,
    law_file_name_names_transaction, law_files_are_told_apart, law_last_entry_is_recovered,
    outstanding, replayed, JournalFileView,
};
use crate::router::{
    law_completed_delivery_never_restarts, lemma_route_all_at, lemma_route_all_concat,
    lemma_route_all_keeps, route, route_all, RouterView, RoutingView,
};

verus! {

/// The journal file of `txid` for `address` that ends with the line
/// written at `stamp` for `remaining`, behind the lines `earlier`.
pub open spec fn journal_ending_with(
    address: Seq<char>,
    txid: Seq<char>,
    earlier: Seq<char>,
    stamp: Seq<char>,
    remaining: int,
) -> JournalFileView {
    JournalFileView {
        address,
        file_name: file_name_of(txid),
        content: Some(earlier + entry_line(stamp, remaining)),
    }
}

/// An unfinished delivery resumes with what was still owed. If the last
/// line of a transaction's journal says that energy is still owed, then
/// after a restart the reader emits a credit for that transaction and for
/// exactly that energy, and it is not among the completed ones; a router
/// that knows the address and has not handled the transaction dispatches
/// it to the device of the address; and the controller that takes it on
/// aims at the first reading of the meter plus that energy, not plus what
/// was paid for at the beginning.
pub proof fn law_restart_resumes_what_is_owed(
    state: RouterView,
    files: Seq<JournalFileView>,
    n: int,
    address: Seq<char>,
    txid: Seq<char>,
    earlier: Seq<char>,
    stamp: Seq<char>,
    remaining: int,
    meter: i64,
    now: u64,
)
    requires
        0 <= n < files.len(),
        files[n] == journal_ending_with(address, txid, earlier, stamp, remaining),
        0 < remaining <= i64::MAX,
        is_stamp(stamp),
        earlier.len() == 0 || earlier.last() == '\n',
        state.table.contains_key(address),
        !state.processed.contains(txid),
    ensures
        credit_of(journal_ending_with(address, txid, earlier, stamp, remaining)) == (PaymentView {
            address,
            txid,
            watt_hours: remaining,
        }),
        exists|i: int|
            0 <= i < outstanding(files).len() && outstanding(files)[i] == (PaymentView {
                address,
                txid,
                watt_hours: remaining,
            }),
        forall|i: int|
            0 <= i < completed(files).len() ==> (#[trigger] completed(files)[i]).watt_hours <= 0,
        route(
            state,
            credit_of(journal_ending_with(address, txid, earlier, stamp, remaining)),
        ).1 == (RoutingView::Dispatched {
            device: state.table[address],
            payment: PaymentView { address, txid, watt_hours: remaining },
        }),
        transition(
            transition(
                ControllerView::Idle,
                EventView::Credit(PaymentView { address, txid, watt_hours: remaining }),
                now,
            ).0,
            EventView::Meter(meter),
            now,
        ).0 == (ControllerView::Delivering {
            credit: PaymentView { address, txid, watt_hours: remaining },
            end_target: meter + remaining,
            stopping: false,
        }),
{
    law_last_entry_is_recovered(earlier, stamp, remaining);
    law_file_name_names_transaction(txid);
    law_files_are_told_apart(files);
    let credit = PaymentView { address, txid, watt_hours: remaining };
    assert(credit_of(files[n]) == credit);
    let at = choose|i: int|
        0 <= i < outstanding(files).len() && outstanding(files)[i] == credit_of(files[n]);
    assert(outstanding(files)[at] == credit);
}

/// A completed delivery stays completed over a restart. If the last line
/// of a transaction's journal says that no energy is owed any more, then
/// after a restart the reader emits no credit for that file: every credit
/// it emits owes energy, and the file's credit is among the completed
/// ones instead. Shown to the router first, none of the completed ones is
/// dispatched, and whatever reaches the router afterwards for the same
/// address and transaction is not dispatched either, be it among the
/// unfinished deliveries of the replay or reported by the wallet: no
/// device hears of it again.
pub proof fn law_restart_leaves_completed_alone(
    state: RouterView,
    files: Seq<JournalFileView>,
    n: int,
    address: Seq<char>,
    txid: Seq<char>,
    earlier: Seq<char>,
    stamp: Seq<char>,
    remaining: int,
    later: Seq<PaymentView>,
    k: int,
)
    requires
        0 <= n < files.len(),
        files[n] == journal_ending_with(address, txid, earlier, stamp, remaining),
        i64::MIN <= remaining <= 0,
        is_stamp(stamp),
        earlier.len() == 0 || earlier.last() == '\n',
        0 <= k < later.len(),
        later[k].address == address,
        later[k].txid == txid,
    ensures
        credit_of(files[n]) == (PaymentView { address, txid, watt_hours: remaining }),
        forall|i: int|
            0 <= i < outstanding(files).len() ==> (#[trigger] outstanding(files)[i]).watt_hours > 0,
        exists|i: int|
            0 <= i < completed(files).len() && completed(files)[i] == (PaymentView {
                address,
                txid,
                watt_hours: remaining,
            }),
        forall|i: int|
            0 <= i < completed(files).len() ==> !(#[trigger] route_all(
                state,
                completed(files),
            ).1[i] is Dispatched),
        !(route_all(route_all(state, completed(files)).0, later).1[k] is Dispatched),
        !(route_all(state, replayed(files) + later).1[replayed(files).len() + k] is Dispatched),
{
    law_last_entry_is_recovered(earlier, stamp, remaining);
    law_file_name_names_transaction(txid);
    law_files_are_told_apart(files);
    let done = completed(files);
    let credit = PaymentView { address, txid, watt_hours: remaining };
    assert(credit_of(files[n]) == credit);
    let at = choose|i: int| 0 <= i < done.len() && done[i] == credit_of(files[n]);
    assert(done[at] == credit);
    assert forall|i: int| 0 <= i < done.len() implies !(#[trigger] route_all(state, done).1[i]
        is Dispatched) by {
        lemma_route_all_at(state, done, i);
        assert(done[i].watt_hours <= 0);
    }
    let all = done + later;
    lemma_route_all_keeps(state, done);
    lemma_route_all_keeps(route_all(state, done).0, later);
    lemma_route_all_keeps(state, all);
    lemma_route_all_concat(state, done, later);
    assert(all[at] == done[at]);
    assert(all[done.len() + k] == later[k]);
    law_completed_delivery_never_restarts(state, all, at, done.len() + k);
    assert(route_all(state, all).1[done.len() + k] == route_all(
        route_all(state, done).0,
        later,
    ).1[k]);
    let whole = replayed(files) + later;
    assert(whole[at] == done[at]);
    assert(whole[replayed(files).len() + k] == later[k]);
    law_completed_delivery_never_restarts(state, whole, at, replayed(files).len() + k);
}

} // verus!
