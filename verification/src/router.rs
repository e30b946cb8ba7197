//! The router: from payments to energy credits, each transaction once.
//!
//! Credits reach the router from two sides: the journal, read once when
//! the process starts, and the wallet, for as long as the process runs.
//! Whatever the side, a transaction is handed to a device at most once.

use vstd::prelude::*;
use vstd::hash_map::StringHashMap;
use crate::common::{payment_views, Payment, PaymentView};
use crate::config::{Device, Price};
use crate::monero::{MoneroTransfer, TransferView};
use crate::seen::TransactionSet;

verus! {

/// What became of a credit that was handed to the router.
#[derive(Debug, PartialEq, Eq)]
pub enum Routing {
    /// The transaction had been handled before; nothing was done.
    Duplicate,
    /// No device is configured for the address; the credit was dropped
    /// and the transaction was not marked as handled.
    UnknownAddress,
    /// The credit owes no energy: the transaction was marked as handled
    /// and no device was told.
    Settled,
    /// The credit goes to the queue of the device with this index, and
    /// the transaction was marked as handled.
    Dispatched { device: usize, payment: Payment },
}

/// The mathematical value of a [`Routing`].
pub ghost enum RoutingView {
    Duplicate,
    UnknownAddress,
    Settled,
    Dispatched { device: usize, payment: PaymentView },
}

impl View for Routing {
    type V = RoutingView;

    open spec fn view(&self) -> RoutingView {
        match self {
            Routing::Duplicate => RoutingView::Duplicate,
            Routing::UnknownAddress => RoutingView::UnknownAddress,
            Routing::Settled => RoutingView::Settled,
            Routing::Dispatched { device, payment } => RoutingView::Dispatched {
                device: *device,
                payment: payment@,
            },
        }
    }
}

/// The router: which device owns which address, and which transactions
/// have been handled since the process started.
pub struct Router {
    table: StringHashMap<usize>,
    processed: TransactionSet,
}

/// The mathematical value of a [`Router`].
pub ghost struct RouterView {
    /// The index of the device that owns each configured address.
    pub table: Map<Seq<char>, usize>,
    /// The transactions handled so far.
    pub processed: Set<Seq<char>>,
}

impl View for Router {
    type V = RouterView;

    closed spec fn view(&self) -> RouterView {
        RouterView { table: self.table@, processed: self.processed@ }
    }
}

/// The largest credit there is, in hundredths of a watt-hour.
pub open spec fn max_watt_hours() -> int {
    i64::MAX as int
}

/// The energy that `picomonero` buys at `xmr_per_kwh` piconero for the
/// kilowatt-hour, in hundredths of a watt-hour.
///
/// A kilowatt-hour is a hundred thousand hundredths of a watt-hour, so the
/// amount times 100 000, divided by the price, is what is bought; a
/// fraction of a hundredth is dropped, and nothing exceeds the largest
/// credit. At the price of zero nothing buys nothing and anything buys
/// the largest credit.
pub open spec fn watt_hours_for(xmr_per_kwh: u128, picomonero: u64) -> int {
    if xmr_per_kwh == 0 {
        if picomonero == 0 {
            0
        } else {
            max_watt_hours()
        }
    } else {
        let bought = (picomonero as int * 100_000) / (xmr_per_kwh as int);
        if bought > max_watt_hours() {
            max_watt_hours()
        } else {
            bought
        }
    }
}

/// The credit that a transfer is worth at a price.
pub open spec fn payment_for(price: Price, transfer: TransferView) -> PaymentView {
    PaymentView {
        address: transfer.address,
        txid: transfer.txid,
        watt_hours: watt_hours_for(price.xmr_per_kwh, transfer.amount),
    }
}

/// The addresses of a list of devices.
pub open spec fn addresses_of(devices: Seq<Device>) -> Seq<Seq<char>> {
    devices.map_values(|d: Device| d.monero@)
}

/// The device that owns each address: the index of the last device that
/// was configured with it.
pub open spec fn routing_table(addresses: Seq<Seq<char>>) -> Map<Seq<char>, usize>
    decreases addresses.len(),
{
    if addresses.len() == 0 {
        Map::empty()
    } else {
        routing_table(addresses.drop_last()).insert(
            addresses.last(),
            (addresses.len() - 1) as usize,
        )
    }
}

/// What the router does with one credit.
///
/// A transaction that has been handled is a duplicate. Otherwise the
/// address decides: without a device for it the credit is dropped and
/// nothing is remembered; with one, the transaction counts as handled
/// from now on, and the credit is dispatched if it owes any energy.
pub open spec fn route(state: RouterView, credit: PaymentView) -> (RouterView, RoutingView) {
    if state.processed.contains(credit.txid) {
        (state, RoutingView::Duplicate)
    } else if !state.table.contains_key(credit.address) {
        (state, RoutingView::UnknownAddress)
    } else {
        let next = RouterView {
            table: state.table,
            processed: state.processed.insert(credit.txid),
        };
        if credit.watt_hours > 0 {
            (
                next,
                RoutingView::Dispatched { device: state.table[credit.address], payment: credit },
            )
        } else {
            (next, RoutingView::Settled)
        }
    }
}

/// What the router does with a list of credits, one after the other: the
/// state it ends in and what became of each credit.
pub open spec fn route_all(state: RouterView, credits: Seq<PaymentView>) -> (
    RouterView,
    Seq<RoutingView>,
)
    decreases credits.len(),
{
    if credits.len() == 0 {
        (state, Seq::empty())
    } else {
        let (middle, earlier) = route_all(state, credits.drop_last());
        let (next, outcome) = route(middle, credits.last());
        (next, earlier.push(outcome))
    }
}

/// The credits that a list of transfers is worth at a price.
pub open spec fn payments_for(price: Price, transfers: Seq<MoneroTransfer>) -> Seq<PaymentView> {
    transfers.map_values(|t: MoneroTransfer| payment_for(price, t@))
}

/// The values of a list of outcomes.
pub open spec fn routing_views(outcomes: Seq<Routing>) -> Seq<RoutingView> {
    outcomes.map_values(|r: Routing| r@)
}

/// The energy that `picomonero` buys at `xmr_per_kwh` piconero for the
/// kilowatt-hour, in hundredths of a watt-hour.
pub fn calculate_watt_hours(xmr_per_kwh: u128, picomonero: u64) -> (watt_hours: i64)
    ensures
        watt_hours as int == watt_hours_for(xmr_per_kwh, picomonero),
        watt_hours >= 0,
{
    if xmr_per_kwh == 0 {
        if picomonero == 0 {
            0
        } else {
            i64::MAX
        }
    } else {
        let scaled: u128 = picomonero as u128 * 100_000;
        let bought: u128 = scaled / xmr_per_kwh;
        if bought > 9_223_372_036_854_775_807u128 {
            i64::MAX
        } else {
            bought as i64
        }
    }
}

impl Router {
    /// A router for `devices` that has handled no transaction yet.
    pub fn new(devices: &Vec<Device>) -> (router: Self)
        ensures
            router@.table == routing_table(addresses_of(devices@)),
            router@.processed == Set::<Seq<char>>::empty(),
    {
        let mut table: StringHashMap<usize> = StringHashMap::new();
        let ghost addresses = addresses_of(devices@);
        let mut i: usize = 0;
        assert(addresses.take(0) =~= Seq::<Seq<char>>::empty());
        while i < devices.len()
            invariant
                i <= devices.len(),
                addresses == addresses_of(devices@),
                table@ == routing_table(addresses.take(i as int)),
            decreases devices.len() - i,
        {
            assert(addresses.take(i + 1).drop_last() =~= addresses.take(i as int));
            assert(addresses.take(i + 1).last() == devices@[i as int].monero@);
            table.insert(devices[i].monero.clone(), i);
            i += 1;
        }
        assert(addresses.take(devices.len() as int) =~= addresses);
        Router { table, processed: TransactionSet::new() }
    }

    /// Whether the transaction `txid` has been handled.
    pub fn is_processed(&self, txid: &str) -> (r: bool)
        ensures
            r == self@.processed.contains(txid@),
    {
        self.processed.contains(txid)
    }

    /// The index of the device that owns `address`, if there is one.
    pub fn device_for(&self, address: &str) -> (r: Option<usize>)
        ensures
            r == if self@.table.contains_key(address@) {
                Some(self@.table[address@])
            } else {
                None
            },
    {
        match self.table.get(address) {
            Some(device) => Some(*device),
            None => None,
        }
    }

    /// Routes one credit, as [`route`] says.
    pub fn route_credit(&mut self, credit: Payment) -> (outcome: Routing)
        ensures
            (final(self)@, outcome@) == route(old(self)@, credit@),
    {
        if self.processed.contains(credit.txid.as_str()) {
            return Routing::Duplicate;
        }
        let device = match self.table.get(credit.address.as_str()) {
            Some(device) => *device,
            None => {
                return Routing::UnknownAddress;
            },
        };
        self.processed.insert(credit.txid.clone());
        if credit.watt_hours > 0 {
            Routing::Dispatched { device, payment: credit }
        } else {
            Routing::Settled
        }
    }

    /// Routes the credit that `transfer` is worth at `price`.
    pub fn route_transfer(&mut self, transfer: &MoneroTransfer, price: &Price) -> (outcome: Routing)
        ensures
            (final(self)@, outcome@) == route(old(self)@, payment_for(*price, transfer@)),
    {
        let credit = Payment {
            address: transfer.address.clone(),
            txid: transfer.txid.clone(),
            watt_hours: calculate_watt_hours(price.xmr_per_kwh, transfer.amount),
        };
        self.route_credit(credit)
    }
}

/// Routes the credits recovered from the journal, then the transfers
/// reported by the wallet, and says what became of each, in that order.
pub fn route_payments(
    router: &mut Router,
    price: &Price,
    credits: &Vec<Payment>,
    transfers: &Vec<MoneroTransfer>,
) -> (outcomes: Vec<Routing>)
    ensures
        (final(router)@, routing_views(outcomes@)) == route_all(
            old(router)@,
            payment_views(credits@) + payments_for(*price, transfers@),
        ),
{
    let ghost recovered = payment_views(credits@);
    let ghost live = payments_for(*price, transfers@);
    let ghost start = router@;
    let mut outcomes: Vec<Routing> = Vec::new();
    let mut i: usize = 0;
    assert(routing_views(outcomes@) =~= Seq::<RoutingView>::empty());
    assert(recovered.take(0) =~= Seq::<PaymentView>::empty());
    while i < credits.len()
        invariant
            i <= credits.len(),
            recovered == payment_views(credits@),
            (router@, routing_views(outcomes@)) == route_all(start, recovered.take(i as int)),
        decreases credits.len() - i,
    {
        let ghost before = outcomes@;
        assert(recovered.take(i + 1).drop_last() =~= recovered.take(i as int));
        assert(recovered.take(i + 1).last() == credits@[i as int]@);
        let outcome = router.route_credit(credits[i].clone());
        outcomes.push(outcome);
        assert(routing_views(outcomes@) =~= routing_views(before).push(outcome@));
        i += 1;
    }
    assert(recovered.take(credits.len() as int) =~= recovered);
    let mut j: usize = 0;
    assert(recovered + live.take(0) =~= recovered);
    while j < transfers.len()
        invariant
            j <= transfers.len(),
            live == payments_for(*price, transfers@),
            (router@, routing_views(outcomes@)) == route_all(
                start,
                recovered + live.take(j as int),
            ),
        decreases transfers.len() - j,
    {
        let ghost before = outcomes@;
        assert((recovered + live.take(j + 1)).drop_last() =~= recovered + live.take(j as int));
        assert((recovered + live.take(j + 1)).last() == payment_for(
            *price,
            transfers@[j as int]@,
        ));
        let outcome = router.route_transfer(&transfers[j], price);
        outcomes.push(outcome);
        assert(routing_views(outcomes@) =~= routing_views(before).push(outcome@));
        j += 1;
    }
    assert(live.take(transfers.len() as int) =~= live);
    outcomes
}

/// Routing never changes which device owns which address, never forgets a
/// transaction, and answers every credit.
pub proof fn lemma_route_all_keeps(state: RouterView, credits: Seq<PaymentView>)
    ensures
        route_all(state, credits).0.table == state.table,
        state.processed.subset_of(route_all(state, credits).0.processed),
        route_all(state, credits).1.len() == credits.len(),
    decreases credits.len(),
{
    if credits.len() > 0 {
        lemma_route_all_keeps(state, credits.drop_last());
    }
}

/// Routing one list and then another is routing the two as one list.
pub proof fn lemma_route_all_concat(
    state: RouterView,
    first: Seq<PaymentView>,
    second: Seq<PaymentView>,
)
    ensures
        route_all(state, first + second) == (
            route_all(route_all(state, first).0, second).0,
            route_all(state, first).1 + route_all(route_all(state, first).0, second).1,
        ),
    decreases second.len(),
{
    let middle = route_all(state, first).0;
    if second.len() == 0 {
        assert(first + second =~= first);
        assert(route_all(state, first).1 + route_all(middle, second).1 =~= route_all(
            state,
            first,
        ).1);
    } else {
        lemma_route_all_concat(state, first, second.drop_last());
        assert((first + second).drop_last() =~= first + second.drop_last());
        assert((first + second).last() == second.last());
        let (before, earlier) = route_all(middle, second.drop_last());
        let (next, outcome) = route(before, second.last());
        assert(route_all(state, first).1 + earlier.push(outcome) =~= (route_all(state, first).1
            + earlier).push(outcome));
    }
}

/// What became of the credit at `k` is what routing it does in the state
/// that the credits before it have led to.
pub proof fn lemma_route_all_at(state: RouterView, credits: Seq<PaymentView>, k: int)
    requires
        0 <= k < credits.len(),
    ensures
        route_all(state, credits).1.len() == credits.len(),
        route_all(state, credits).1[k] == route(
            route_all(state, credits.take(k)).0,
            credits[k],
        ).1,
        route(route_all(state, credits.take(k)).0, credits[k]).0.processed.subset_of(
            route_all(state, credits).0.processed,
        ),
    decreases credits.len(),
{
    lemma_route_all_keeps(state, credits);
    lemma_route_all_keeps(state, credits.drop_last());
    if k == credits.len() - 1 {
        assert(credits.take(k) =~= credits.drop_last());
    } else {
        lemma_route_all_at(state, credits.drop_last(), k);
        assert(credits.drop_last().take(k) =~= credits.take(k));
    }
}

/// A transaction is dispatched at most once. Of two credits for the same
/// transaction, if the earlier one was dispatched, or settled without
/// energy owed, the later one is a duplicate, whatever was routed in
/// between and whatever the two credits say otherwise.
pub proof fn law_dispatched_at_most_once(
    state: RouterView,
    credits: Seq<PaymentView>,
    i: int,
    j: int,
)
    requires
        0 <= i < j < credits.len(),
        credits[i].txid == credits[j].txid,
    ensures
        route_all(state, credits).1[i] is Dispatched || route_all(state, credits).1[i] is Settled
            ==> route_all(state, credits).1[j] is Duplicate,
        !(route_all(state, credits).1[i] is Dispatched && route_all(
            state,
            credits,
        ).1[j] is Dispatched),
{
    lemma_route_all_at(state, credits, i);
    lemma_route_all_at(state, credits, j);
    lemma_route_all_at(state, credits.take(j), i);
    assert(credits.take(j).take(i) =~= credits.take(i));
}

/// The same transfer twice gives one credit. If the address of a transfer
/// is configured, its transaction has not been handled and the amount buys
/// any energy, then handing the transfer to the router twice dispatches
/// its credit the first time and finds a duplicate the second time.
pub proof fn law_same_transfer_twice(state: RouterView, price: Price, transfer: TransferView)
    requires
        state.table.contains_key(transfer.address),
        !state.processed.contains(transfer.txid),
        watt_hours_for(price.xmr_per_kwh, transfer.amount) > 0,
    ensures
        route_all(
            state,
            seq![payment_for(price, transfer), payment_for(price, transfer)],
        ).1 == seq![
            RoutingView::Dispatched {
                device: state.table[transfer.address],
                payment: payment_for(price, transfer),
            },
            RoutingView::Duplicate,
        ],
{
    let credit = payment_for(price, transfer);
    let twice = seq![credit, credit];
    lemma_route_all_at(state, twice, 0);
    lemma_route_all_at(state, twice, 1);
    assert(twice.take(0) =~= Seq::<PaymentView>::empty());
    assert(twice.take(1) =~= seq![credit]);
    assert(seq![credit].drop_last() =~= Seq::<PaymentView>::empty());
    assert(route_all(state, seq![credit]).0 == route(state, credit).0);
    assert(route_all(state, twice).1 =~= seq![
        RoutingView::Dispatched { device: state.table[transfer.address], payment: credit },
        RoutingView::Duplicate,
    ]);
}

/// A credit for an address that no device owns changes nothing. It is
/// answered with the routing error (or as a duplicate, if its transaction
/// has been handled), and the credits after it are routed exactly as they
/// would have been without it.
pub proof fn law_unknown_address_is_passed_over(
    state: RouterView,
    credit: PaymentView,
    rest: Seq<PaymentView>,
)
    requires
        !state.table.contains_key(credit.address),
    ensures
        route(state, credit).0 == state,
        route(state, credit).1 == if state.processed.contains(credit.txid) {
            RoutingView::Duplicate
        } else {
            RoutingView::UnknownAddress
        },
        route_all(state, seq![credit] + rest) == (
            route_all(state, rest).0,
            seq![route(state, credit).1] + route_all(state, rest).1,
        ),
{
    let one = seq![credit];
    assert(one.drop_last() =~= Seq::<PaymentView>::empty());
    assert(route_all(state, one.drop_last()) == (state, Seq::<RoutingView>::empty()));
    assert(one.last() == credit);
    assert(route_all(state, one).0 == state);
    assert(route_all(state, one).1 =~= seq![route(state, credit).1]);
    lemma_route_all_concat(state, one, rest);
}

/// A completed delivery is never started again. A credit that owes no
/// energy is not dispatched, and no credit that is routed after it for
/// the same address and transaction is dispatched either, whatever energy
/// it claims and whatever was routed in between.
pub proof fn law_completed_delivery_never_restarts(
    state: RouterView,
    credits: Seq<PaymentView>,
    i: int,
    j: int,
)
    requires
        0 <= i < j < credits.len(),
        credits[i].watt_hours <= 0,
        credits[j].address == credits[i].address,
        credits[j].txid == credits[i].txid,
    ensures
        !(route_all(state, credits).1[i] is Dispatched),
        !(route_all(state, credits).1[j] is Dispatched),
{
    lemma_route_all_at(state, credits, i);
    lemma_route_all_at(state, credits, j);
    lemma_route_all_at(state, credits.take(j), i);
    assert(credits.take(j).take(i) =~= credits.take(i));
    lemma_route_all_keeps(state, credits.take(i));
    lemma_route_all_keeps(state, credits.take(j));
}

/// A price out of reach sells nothing. At a price above a hundred
/// thousand times the amount, and so at the largest price whatever the
/// amount, no energy is bought.
pub proof fn law_price_out_of_reach_sells_nothing(xmr_per_kwh: u128, picomonero: u64)
    requires
        xmr_per_kwh > picomonero * 100_000,
    ensures
        watt_hours_for(xmr_per_kwh, picomonero) == 0,
        watt_hours_for(u128::MAX, picomonero) == 0,
{
    let paid = picomonero as int * 100_000;
    assert(paid / (xmr_per_kwh as int) == 0) by (nonlinear_arith)
        requires
            0 <= paid < xmr_per_kwh as int,
    ;
    assert(paid / (u128::MAX as int) == 0) by (nonlinear_arith)
        requires
            0 <= paid < u128::MAX as int,
    ;
}

} // verus!
