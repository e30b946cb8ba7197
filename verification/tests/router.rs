use cipo::common::Payment;
use cipo::config::{Device, Price};
use cipo::journal::{JournalFile, JournalReader};
use cipo::monero::MoneroTransfer;
use cipo::router::{route_payments, Router, Routing};

fn device(location: &str, address: &str) -> Device {
    Device {
        location: String::from(location),
        host: String::from("192.0.2.1"),
        switch: 0,
        monero: String::from(address),
    }
}

fn devices() -> Vec<Device> {
    vec![device("kitchen", "A"), device("garage", "B")]
}

fn transfer(address: &str, txid: &str, amount: u64) -> MoneroTransfer {
    MoneroTransfer { address: String::from(address), amount, txid: String::from(txid) }
}

fn credit(address: &str, txid: &str, watt_hours: i64) -> Payment {
    Payment { address: String::from(address), txid: String::from(txid), watt_hours }
}

fn one_per_kwh() -> Price {
    Price { xmr_per_kwh: 1_000_000_000_000 }
}

#[test]
fn the_same_transfer_twice_gives_one_credit() {
    let mut router = Router::new(&devices());
    let t = transfer("A", "tx1", 500_000_000_000);
    assert_eq!(
        router.route_transfer(&t, &one_per_kwh()),
        Routing::Dispatched { device: 0, payment: credit("A", "tx1", 50_000) }
    );
    assert_eq!(router.route_transfer(&t, &one_per_kwh()), Routing::Duplicate);
    assert_eq!(router.route_transfer(&t, &one_per_kwh()), Routing::Duplicate);
    assert!(router.is_processed("tx1"));
}

#[test]
fn a_transaction_is_known_by_its_id_alone() {
    let mut router = Router::new(&devices());
    assert!(matches!(
        router.route_transfer(&transfer("A", "tx1", 1_000_000_000_000), &one_per_kwh()),
        Routing::Dispatched { device: 0, .. }
    ));
    // Another address and another amount, but the same transaction.
    assert_eq!(
        router.route_transfer(&transfer("B", "tx1", 7), &one_per_kwh()),
        Routing::Duplicate
    );
}

#[test]
fn an_unknown_address_does_not_stop_the_router() {
    let mut router = Router::new(&devices());
    let outcomes = route_payments(
        &mut router,
        &one_per_kwh(),
        &Vec::new(),
        &vec![
            transfer("A", "tx1", 1_000_000_000_000),
            transfer("nowhere", "tx2", 1_000_000_000_000),
            transfer("B", "tx3", 2_000_000_000_000),
        ],
    );
    assert_eq!(
        outcomes,
        vec![
            Routing::Dispatched { device: 0, payment: credit("A", "tx1", 100_000) },
            Routing::UnknownAddress,
            Routing::Dispatched { device: 1, payment: credit("B", "tx3", 200_000) },
        ]
    );
    // The dropped transaction was not marked: it is an error each time.
    assert!(!router.is_processed("tx2"));
    assert_eq!(
        router.route_transfer(&transfer("nowhere", "tx2", 1), &one_per_kwh()),
        Routing::UnknownAddress
    );
}

#[test]
fn an_unfinished_delivery_resumes_with_what_is_owed() {
    let mut router = Router::new(&devices());
    // The journal said 300.00 Wh were still owed of the 500.00 paid for.
    assert_eq!(
        router.route_credit(credit("B", "tx1", 30_000)),
        Routing::Dispatched { device: 1, payment: credit("B", "tx1", 30_000) }
    );
    // The wallet reports the old transfer again: it is not delivered anew.
    assert_eq!(
        router.route_transfer(&transfer("B", "tx1", 500_000_000_000), &one_per_kwh()),
        Routing::Duplicate
    );
}

#[test]
fn a_completed_delivery_is_not_started_again() {
    let mut router = Router::new(&devices());
    assert_eq!(router.route_credit(credit("A", "tx1", 0)), Routing::Settled);
    assert_eq!(router.route_credit(credit("A", "tx2", -10_000)), Routing::Settled);
    assert_eq!(router.route_credit(credit("A", "tx3", -10)), Routing::Settled);
    for txid in ["tx1", "tx2", "tx3"] {
        assert!(router.is_processed(txid));
        assert_eq!(
            router.route_transfer(&transfer("A", txid, 500_000_000_000), &one_per_kwh()),
            Routing::Duplicate
        );
    }
}

#[test]
fn a_completed_delivery_for_an_unknown_address_stays_unknown() {
    let mut router = Router::new(&devices());
    assert_eq!(router.route_credit(credit("gone", "tx1", -10)), Routing::UnknownAddress);
    assert!(!router.is_processed("tx1"));
    assert_eq!(
        router.route_transfer(&transfer("gone", "tx1", 500_000_000_000), &one_per_kwh()),
        Routing::UnknownAddress
    );
}

#[test]
fn a_transfer_that_buys_nothing_is_settled() {
    let mut router = Router::new(&devices());
    assert_eq!(router.route_transfer(&transfer("A", "tx1", 0), &one_per_kwh()), Routing::Settled);
    assert_eq!(
        router.route_transfer(&transfer("A", "tx1", 1_000_000_000_000), &one_per_kwh()),
        Routing::Duplicate
    );
}

#[test]
fn the_journal_comes_before_the_wallet() {
    let mut router = Router::new(&devices());
    let outcomes = route_payments(
        &mut router,
        &one_per_kwh(),
        &vec![credit("A", "tx1", 30_000), credit("B", "tx2", -10), credit("A", "tx1", 99)],
        &vec![
            transfer("A", "tx1", 500_000_000_000),
            transfer("B", "tx2", 500_000_000_000),
            transfer("A", "tx3", 500_000_000_000),
            transfer("A", "tx4", 250_000_000_000),
        ],
    );
    assert_eq!(
        outcomes,
        vec![
            Routing::Dispatched { device: 0, payment: credit("A", "tx1", 30_000) },
            Routing::Settled,
            Routing::Duplicate,
            Routing::Duplicate,
            Routing::Duplicate,
            Routing::Dispatched { device: 0, payment: credit("A", "tx3", 50_000) },
            Routing::Dispatched { device: 0, payment: credit("A", "tx4", 25_000) },
        ]
    );
}

#[test]
fn the_router_keeps_its_memory_between_calls() {
    let mut router = Router::new(&devices());
    let first = route_payments(
        &mut router,
        &one_per_kwh(),
        &vec![credit("A", "tx1", 1)],
        &Vec::new(),
    );
    assert_eq!(first, vec![Routing::Dispatched { device: 0, payment: credit("A", "tx1", 1) }]);
    let second = route_payments(
        &mut router,
        &one_per_kwh(),
        &Vec::new(),
        &vec![transfer("A", "tx1", 1_000_000_000_000)],
    );
    assert_eq!(second, vec![Routing::Duplicate]);
    let none = route_payments(&mut router, &one_per_kwh(), &Vec::new(), &Vec::new());
    assert!(none.is_empty());
}

#[test]
fn the_last_device_of_an_address_owns_it() {
    let shared = vec![device("one", "A"), device("two", "B"), device("three", "A")];
    let router = Router::new(&shared);
    assert_eq!(router.device_for("A"), Some(2));
    assert_eq!(router.device_for("B"), Some(1));
    assert_eq!(router.device_for("C"), None);
    let empty = Router::new(&Vec::new());
    assert_eq!(empty.device_for("A"), None);
    assert!(!empty.is_processed("tx1"));
}

#[test]
fn the_price_decides_the_credit() {
    let mut router = Router::new(&devices());
    let half = Price { xmr_per_kwh: 500_000_000_000 };
    assert_eq!(
        router.route_transfer(&transfer("A", "tx1", 1_000_000_000_000), &half),
        Routing::Dispatched { device: 0, payment: credit("A", "tx1", 200_000) }
    );
}

#[test]
fn a_restart_delivers_what_is_owed_and_nothing_else() {
    let files = vec![
        JournalFile {
            address: String::from("A"),
            file_name: String::from("tx1.log"),
            content: Some(String::from(
                "2024-01-01T00:00:00Z +500.00\n2024-01-01T00:00:10Z -100.00\n",
            )),
        },
        JournalFile {
            address: String::from("B"),
            file_name: String::from("tx2.log"),
            content: Some(String::from(
                "2024-01-01T00:00:00Z +500.00\n2024-01-01T00:00:10Z +300.00\n",
            )),
        },
    ];
    let reader = JournalReader::new(String::from("journal"));
    let recovered = reader.replay(&files);

    let mut router = Router::new(&devices());
    let outcomes = route_payments(
        &mut router,
        &one_per_kwh(),
        &recovered,
        &vec![
            transfer("A", "tx1", 500_000_000_000),
            transfer("B", "tx2", 500_000_000_000),
            transfer("A", "tx3", 500_000_000_000),
        ],
    );
    assert_eq!(
        outcomes,
        vec![
            Routing::Settled,
            Routing::Dispatched { device: 1, payment: credit("B", "tx2", 30_000) },
            Routing::Duplicate,
            Routing::Duplicate,
            Routing::Dispatched { device: 0, payment: credit("A", "tx3", 50_000) },
        ]
    );
}
