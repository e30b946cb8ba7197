use cipo::args::Args;
use cipo::config::{Config, Device, HostPort, Price};
use cipo::monero::{
    iterate_monero_transactions, news_of, Monero, MoneroResponse, MoneroResult, MoneroTransfer,
};
use cipo::seen::TransactionSet;
use cipo::shelly::{Energy, Shelly, Status};

fn transfer(address: &str, txid: &str, amount: u64) -> MoneroTransfer {
    MoneroTransfer { address: String::from(address), amount, txid: String::from(txid) }
}

fn wallet() -> Monero {
    Monero::new(HostPort { host: String::from("localhost"), port: 18083 })
}

#[test]
fn only_news_is_passed_on() {
    let mut seen = TransactionSet::new();
    let first = vec![transfer("A", "tx1", 1), transfer("B", "tx2", 2), transfer("A", "tx1", 3)];
    let sent = iterate_monero_transactions(&first, &mut seen);
    assert_eq!(sent, vec![transfer("A", "tx1", 1), transfer("B", "tx2", 2)]);
    assert_eq!(seen.len(), 2);
    assert!(seen.contains("tx1") && seen.contains("tx2"));

    let second = vec![transfer("B", "tx2", 2), transfer("C", "tx3", 4)];
    let sent = iterate_monero_transactions(&second, &mut seen);
    assert_eq!(sent, vec![transfer("C", "tx3", 4)]);
    assert_eq!(seen.len(), 3);

    let sent = iterate_monero_transactions(&second, &mut seen);
    assert!(sent.is_empty());
    assert!(iterate_monero_transactions(&Vec::new(), &mut seen).is_empty());
    assert_eq!(seen.len(), 3);
}

#[test]
fn the_pool_and_the_confirmed_share_one_memory() {
    let monero = wallet();
    let response = MoneroResponse {
        result: MoneroResult {
            transfers: Some(vec![transfer("A", "tx1", 1)]),
            pool: Some(vec![transfer("A", "tx1", 1), transfer("A", "tx2", 2)]),
        },
    };
    let mut seen = TransactionSet::new();
    let mut sent: Vec<MoneroTransfer> = Vec::new();
    if let Some(transfers) = &response.result.transfers {
        sent.extend(monero.iterate_monero_transactions(transfers, &mut seen));
    }
    if let Some(pool) = &response.result.pool {
        sent.extend(monero.iterate_monero_transactions(pool, &mut seen));
    }
    assert_eq!(sent, vec![transfer("A", "tx1", 1), transfer("A", "tx2", 2)]);
}

#[test]
fn a_set_of_transactions_remembers() {
    let mut seen = TransactionSet::new();
    assert_eq!(seen.len(), 0);
    assert!(!seen.contains("tx1"));
    assert!(seen.insert(String::from("tx1")));
    assert!(!seen.insert(String::from("tx1")));
    assert!(seen.contains("tx1"));
    assert_eq!(seen.len(), 1);
}

#[test]
fn the_wallet_is_asked_at_its_address() {
    assert_eq!(wallet().url(), "http://localhost:18083/json_rpc");
    let other = Monero::new(HostPort { host: String::from("10.0.0.7"), port: 0 });
    assert_eq!(other.url(), "http://10.0.0.7:0/json_rpc");
    assert_eq!(other.config, HostPort { host: String::from("10.0.0.7"), port: 0 });
}

#[test]
fn the_switch_is_asked_at_its_address() {
    let device = Device {
        location: String::from("kitchen"),
        host: String::from("192.0.2.17"),
        switch: 3,
        monero: String::from("A"),
    };
    let shelly = Shelly::new(device.clone());
    assert_eq!(shelly.on_url(), "http://192.0.2.17/rpc/Switch.Set?id=3&on=true");
    assert_eq!(shelly.off_url(), "http://192.0.2.17/rpc/Switch.Set?id=3&on=false");
    assert_eq!(shelly.status_url(), "http://192.0.2.17/rpc/Switch.GetStatus?id=3");
    let last = Shelly::new(Device { host: String::from("h"), switch: u16::MAX, ..device });
    assert_eq!(last.status_url(), "http://h/rpc/Switch.GetStatus?id=65535");
}

#[test]
fn a_status_holds_the_meter() {
    let status = Status {
        apower: 12_050,
        aenergy: Energy { total: 100_000, by_minute: vec![1, 2, 3], minute_ts: 1_704_067_200 },
    };
    assert_eq!(status.aenergy.total, 100_000);
    assert_eq!(status.apower, 12_050);
}

#[test]
fn the_command_line_has_its_defaults() {
    let args = Args::from_options(None, None, "/home/cipo");
    assert_eq!(
        args,
        Args {
            config_file: String::from("/etc/cipo.toml"),
            journal_dir: String::from("/home/cipo/journal")
        }
    );
    assert_eq!(Args::from_options(None, None, "/").journal_dir, "/journal");
    assert_eq!(Args::from_options(None, None, "").journal_dir, "journal");
    assert_eq!(Args::from_options(None, None, "/srv/").journal_dir, "/srv/journal");
    let given = Args::from_options(
        Some(String::from("docs/example-config.toml")),
        Some(String::from("/tmp/j")),
        "/home/cipo",
    );
    assert_eq!(given.config_file, "docs/example-config.toml");
    assert_eq!(given.journal_dir, "/tmp/j");
}

#[test]
fn a_configuration_holds_devices_and_a_price() {
    let config = Config {
        monero_rpc: HostPort { host: String::from("localhost"), port: 18083 },
        device: vec![Device {
            location: String::from("kitchen"),
            host: String::from("192.0.2.17"),
            switch: 0,
            monero: String::from("A"),
        }],
        price: Price { xmr_per_kwh: 2_000_000_000 },
    };
    assert_eq!(config.monero_rpc.clone(), config.monero_rpc);
    assert_eq!(config.device[0].clone(), config.device[0]);
    assert_eq!(config.price, Price { xmr_per_kwh: 2_000_000_000 });
}

#[test]
fn the_confirmed_come_before_the_pool() {
    let response = MoneroResponse {
        result: MoneroResult {
            transfers: Some(vec![transfer("A", "tx1", 1), transfer("B", "tx2", 2)]),
            pool: Some(vec![transfer("A", "tx3", 3), transfer("B", "tx2", 9), transfer("A", "tx3", 4)]),
        },
    };
    let mut seen = TransactionSet::new();
    assert_eq!(
        news_of(&response, &mut seen),
        vec![transfer("A", "tx1", 1), transfer("B", "tx2", 2), transfer("A", "tx3", 3)]
    );
    assert_eq!(seen.len(), 3);
    assert!(news_of(&response, &mut seen).is_empty());
    assert_eq!(seen.len(), 3);
}

#[test]
fn an_absent_list_brings_nothing() {
    let mut seen = TransactionSet::new();
    let nothing = MoneroResponse { result: MoneroResult { transfers: None, pool: None } };
    assert!(news_of(&nothing, &mut seen).is_empty());
    assert_eq!(seen.len(), 0);

    let pool_only = MoneroResponse {
        result: MoneroResult { transfers: None, pool: Some(vec![transfer("A", "tx1", 1)]) },
    };
    assert_eq!(news_of(&pool_only, &mut seen), vec![transfer("A", "tx1", 1)]);

    let confirmed_only = MoneroResponse {
        result: MoneroResult {
            transfers: Some(vec![transfer("A", "tx1", 1), transfer("A", "tx2", 2)]),
            pool: None,
        },
    };
    assert_eq!(news_of(&confirmed_only, &mut seen), vec![transfer("A", "tx2", 2)]);
    assert!(seen.contains("tx1") && seen.contains("tx2"));
}
