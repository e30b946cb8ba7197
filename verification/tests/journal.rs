use cipo::amount::{push_amount, read_amount};
use cipo::common::Payment;
use cipo::journal::{
    credit_from, join_path, journal_directory, journal_file, journal_line, last_line,
    remaining_watt_hours, txid_of_file_name,
    JournalEntry, JournalError, JournalFile, JournalReader, JournalWriter, FALLBACK_WATT_HOURS,
    TIME_LIMIT,
};
use cipo::text::{chars_of, push_decimal, read_decimal, string_of};

fn entry(time: u64, remaining: i64) -> JournalEntry {
    JournalEntry {
        address: String::from("4Addr"),
        txid: String::from("abc123"),
        time,
        remaining_watt_hours: remaining,
    }
}

fn amount(r: i64) -> String {
    let mut s = String::new();
    push_amount(&mut s, r);
    s
}

fn parse(s: &str) -> Option<i64> {
    let v = chars_of(s);
    read_amount(&v, 0, v.len())
}

#[test]
fn an_entry_becomes_a_line() {
    let writer = JournalWriter::new(String::from("/var/lib/cipo/journal"));
    let record = writer.write(&entry(1_704_067_200, 1234)).unwrap();
    assert_eq!(record.line, "2024-01-01T00:00:00Z +12.34\n");
    assert_eq!(record.directory, "/var/lib/cipo/journal/4Addr");
    assert_eq!(record.file, "/var/lib/cipo/journal/4Addr/abc123.log");
}

#[test]
fn the_time_is_written_to_the_second() {
    let writer = JournalWriter::new(String::from("j"));
    assert_eq!(writer.write(&entry(0, 0)).unwrap().line, "1970-01-01T00:00:00Z +0.00\n");
    assert_eq!(
        writer.write(&entry(1_518_568_087, -10_000)).unwrap().line,
        "2018-02-14T00:28:07Z -100.00\n"
    );
    assert_eq!(
        writer.write(&entry(TIME_LIMIT - 1, 5)).unwrap().line,
        "9999-12-31T23:59:59Z +0.05\n"
    );
}

#[test]
fn a_time_beyond_the_year_9999_cannot_be_written() {
    let writer = JournalWriter::new(String::from("j"));
    assert_eq!(writer.write(&entry(TIME_LIMIT, 5)), Err(JournalError::TimeOutOfRange));
    assert_eq!(writer.write(&entry(u64::MAX, 5)), Err(JournalError::TimeOutOfRange));
    assert!(writer.write(&entry(TIME_LIMIT - 1, 5)).is_ok());
}

#[test]
fn amounts_are_written_with_sign_and_two_decimals() {
    assert_eq!(amount(0), "+0.00");
    assert_eq!(amount(1), "+0.01");
    assert_eq!(amount(-1), "-0.01");
    assert_eq!(amount(99), "+0.99");
    assert_eq!(amount(100), "+1.00");
    assert_eq!(amount(50_000), "+500.00");
    assert_eq!(amount(-10_000), "-100.00");
    assert_eq!(amount(-10), "-0.10");
    assert_eq!(amount(i64::MAX), "+92233720368547758.07");
    assert_eq!(amount(i64::MIN), "-92233720368547758.08");
}

#[test]
fn amounts_are_read_back() {
    assert_eq!(parse("+12.34"), Some(1234));
    assert_eq!(parse("+012.34"), Some(1234));
    assert_eq!(parse("-0.50"), Some(-50));
    assert_eq!(parse("-0.00"), Some(0));
    assert_eq!(parse("+0.00"), Some(0));
    assert_eq!(parse("+92233720368547758.07"), Some(i64::MAX));
    assert_eq!(parse("-92233720368547758.08"), Some(i64::MIN));
}

#[test]
fn what_is_not_an_amount_is_not_read() {
    assert_eq!(parse(""), None);
    assert_eq!(parse("12.34"), None);
    assert_eq!(parse("+12.3"), None);
    assert_eq!(parse("+12.345"), None);
    assert_eq!(parse("+.34"), None);
    assert_eq!(parse("+12,34"), None);
    assert_eq!(parse("+1a.34"), None);
    assert_eq!(parse("+12.3x"), None);
    assert_eq!(parse("++2.34"), None);
    assert_eq!(parse("+1e5"), None);
    assert_eq!(parse("+92233720368547758.08"), None);
    assert_eq!(parse("-92233720368547758.09"), None);
    assert_eq!(parse("+99999999999999999999999999.00"), None);
}

#[test]
fn every_amount_survives_writing_and_reading() {
    let samples: Vec<i64> = vec![
        0, 1, -1, 9, 10, 99, 100, 101, -99, -100, 1234, 50_000, 30_000, 10_000, -10_000,
        i64::MAX, i64::MIN, i64::MAX - 1, i64::MIN + 1,
    ];
    for r in samples {
        assert_eq!(parse(&amount(r)), Some(r));
    }
}

#[test]
fn the_last_line_is_found() {
    assert_eq!(last_line(""), None);
    assert_eq!(last_line("\n"), Some(String::from("")));
    assert_eq!(last_line("one"), Some(String::from("one")));
    assert_eq!(last_line("one\n"), Some(String::from("one")));
    assert_eq!(last_line("one\ntwo"), Some(String::from("two")));
    assert_eq!(last_line("one\ntwo\n"), Some(String::from("two")));
    assert_eq!(last_line("one\r\ntwo\r\n"), Some(String::from("two")));
    assert_eq!(last_line("one\n\n"), Some(String::from("")));
    assert_eq!(last_line("one\ntwo\r"), Some(String::from("two\r")));
}

#[test]
fn the_last_line_of_a_journal_decides() {
    let text = "2024-01-01T00:00:00Z +500.00\n2024-01-01T00:00:10Z +300.00\n";
    assert_eq!(remaining_watt_hours(text), 30_000);
    let done = "2024-01-01T00:00:00Z +500.00\n2024-01-01T00:00:10Z -100.00\n";
    assert_eq!(remaining_watt_hours(done), -10_000);
    assert_eq!(remaining_watt_hours("2024-01-01T00:00:00Z +012.34"), 1234);
    assert_eq!(remaining_watt_hours("2024-01-01T00:00:00Z +0.00\n"), 0);
}

#[test]
fn a_broken_journal_counts_as_completed() {
    assert_eq!(FALLBACK_WATT_HOURS, -10);
    assert_eq!(remaining_watt_hours(""), FALLBACK_WATT_HOURS);
    assert_eq!(remaining_watt_hours("\n"), FALLBACK_WATT_HOURS);
    assert_eq!(remaining_watt_hours("nospace"), FALLBACK_WATT_HOURS);
    assert_eq!(remaining_watt_hours("2024-01-01T00:00:00Z"), FALLBACK_WATT_HOURS);
    assert_eq!(remaining_watt_hours("2024-01-01T00:00:00Z 12.34"), FALLBACK_WATT_HOURS);
    assert_eq!(remaining_watt_hours("2024-01-01T00:00:00Z +12.3"), FALLBACK_WATT_HOURS);
    assert_eq!(remaining_watt_hours("2024-01-01T00:00:00Z  +12.34"), FALLBACK_WATT_HOURS);
    assert_eq!(remaining_watt_hours("2024-01-01T00:00:00Z +12.34 x"), FALLBACK_WATT_HOURS);
    assert_eq!(
        remaining_watt_hours("2024-01-01T00:00:00Z +500.00\n2024-01-01T00:0"),
        FALLBACK_WATT_HOURS
    );
}

#[test]
fn what_was_written_is_what_is_recovered() {
    let writer = JournalWriter::new(String::from("j"));
    let mut text = String::new();
    let steps: Vec<i64> = vec![50_000, 30_000, 10_000];
    let mut time: u64 = 1_704_067_200;
    for r in steps {
        text.push_str(&writer.write(&entry(time, r)).unwrap().line);
        assert_eq!(remaining_watt_hours(&text), r);
        time += 10;
    }
    assert_eq!(
        text,
        "2024-01-01T00:00:00Z +500.00\n2024-01-01T00:00:10Z +300.00\n2024-01-01T00:00:20Z +100.00\n"
    );
}

#[test]
fn a_file_name_names_its_transaction() {
    assert_eq!(txid_of_file_name("abc123.log"), "abc123");
    assert_eq!(txid_of_file_name("abc123"), "abc123");
    assert_eq!(txid_of_file_name("abc.log.log"), "abc.log");
    assert_eq!(txid_of_file_name(".log"), "");
    assert_eq!(txid_of_file_name(".log.log"), ".log");
    assert_eq!(txid_of_file_name("abc.LOG"), "abc.LOG");
    assert_eq!(txid_of_file_name("log"), "log");
    assert_eq!(txid_of_file_name("a.logx"), "a.logx");
    assert_eq!(txid_of_file_name(""), "");
}

#[test]
fn a_journal_lies_below_its_address() {
    let e = entry(0, 0);
    assert_eq!(journal_directory(&e, "journal"), "journal/4Addr");
    assert_eq!(journal_file(&e, "journal"), "journal/4Addr/abc123.log");
    assert_eq!(txid_of_file_name("abc123.log"), e.txid);
}

#[test]
fn a_path_has_one_separator_between_its_parts() {
    let e = entry(0, 0);
    assert_eq!(journal_directory(&e, ""), "4Addr");
    assert_eq!(journal_file(&e, ""), "4Addr/abc123.log");
    assert_eq!(journal_directory(&e, "/"), "/4Addr");
    assert_eq!(journal_file(&e, "/"), "/4Addr/abc123.log");
    assert_eq!(journal_directory(&e, "/var/journal/"), "/var/journal/4Addr");
    assert_eq!(journal_file(&e, "/var/journal/"), "/var/journal/4Addr/abc123.log");
    assert_eq!(join_path("a", "b"), "a/b");
    assert_eq!(join_path("a/", "b"), "a/b");
    assert_eq!(join_path("", "b"), "b");
    assert_eq!(join_path("a", ""), "a/");
    let writer = JournalWriter::new(String::from(""));
    let record = writer.write(&e).unwrap();
    assert_eq!(record.directory, "4Addr");
    assert_eq!(record.file, "4Addr/abc123.log");
}

#[test]
fn a_transaction_that_ends_in_log_keeps_its_name() {
    let e = JournalEntry {
        address: String::from("a"),
        txid: String::from("y.log"),
        time: 0,
        remaining_watt_hours: 30_000,
    };
    let writer = JournalWriter::new(String::from("journal"));
    let record = writer.write(&e).unwrap();
    assert_eq!(record.file, "journal/a/y.log.log");
    let reader = JournalReader::new(String::from("journal"));
    let files = vec![
        JournalFile {
            address: String::from("a"),
            file_name: String::from("y.log.log"),
            content: Some(record.line),
        },
        JournalFile {
            address: String::from("a"),
            file_name: String::from("y.log"),
            content: Some(String::from("2024-01-01T00:00:00Z -1.00\n")),
        },
    ];
    assert_eq!(
        reader.read(&files),
        vec![Payment { address: String::from("a"), txid: String::from("y.log"), watt_hours: 30_000 }]
    );
    assert_eq!(
        reader.completed(&files),
        vec![Payment { address: String::from("a"), txid: String::from("y"), watt_hours: -100 }]
    );
}

#[test]
fn a_replay_shows_the_completed_deliveries_first() {
    let reader = JournalReader::new(String::from("journal"));
    let files = journal_tree();
    let mut expected = reader.completed(&files);
    expected.extend(reader.read(&files));
    let replayed = reader.replay(&files);
    assert_eq!(replayed, expected);
    let txids: Vec<&str> = replayed.iter().map(|credit| credit.txid.as_str()).collect();
    assert_eq!(txids, vec!["t2", "t3", "t4", "t6", "t1", "t5"]);
    assert!(reader.replay(&Vec::new()).is_empty());
}

fn journal_tree() -> Vec<JournalFile> {
    vec![
        JournalFile {
            address: String::from("A"),
            file_name: String::from("t1.log"),
            content: Some(String::from("2024-01-01T00:00:00Z +500.00\n2024-01-01T00:00:10Z +300.00\n")),
        },
        JournalFile {
            address: String::from("A"),
            file_name: String::from("t2.log"),
            content: Some(String::from("2024-01-01T00:00:00Z +500.00\n2024-01-01T00:00:10Z -1.50\n")),
        },
        JournalFile { address: String::from("B"), file_name: String::from("t3.log"), content: None },
        JournalFile {
            address: String::from("B"),
            file_name: String::from("t4.log"),
            content: Some(String::new()),
        },
        JournalFile {
            address: String::from("B"),
            file_name: String::from("t5.log"),
            content: Some(String::from("2024-01-01T00:00:00Z +0.01\n")),
        },
        JournalFile {
            address: String::from("B"),
            file_name: String::from("t6.log"),
            content: Some(String::from("2024-01-01T00:00:00Z +0.00\n")),
        },
    ]
}

#[test]
fn the_reader_emits_the_unfinished_deliveries_only() {
    let reader = JournalReader::new(String::from("journal"));
    assert_eq!(reader.journal_dir, "journal");
    let credits = reader.read(&journal_tree());
    assert_eq!(
        credits,
        vec![
            Payment { address: String::from("A"), txid: String::from("t1"), watt_hours: 30_000 },
            Payment { address: String::from("B"), txid: String::from("t5"), watt_hours: 1 },
        ]
    );
    assert!(credits.iter().all(|credit| credit.is_outstanding()));
    assert!(reader.read(&Vec::new()).is_empty());
}

#[test]
fn a_completed_delivery_is_not_emitted() {
    let reader = JournalReader::new(String::from("journal"));
    let files = vec![JournalFile {
        address: String::from("A"),
        file_name: String::from("tx1.log"),
        content: Some(String::from(
            "2024-01-01T00:00:00Z +500.00\n2024-01-01T00:00:10Z -100.00\n",
        )),
    }];
    assert!(reader.read(&files).is_empty());
    assert_eq!(
        reader.completed(&files),
        vec![Payment { address: String::from("A"), txid: String::from("tx1"), watt_hours: -10_000 }]
    );
}

#[test]
fn the_reader_knows_the_completed_deliveries() {
    let reader = JournalReader::new(String::from("journal"));
    let completed = reader.completed(&journal_tree());
    assert_eq!(
        completed,
        vec![
            Payment { address: String::from("A"), txid: String::from("t2"), watt_hours: -150 },
            Payment { address: String::from("B"), txid: String::from("t3"), watt_hours: -10 },
            Payment { address: String::from("B"), txid: String::from("t4"), watt_hours: -10 },
            Payment { address: String::from("B"), txid: String::from("t6"), watt_hours: 0 },
        ]
    );
    assert!(completed.iter().all(|credit| !credit.is_outstanding()));
    assert!(reader.completed(&Vec::new()).is_empty());
    assert_eq!(completed.len() + reader.read(&journal_tree()).len(), journal_tree().len());
}

#[test]
fn a_file_stands_for_one_credit() {
    let files = journal_tree();
    assert_eq!(
        credit_from(&files[0]),
        Payment { address: String::from("A"), txid: String::from("t1"), watt_hours: 30_000 }
    );
    assert_eq!(
        credit_from(&files[2]),
        Payment { address: String::from("B"), txid: String::from("t3"), watt_hours: -10 }
    );
}

#[test]
fn numbers_are_written_in_decimal() {
    let mut s = String::from("n=");
    push_decimal(&mut s, 0);
    s.push(' ');
    push_decimal(&mut s, 7);
    s.push(' ');
    push_decimal(&mut s, 10);
    s.push(' ');
    push_decimal(&mut s, 65_535);
    s.push(' ');
    push_decimal(&mut s, u64::MAX);
    assert_eq!(s, "n=0 7 10 65535 18446744073709551615");
}

#[test]
fn numbers_are_read_in_decimal() {
    let v = chars_of("x0123y18446744073709551615z18446744073709551616");
    assert_eq!(read_decimal(&v, 1, 5), Some(123));
    assert_eq!(read_decimal(&v, 1, 1), None);
    assert_eq!(read_decimal(&v, 0, 5), None);
    assert_eq!(read_decimal(&v, 6, 26), Some(u64::MAX));
    assert_eq!(read_decimal(&v, 27, 47), None);
    assert_eq!(string_of(&v, 1, 5), "0123");
    assert_eq!(chars_of("aé"), vec!['a', 'é']);
}

#[test]
fn a_line_is_a_stamp_and_an_amount() {
    assert_eq!(journal_line("2024-01-01T00:00:00Z", 1234), "2024-01-01T00:00:00Z +12.34\n");
    assert_eq!(journal_line("2024-01-01T00:00:00Z", -5), "2024-01-01T00:00:00Z -0.05\n");
    assert_eq!(remaining_watt_hours(&journal_line("2024-01-01T00:00:00Z", -5)), -5);
}
