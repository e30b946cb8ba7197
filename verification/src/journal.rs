//! The journal: the append-only record of how much energy each transaction
//! is still owed, kept as one file per transaction under one directory per
//! payment address, and read back when the process starts again.

use vstd::prelude::*;
use crate::amount::{amount_text, is_amount_char, lemma_amount_round_trip, parse_amount, push_amount, read_amount};
use crate::common::{payment_views, Payment, PaymentView};
use crate::text::{chars_of, is_digit, push_chars, string_of};

verus! {

/// What a journal file counts as when it cannot be read, is empty or does
/// not end in a well-formed line: a tenth of a watt-hour below zero, that
/// is, a delivery that has been completed.
pub const FALLBACK_WATT_HOURS: i64 = -10;

/// The first second that cannot be written as a time stamp: the start of
/// the year 10000.
pub const TIME_LIMIT: u64 = 253_402_300_800;

/// One step of progress of a delivery.
#[derive(Debug, PartialEq, Eq)]
pub struct JournalEntry {
    /// The payment address of the device.
    pub address: String,
    /// The transaction being delivered.
    pub txid: String,
    /// When the step was recorded, in seconds since the Unix epoch.
    pub time: u64,
    /// The energy still owed, in hundredths of a watt-hour; zero or less
    /// once the delivery is complete.
    pub remaining_watt_hours: i64,
}

/// The mathematical value of a [`JournalEntry`].
pub ghost struct JournalEntryView {
    pub address: Seq<char>,
    pub txid: Seq<char>,
    pub time: u64,
    pub remaining_watt_hours: int,
}

impl View for JournalEntry {
    type V = JournalEntryView;

    open spec fn view(&self) -> JournalEntryView {
        JournalEntryView {
            address: self.address@,
            txid: self.txid@,
            time: self.time,
            remaining_watt_hours: self.remaining_watt_hours as int,
        }
    }
}

impl Clone for JournalEntry {
    fn clone(&self) -> (r: JournalEntry)
        ensures
            r@ == self@,
    {
        JournalEntry {
            address: self.address.clone(),
            txid: self.txid.clone(),
            time: self.time,
            remaining_watt_hours: self.remaining_watt_hours,
        }
    }
}

/// One file found under the journal directory.
#[derive(Debug, PartialEq, Eq)]
pub struct JournalFile {
    /// The name of the directory the file lies in: a payment address.
    pub address: String,
    /// The name of the file: a transaction id followed by `.log`.
    pub file_name: String,
    /// What the file holds, or nothing if it could not be read as text.
    pub content: Option<String>,
}

/// The mathematical value of a [`JournalFile`].
pub ghost struct JournalFileView {
    pub address: Seq<char>,
    pub file_name: Seq<char>,
    pub content: Option<Seq<char>>,
}

impl View for JournalFile {
    type V = JournalFileView;

    open spec fn view(&self) -> JournalFileView {
        JournalFileView {
            address: self.address@,
            file_name: self.file_name@,
            content: match self.content {
                Some(text) => Some(text@),
                None => None,
            },
        }
    }
}

/// The ending of every journal file's name.
pub open spec fn log_suffix() -> Seq<char> {
    seq!['.', 'l', 'o', 'g']
}

/// The name of the file that holds the journal of `txid`.
pub open spec fn file_name_of(txid: Seq<char>) -> Seq<char> {
    txid + log_suffix()
}

/// Whether `name` ends in `.log`.
pub open spec fn has_log_suffix(name: Seq<char>) -> bool {
    name.len() >= 4 && name.subrange(name.len() - 4, name.len() as int) == log_suffix()
}

/// The transaction id that a file name stands for: the name without the
/// `.log` at its end, or the whole name if it does not end so.
pub open spec fn txid_of_file(name: Seq<char>) -> Seq<char> {
    if has_log_suffix(name) {
        name.take(name.len() - 4)
    } else {
        name
    }
}

/// `base` and `name` as one path: the two are set apart by one `/`,
/// unless `base` is empty or brings its own.
pub open spec fn joined(base: Seq<char>, name: Seq<char>) -> Seq<char> {
    if base.len() == 0 || base.last() == '/' {
        base + name
    } else {
        base + seq!['/'] + name
    }
}

/// The directory that holds the journals of `address` under `journal_dir`.
pub open spec fn directory_of(journal_dir: Seq<char>, address: Seq<char>) -> Seq<char> {
    joined(journal_dir, address)
}

/// The path of the journal of `txid` for `address` under `journal_dir`.
pub open spec fn path_of(journal_dir: Seq<char>, address: Seq<char>, txid: Seq<char>) -> Seq<
    char,
> {
    joined(directory_of(journal_dir, address), file_name_of(txid))
}

/// Whether `c` can occur in a time stamp.
pub open spec fn is_stamp_char(c: char) -> bool {
    is_digit(c) || c == '-' || c == ':' || c == 'T' || c == 'Z'
}

/// Whether `s` has the shape of a time stamp to the second: twenty
/// characters, each a digit or one of `-`, `:`, `T` and `Z`.
pub open spec fn is_stamp(s: Seq<char>) -> bool {
    &&& s.len() == 20
    &&& forall|i: int| 0 <= i < s.len() ==> is_stamp_char(#[trigger] s[i])
}

/// The journal line for a time stamp and the energy still owed: the stamp,
/// a space, the amount and a line feed.
pub open spec fn entry_line(stamp: Seq<char>, remaining: int) -> Seq<char> {
    stamp + seq![' '] + amount_text(remaining) + seq!['\n']
}

/// Where the last line of `s` starts: behind the last line feed, or at the
/// very beginning if there is none.
pub open spec fn line_start(s: Seq<char>) -> int
    decreases s.len(),
{
    if s.len() == 0 {
        0
    } else if s.last() == '\n' {
        s.len() as int
    } else {
        line_start(s.drop_last())
    }
}

/// `content` without the line ending that closes it, if it has one: a line
/// feed, or a carriage return and a line feed.
pub open spec fn without_line_end(content: Seq<char>) -> Seq<char> {
    if content.len() >= 1 && content.last() == '\n' {
        let body = content.drop_last();
        if body.len() >= 1 && body.last() == '\r' {
            body.drop_last()
        } else {
            body
        }
    } else {
        content
    }
}

/// The last line of `content`, without its line ending; nothing if
/// `content` is empty.
pub open spec fn last_line_of(content: Seq<char>) -> Option<Seq<char>> {
    if content.len() == 0 {
        None
    } else {
        let body = without_line_end(content);
        Some(body.subrange(line_start(body), body.len() as int))
    }
}

/// The position of the first space in `s`, or the length of `s` if it
/// holds none.
pub open spec fn first_space(s: Seq<char>) -> int
    decreases s.len(),
{
    if s.len() == 0 {
        0
    } else if s[0] == ' ' {
        0
    } else {
        1 + first_space(s.drop_first())
    }
}

/// The energy that a journal line says is still owed: what follows the
/// first space, read as an amount; the fallback if there is no space or no
/// well-formed amount behind it.
pub open spec fn line_remaining(line: Seq<char>) -> int {
    let at = first_space(line);
    if at >= line.len() {
        FALLBACK_WATT_HOURS as int
    } else {
        match parse_amount(line.subrange(at + 1, line.len() as int)) {
            Some(value) => value,
            None => FALLBACK_WATT_HOURS as int,
        }
    }
}

/// The energy that a journal file says is still owed: what its last line
/// says, or the fallback for a file that is unreadable or empty.
pub open spec fn recovered(content: Option<Seq<char>>) -> int {
    match content {
        None => FALLBACK_WATT_HOURS as int,
        Some(text) => match last_line_of(text) {
            None => FALLBACK_WATT_HOURS as int,
            Some(line) => line_remaining(line),
        },
    }
}

/// The credit that a journal file stands for.
pub open spec fn credit_of(file: JournalFileView) -> PaymentView {
    PaymentView {
        address: file.address,
        txid: txid_of_file(file.file_name),
        watt_hours: recovered(file.content),
    }
}

/// The values of a list of journal files.
pub open spec fn file_views(files: Seq<JournalFile>) -> Seq<JournalFileView> {
    files.map_values(|f: JournalFile| f@)
}

/// The unfinished deliveries among `files`: the credits of the files that
/// say energy is still owed, in the order of the files.
pub open spec fn outstanding(files: Seq<JournalFileView>) -> Seq<PaymentView>
    decreases files.len(),
{
    if files.len() == 0 {
        Seq::empty()
    } else {
        let earlier = outstanding(files.drop_last());
        if credit_of(files.last()).watt_hours > 0 {
            earlier.push(credit_of(files.last()))
        } else {
            earlier
        }
    }
}

/// The completed deliveries among `files`: the credits of the files that
/// say no energy is owed any more, in the order of the files.
pub open spec fn completed(files: Seq<JournalFileView>) -> Seq<PaymentView>
    decreases files.len(),
{
    if files.len() == 0 {
        Seq::empty()
    } else {
        let earlier = completed(files.drop_last());
        if credit_of(files.last()).watt_hours > 0 {
            earlier
        } else {
            earlier.push(credit_of(files.last()))
        }
    }
}

/// What a restart shows to the router, in this order: the completed
/// deliveries, so that their transactions count as handled before
/// anything is dispatched, and then the unfinished ones.
pub open spec fn replayed(files: Seq<JournalFileView>) -> Seq<PaymentView> {
    completed(files) + outstanding(files)
}

/// If no line feed occurs from `k` on, and `k` is the start of `s` or
/// follows a line feed, then the last line of `s` starts at `k`.
pub proof fn lemma_line_start(s: Seq<char>, k: int)
    requires
        0 <= k <= s.len(),
        k == 0 || s[k - 1] == '\n',
        forall|j: int| k <= j < s.len() ==> s[j] != '\n',
    ensures
        line_start(s) == k,
    decreases s.len() - k,
{
    if k < s.len() {
        lemma_line_start(s.drop_last(), k);
    }
}

/// If no space occurs before `k`, and `k` is the end of `s` or holds a
/// space, then the first space of `s` is at `k`.
pub proof fn lemma_first_space(s: Seq<char>, k: int)
    requires
        0 <= k <= s.len(),
        k == s.len() || s[k] == ' ',
        forall|j: int| 0 <= j < k ==> s[j] != ' ',
    ensures
        first_space(s) == k,
    decreases k,
{
    if k > 0 {
        lemma_first_space(s.drop_first(), k - 1);
    }
}

/// The bounds of the last line of `v`, as `last_line_of` describes it.
fn last_line_bounds(v: &Vec<char>) -> (r: Option<(usize, usize)>)
    ensures
        match r {
            Some((from, to)) => from <= to <= v.len() && last_line_of(v@) == Some(
                v@.subrange(from as int, to as int),
            ),
            None => last_line_of(v@) is None,
        },
{
    let len = v.len();
    if len == 0 {
        return None;
    }
    let mut to: usize = len;
    if v[len - 1] == '\n' {
        to = len - 1;
        if to >= 1 && v[to - 1] == '\r' {
            to = to - 1;
        }
    }
    let ghost body = without_line_end(v@);
    assert(body =~= v@.take(to as int));
    let mut from: usize = to;
    while from > 0 && v[from - 1] != '\n'
        invariant
            from <= to <= v.len(),
            body == v@.take(to as int),
            forall|j: int| from <= j < to ==> body[j] != '\n',
        decreases from,
    {
        from -= 1;
    }
    proof {
        lemma_line_start(body, from as int);
        assert(body.subrange(from as int, body.len() as int) =~= v@.subrange(
            from as int,
            to as int,
        ));
    }
    Some((from, to))
}

/// The last line of `content`, without its line ending; nothing if
/// `content` is empty.
pub fn last_line(content: &str) -> (r: Option<String>)
    ensures
        match r {
            Some(line) => last_line_of(content@) == Some(line@),
            None => last_line_of(content@) is None,
        },
{
    let v = chars_of(content);
    match last_line_bounds(&v) {
        Some((from, to)) => Some(string_of(&v, from, to)),
        None => None,
    }
}

/// The energy that the journal text `content` says is still owed, in
/// hundredths of a watt-hour.
pub fn remaining_watt_hours(content: &str) -> (r: i64)
    ensures
        r as int == recovered(Some(content@)),
{
    let v = chars_of(content);
    let (from, to) = match last_line_bounds(&v) {
        Some(bounds) => bounds,
        None => {
            return FALLBACK_WATT_HOURS;
        },
    };
    let ghost line = v@.subrange(from as int, to as int);
    let mut at: usize = from;
    while at < to && v[at] != ' '
        invariant
            from <= at <= to <= v.len(),
            line == v@.subrange(from as int, to as int),
            forall|j: int| 0 <= j < at - from ==> line[j] != ' ',
        decreases to - at,
    {
        at += 1;
    }
    proof {
        lemma_first_space(line, at - from);
    }
    if at == to {
        return FALLBACK_WATT_HOURS;
    }
    assert(line.subrange(at - from + 1, line.len() as int) =~= v@.subrange(at + 1, to as int));
    match read_amount(&v, at + 1, to) {
        Some(value) => value,
        None => FALLBACK_WATT_HOURS,
    }
}

/// The transaction id that the journal file `name` stands for.
pub fn txid_of_file_name(name: &str) -> (txid: String)
    ensures
        txid@ == txid_of_file(name@),
{
    let v = chars_of(name);
    let len = v.len();
    let ends_in_log = len >= 4 && v[len - 4] == '.' && v[len - 3] == 'l' && v[len - 2] == 'o'
        && v[len - 1] == 'g';
    proof {
        if len >= 4 {
            let tail = v@.subrange(len - 4, len as int);
            assert(tail[0] == v@[len - 4] && tail[1] == v@[len - 3] && tail[2] == v@[len - 2]
                && tail[3] == v@[len - 1]);
            assert(log_suffix()[0] == '.' && log_suffix()[1] == 'l' && log_suffix()[2] == 'o'
                && log_suffix()[3] == 'g');
            if ends_in_log {
                assert(tail =~= log_suffix());
            }
        }
        assert(ends_in_log == has_log_suffix(v@));
    }
    if ends_in_log {
        assert(v@.take(len - 4) =~= v@.subrange(0, len - 4));
        string_of(&v, 0, len - 4)
    } else {
        assert(v@ =~= v@.subrange(0, len as int));
        string_of(&v, 0, len)
    }
}

/// `base` and `name` as one path.
pub fn join_path(base: &str, name: &str) -> (path: String)
    ensures
        path@ == joined(base@, name@),
{
    let start = chars_of(base);
    let mut path = String::new();
    push_chars(&mut path, &start);
    if start.len() > 0 && start[start.len() - 1] != '/' {
        path.push('/');
    }
    push_chars(&mut path, &chars_of(name));
    assert(path@ =~= joined(base@, name@));
    path
}

/// What formatting a time to the second gives: the text that
/// `humantime::format_rfc3339_seconds` writes for the moment `secs` seconds
/// after the Unix epoch, such as `2018-02-14T00:28:07Z`.
pub uninterp spec fn rfc3339_seconds(secs: u64) -> Seq<char>;

/// Calls `humantime::format_rfc3339_seconds` on the moment `secs` seconds
/// after the Unix epoch and renders what it returns.
///
/// Trusted, not proved: before the year 10000 the rendering succeeds, the
/// text depends on `secs` alone, and it is twenty characters long, each of
/// them a digit or one of `-`, `:`, `T` and `Z`.
#[verifier::external_body]
fn format_time(secs: u64) -> (stamp: String)
    requires
        secs < TIME_LIMIT,
    ensures
        stamp@ == rfc3339_seconds(secs),
        is_stamp(stamp@),
{
    let time = std::time::UNIX_EPOCH + std::time::Duration::from_secs(secs);
    humantime::format_rfc3339_seconds(time).to_string()
}

/// Why an entry could not be written.
#[derive(Debug, Clone, Copy, PartialEq, Eq, Structural)]
pub enum JournalError {
    /// The time of the entry lies in the year 10000 or later, which no
    /// time stamp can express.
    TimeOutOfRange,
}

/// What has to reach the disk for one entry.
#[derive(Debug, PartialEq, Eq)]
pub struct JournalRecord {
    /// The directory that must exist before the line is appended.
    pub directory: String,
    /// The file to append to.
    pub file: String,
    /// The line to append, line feed included.
    pub line: String,
}

/// The path of the journal file that `entry` belongs to, under
/// `journal_dir`.
pub fn journal_file(entry: &JournalEntry, journal_dir: &str) -> (path: String)
    ensures
        path@ == path_of(journal_dir@, entry.address@, entry.txid@),
{
    let directory = journal_directory(entry, journal_dir);
    let mut name = entry.txid.clone();
    name.push('.');
    name.push('l');
    name.push('o');
    name.push('g');
    assert(name@ =~= file_name_of(entry.txid@));
    join_path(directory.as_str(), name.as_str())
}

/// The directory that holds the journal file of `entry`, under
/// `journal_dir`.
pub fn journal_directory(entry: &JournalEntry, journal_dir: &str) -> (path: String)
    ensures
        path@ == directory_of(journal_dir@, entry.address@),
{
    join_path(journal_dir, entry.address.as_str())
}

/// The journal line for the time stamp `stamp` and the energy still owed.
pub fn journal_line(stamp: &str, remaining_watt_hours: i64) -> (line: String)
    ensures
        line@ == entry_line(stamp@, remaining_watt_hours as int),
{
    let mut line = String::new();
    push_chars(&mut line, &chars_of(stamp));
    line.push(' ');
    push_amount(&mut line, remaining_watt_hours);
    line.push('\n');
    assert(line@ =~= entry_line(stamp@, remaining_watt_hours as int));
    line
}

/// The writing side of the journal.
pub struct JournalWriter {
    journal_dir: String,
}

impl JournalWriter {
    /// The directory under which this writer keeps the journal.
    pub closed spec fn root(&self) -> Seq<char> {
        self.journal_dir@
    }

    /// A writer that keeps the journal under `journal_dir`.
    pub fn new(journal_dir: String) -> (writer: Self)
        ensures
            writer.root() == journal_dir@,
    {
        JournalWriter { journal_dir }
    }

    /// Says what must be appended where to record `entry`.
    ///
    /// The line is the time of the entry to the second, a space, the
    /// energy still owed and a line feed. An entry timed in the year 10000
    /// or later cannot be written.
    pub fn write(&self, entry: &JournalEntry) -> (r: Result<JournalRecord, JournalError>)
        ensures
            entry.time >= TIME_LIMIT <==> r == Err::<JournalRecord, JournalError>(
                JournalError::TimeOutOfRange,
            ),
            entry.time < TIME_LIMIT <==> r is Ok,
            r is Ok ==> {
                &&& r->Ok_0.directory@ == directory_of(self.root(), entry.address@)
                &&& r->Ok_0.file@ == path_of(self.root(), entry.address@, entry.txid@)
                &&& r->Ok_0.line@ == entry_line(
                    rfc3339_seconds(entry.time),
                    entry.remaining_watt_hours as int,
                )
                &&& is_stamp(rfc3339_seconds(entry.time))
            },
    {
        if entry.time >= TIME_LIMIT {
            return Err(JournalError::TimeOutOfRange);
        }
        let stamp = format_time(entry.time);
        let line = journal_line(stamp.as_str(), entry.remaining_watt_hours);
        Ok(
            JournalRecord {
                directory: journal_directory(entry, self.journal_dir.as_str()),
                file: journal_file(entry, self.journal_dir.as_str()),
                line,
            },
        )
    }
}

/// The reading side of the journal, used once when the process starts.
pub struct JournalReader {
    /// The directory under which the journal is kept.
    pub journal_dir: String,
}

impl JournalReader {
    /// A reader of the journal kept under `journal_dir`.
    pub fn new(journal_dir: String) -> (reader: Self)
        ensures
            reader.journal_dir@ == journal_dir@,
    {
        JournalReader { journal_dir }
    }

    /// The unfinished deliveries among the files found under the journal
    /// directory: one credit for each file whose last line says that
    /// energy is still owed, in the order of the files, and none for any
    /// other file.
    ///
    /// A credit carries the address of the file's directory, the
    /// transaction id of the file's name and exactly the energy that the
    /// last line says is still owed.
    pub fn read(&self, files: &Vec<JournalFile>) -> (credits: Vec<Payment>)
        ensures
            payment_views(credits@) == outstanding(file_views(files@)),
    {
        let ghost all = file_views(files@);
        let mut credits: Vec<Payment> = Vec::new();
        let mut i: usize = 0;
        assert(payment_views(credits@) =~= outstanding(all.take(0)));
        while i < files.len()
            invariant
                i <= files.len(),
                all == file_views(files@),
                payment_views(credits@) == outstanding(all.take(i as int)),
            decreases files.len() - i,
        {
            let credit = credit_from(&files[i]);
            assert(all.take(i + 1).drop_last() =~= all.take(i as int));
            assert(all.take(i + 1).last() == files@[i as int]@);
            if credit.watt_hours > 0 {
                let ghost before = credits@;
                credits.push(credit);
                assert(payment_views(credits@) =~= payment_views(before).push(credit@));
            }
            i += 1;
        }
        assert(all.take(files.len() as int) =~= all);
        credits
    }

    /// The completed deliveries among the files found under the journal
    /// directory: one credit for each file that says no energy is owed
    /// any more, or that is unreadable, empty or malformed, in the order
    /// of the files.
    ///
    /// None of them owes any energy. They are there to be shown to the
    /// router before anything else, so that their transactions count as
    /// handled when the wallet reports them again.
    pub fn completed(&self, files: &Vec<JournalFile>) -> (credits: Vec<Payment>)
        ensures
            payment_views(credits@) == completed(file_views(files@)),
    {
        let ghost all = file_views(files@);
        let mut credits: Vec<Payment> = Vec::new();
        let mut i: usize = 0;
        assert(payment_views(credits@) =~= completed(all.take(0)));
        while i < files.len()
            invariant
                i <= files.len(),
                all == file_views(files@),
                payment_views(credits@) == completed(all.take(i as int)),
            decreases files.len() - i,
        {
            let credit = credit_from(&files[i]);
            assert(all.take(i + 1).drop_last() =~= all.take(i as int));
            assert(all.take(i + 1).last() == files@[i as int]@);
            if credit.watt_hours <= 0 {
                let ghost before = credits@;
                credits.push(credit);
                assert(payment_views(credits@) =~= payment_views(before).push(credit@));
            }
            i += 1;
        }
        assert(all.take(files.len() as int) =~= all);
        credits
    }

    /// What a restart shows to the router: the completed deliveries among
    /// `files` first, then the unfinished ones, each list in the order of
    /// the files.
    pub fn replay(&self, files: &Vec<JournalFile>) -> (credits: Vec<Payment>)
        ensures
            payment_views(credits@) == replayed(file_views(files@)),
    {
        let mut credits = self.completed(files);
        let mut unfinished = self.read(files);
        let ghost first = credits@;
        let ghost second = unfinished@;
        credits.append(&mut unfinished);
        assert(payment_views(first + second) =~= payment_views(first) + payment_views(second));
        credits
    }
}

/// The credit that the journal file `file` stands for.
pub fn credit_from(file: &JournalFile) -> (credit: Payment)
    ensures
        credit@ == credit_of(file@),
{
    let watt_hours = match &file.content {
        Some(text) => remaining_watt_hours(text.as_str()),
        None => FALLBACK_WATT_HOURS,
    };
    Payment {
        address: file.address.clone(),
        txid: txid_of_file_name(file.file_name.as_str()),
        watt_hours,
    }
}

/// What is read is owed, what is completed is not. Every credit among the
/// unfinished deliveries owes energy, every credit among the completed
/// ones owes none, and every file is in exactly one of the two lists.
pub proof fn law_files_are_told_apart(files: Seq<JournalFileView>)
    ensures
        forall|i: int|
            0 <= i < outstanding(files).len() ==> (#[trigger] outstanding(files)[i]).watt_hours > 0,
        forall|i: int|
            0 <= i < completed(files).len() ==> (#[trigger] completed(files)[i]).watt_hours <= 0,
        forall|n: int|
            0 <= n < files.len() && credit_of(#[trigger] files[n]).watt_hours > 0 ==> exists|
                i: int,
            |
                0 <= i < outstanding(files).len() && outstanding(files)[i] == credit_of(files[n]),
        forall|n: int|
            0 <= n < files.len() && credit_of(#[trigger] files[n]).watt_hours <= 0 ==> exists|
                i: int,
            |
                0 <= i < completed(files).len() && completed(files)[i] == credit_of(files[n]),
        outstanding(files).len() + completed(files).len() == files.len(),
    decreases files.len(),
{
    if files.len() > 0 {
        let before = files.drop_last();
        let last = credit_of(files.last());
        law_files_are_told_apart(before);
        let open = outstanding(files);
        let done = completed(files);
        assert forall|i: int| 0 <= i < open.len() implies (#[trigger] open[i]).watt_hours > 0 by {
            if i < outstanding(before).len() {
                assert(open[i] == outstanding(before)[i]);
            }
        }
        assert forall|i: int| 0 <= i < done.len() implies (#[trigger] done[i]).watt_hours <= 0 by {
            if i < completed(before).len() {
                assert(done[i] == completed(before)[i]);
            }
        }
        assert forall|n: int|
            0 <= n < files.len() && credit_of(#[trigger] files[n]).watt_hours > 0 implies exists|
            i: int,
        |
            0 <= i < open.len() && open[i] == credit_of(files[n]) by {
            if n < before.len() {
                assert(before[n] == files[n]);
                let i = choose|i: int|
                    0 <= i < outstanding(before).len() && outstanding(before)[i] == credit_of(
                        before[n],
                    );
                assert(open[i] == credit_of(files[n]));
            } else {
                assert(open[open.len() - 1] == credit_of(files[n]));
            }
        }
        assert forall|n: int|
            0 <= n < files.len() && credit_of(#[trigger] files[n]).watt_hours <= 0 implies exists|
            i: int,
        |
            0 <= i < done.len() && done[i] == credit_of(files[n]) by {
            if n < before.len() {
                assert(before[n] == files[n]);
                let i = choose|i: int|
                    0 <= i < completed(before).len() && completed(before)[i] == credit_of(
                        before[n],
                    );
                assert(done[i] == credit_of(files[n]));
            } else {
                assert(done[done.len() - 1] == credit_of(files[n]));
            }
        }
    }
}

/// The text of a journal line without its line feed.
pub open spec fn entry_text(stamp: Seq<char>, remaining: int) -> Seq<char> {
    stamp + seq![' '] + amount_text(remaining)
}

/// A line that holds no line feed and does not end in a carriage return
/// is the last line of any text that ends with it and a line feed, if
/// what stands before it is empty or ends with a line feed itself.
pub proof fn lemma_appended_line_is_last(earlier: Seq<char>, line: Seq<char>)
    requires
        earlier.len() == 0 || earlier.last() == '\n',
        line.len() > 0,
        line.last() != '\r',
        forall|j: int| 0 <= j < line.len() ==> line[j] != '\n',
    ensures
        last_line_of(earlier + line + seq!['\n']) == Some(line),
{
    let content = earlier + line + seq!['\n'];
    let body = earlier + line;
    assert(content.last() == '\n');
    assert(content.drop_last() =~= body);
    assert(body.last() == line.last());
    assert(without_line_end(content) == body);
    assert forall|j: int| earlier.len() <= j < body.len() implies body[j] != '\n' by {
        assert(body[j] == line[j - earlier.len()]);
    }
    if earlier.len() > 0 {
        assert(body[earlier.len() - 1] == earlier.last());
    }
    lemma_line_start(body, earlier.len() as int);
    assert(body.subrange(earlier.len() as int, body.len() as int) =~= line);
}

/// The text of a journal line holds no line break, and it says that what
/// is still owed is the amount it was written for.
pub proof fn lemma_entry_text_is_read(stamp: Seq<char>, remaining: int)
    requires
        is_stamp(stamp),
        i64::MIN <= remaining <= i64::MAX,
    ensures
        entry_text(stamp, remaining).len() > 0,
        entry_text(stamp, remaining).last() != '\r',
        forall|j: int|
            0 <= j < entry_text(stamp, remaining).len() ==> entry_text(stamp, remaining)[j]
                != '\n',
        line_remaining(entry_text(stamp, remaining)) == remaining,
{
    let amount = amount_text(remaining);
    let line = entry_text(stamp, remaining);
    lemma_amount_round_trip(remaining);
    assert(line.len() == 21 + amount.len());
    assert(amount.len() >= 5) by {
        assert(parse_amount(amount) is Some);
    }
    assert forall|j: int| 0 <= j < line.len() implies line[j] != '\n' && line[j] != '\r' && (j
        < 20 ==> line[j] != ' ') by {
        if j < 20 {
            assert(line[j] == stamp[j]);
            assert(is_stamp_char(stamp[j]));
        } else if j > 20 {
            assert(line[j] == amount[j - 21]);
            assert(is_amount_char(amount[j - 21]));
        } else {
            assert(line[j] == ' ');
        }
    }
    assert(line[20] == ' ');
    lemma_first_space(line, 20);
    assert(line.subrange(21, line.len() as int) =~= amount);
}

/// The last line decides. A journal file that ends with the line written
/// for an entry is read back as exactly the energy that the entry said was
/// still owed, whatever complete lines stand before it.
pub proof fn law_last_entry_is_recovered(earlier: Seq<char>, stamp: Seq<char>, remaining: int)
    requires
        is_stamp(stamp),
        i64::MIN <= remaining <= i64::MAX,
        earlier.len() == 0 || earlier.last() == '\n',
    ensures
        recovered(Some(earlier + entry_line(stamp, remaining))) == remaining,
{
    let line = entry_text(stamp, remaining);
    lemma_entry_text_is_read(stamp, remaining);
    lemma_appended_line_is_last(earlier, line);
    assert(earlier + entry_line(stamp, remaining) =~= earlier + line + seq!['\n']);
}

/// No credit without a file. Every credit among the unfinished deliveries
/// and every credit among the completed ones is the credit of one of the
/// files: its address is the name of that file's directory, and its
/// transaction is the one that the file's name stands for.
pub proof fn law_every_credit_has_its_file(files: Seq<JournalFileView>)
    ensures
        forall|i: int|
            0 <= i < outstanding(files).len() ==> exists|n: int|
                0 <= n < files.len() && credit_of(files[n]) == #[trigger] outstanding(files)[i],
        forall|i: int|
            0 <= i < completed(files).len() ==> exists|n: int|
                0 <= n < files.len() && credit_of(files[n]) == #[trigger] completed(files)[i],
    decreases files.len(),
{
    if files.len() > 0 {
        let before = files.drop_last();
        let last = files.len() - 1;
        law_every_credit_has_its_file(before);
        let open = outstanding(files);
        let done = completed(files);
        assert forall|i: int| 0 <= i < open.len() implies exists|n: int|
            0 <= n < files.len() && credit_of(files[n]) == #[trigger] open[i] by {
            if i < outstanding(before).len() {
                assert(open[i] == outstanding(before)[i]);
                let n = choose|n: int|
                    0 <= n < before.len() && credit_of(before[n]) == outstanding(before)[i];
                assert(files[n] == before[n]);
            } else {
                assert(open[i] == credit_of(files[last]));
            }
        }
        assert forall|i: int| 0 <= i < done.len() implies exists|n: int|
            0 <= n < files.len() && credit_of(files[n]) == #[trigger] done[i] by {
            if i < completed(before).len() {
                assert(done[i] == completed(before)[i]);
                let n = choose|n: int|
                    0 <= n < before.len() && credit_of(before[n]) == completed(before)[i];
                assert(files[n] == before[n]);
            } else {
                assert(done[i] == credit_of(files[last]));
            }
        }
    }
}

/// A transaction leads back to the name of its journal file: a file name
/// that ends in `.log` is the name of the file written for the
/// transaction it stands for.
pub proof fn law_transaction_names_file(name: Seq<char>)
    requires
        has_log_suffix(name),
    ensures
        file_name_of(txid_of_file(name)) == name,
{
    assert(name.take(name.len() - 4) + name.subrange(name.len() - 4, name.len() as int) =~= name);
}

/// The name of a journal file leads back to its transaction: the file
/// written for a transaction id is read as that id, whatever the id is.
pub proof fn law_file_name_names_transaction(txid: Seq<char>)
    ensures
        has_log_suffix(file_name_of(txid)),
        txid_of_file(file_name_of(txid)) == txid,
{
    let name = file_name_of(txid);
    assert(name.subrange(name.len() - 4, name.len() as int) =~= log_suffix());
    assert(name.take(name.len() - 4) =~= txid);
}

} // verus!
