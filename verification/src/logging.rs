//! Logs: what is written, when files are rotated and removed, and what can be recovered from them.

use crate::dates::{self, countable, day_in, older, parts_of};
use crate::model;
use crate::model::CharSet;
use crate::process::{extract_web_url, web_url_in};
use crate::text;
use vstd::prelude::*;

verus! {

pub const LOG_EVENT: &'static str = "log://line";

/// How large a log file may become, in bytes.
pub const MAX_FILE_SIZE: u64 = 10_485_760;

/// For how many days logs are kept.
pub const RETAIN_DAYS: i64 = 30;

/// How many older parts of a day's log are kept.
pub const MAX_ROTATED: u32 = 5;

/// Where a line comes from.
#[derive(Debug, Clone, Copy, PartialEq, Eq, Structural)]
pub enum LogSource {
    Launcher,
    Dsh,
}

impl LogSource {
    pub open spec fn name(self) -> Seq<char> {
        match self {
            LogSource::Launcher => "launcher"@,
            LogSource::Dsh => "dsh"@,
        }
    }

    pub fn as_str(&self) -> (r: &'static str)
        ensures
            r@ == self.name(),
    {
        match self {
            LogSource::Launcher => "launcher",
            LogSource::Dsh => "dsh",
        }
    }
}

/// How grave a line is.
#[derive(Debug, Clone, Copy, PartialEq, Eq, Structural)]
pub enum LogLevel {
    Info,
    Warn,
    Error,
}

impl LogLevel {
    pub open spec fn name(self) -> Seq<char> {
        match self {
            LogLevel::Info => "INFO"@,
            LogLevel::Warn => "WARN"@,
            LogLevel::Error => "ERROR"@,
        }
    }

    pub fn as_str(&self) -> (r: &'static str)
        ensures
            r@ == self.name(),
    {
        match self {
            LogLevel::Info => "INFO",
            LogLevel::Warn => "WARN",
            LogLevel::Error => "ERROR",
        }
    }
}

/// A line as it is shown.
pub struct LogLine {
    pub timestamp: String,
    pub source: &'static str,
    pub level: &'static str,
    pub message: String,
}

// ---- Writing ----

/// The log that is being written.
pub struct LogState {
    pub current_date: String,
    pub current_size: u64,
}

/// A line that is to be written.
pub struct LogWrite {
    /// The name of the file.
    pub file: String,
    pub line: String,
    /// The file is to be rotated before.
    pub rotate: bool,
    pub shown: LogLine,
}

/// A line of the log.
pub open spec fn line_text(time: Seq<char>, source: LogSource, level: LogLevel, msg: Seq<char>) -> Seq<
    char,
> {
    "["@ + time + "] ["@ + source.name() + "] ["@ + level.name() + ("] "@ + msg + "\n"@)
}

impl LogState {
    pub fn new() -> (r: Self)
        ensures
            r.current_date@ == Seq::<char>::empty(),
            r.current_size == 0,
    {
        let r = LogState { current_date: String::new(), current_size: 0 };
        proof {
            assert(r.current_date@ =~= Seq::<char>::empty());
        }
        r
    }

    /// What is in the file of a date so far.
    pub open spec fn size_on(&self, date: Seq<char>) -> u64 {
        if self.current_date@ == date {
            self.current_size
        } else {
            0
        }
    }

    /// Prepares a line: a new date starts a new file, and a file that would become too large is
    /// rotated first.
    pub fn prepare(
        &mut self,
        date: String,
        time: String,
        source: LogSource,
        level: LogLevel,
        msg: &str,
    ) -> (r: LogWrite)
        ensures
            final(self).current_date@ == date@,
            r.file@ == date@ + ".log"@,
            r.line@ == line_text(time@, source, level, msg@),
            r.rotate == (old(self).size_on(date@) + model::byte_len(r.line@) > MAX_FILE_SIZE),
            final(self).current_size == if r.rotate {
                0
            } else {
                old(self).size_on(date@)
            },
            r.shown.timestamp == time,
            r.shown.source@ == source.name(),
            r.shown.level@ == level.name(),
            r.shown.message@ == msg@,
    {
        let file = text::cat2(date.as_str(), ".log");
        if !text::same(self.current_date.as_str(), date.as_str()) {
            self.current_date = date;
            self.current_size = 0;
        }
        let line = text::cat7(
            "[",
            time.as_str(),
            "] [",
            source.as_str(),
            "] [",
            level.as_str(),
            text::cat3("] ", msg, "\n").as_str(),
        );
        let len = text::byte_len(line.as_str());
        let rotate = self.current_size as u128 + len as u128 > MAX_FILE_SIZE as u128;
        if rotate {
            self.current_size = 0;
        }
        LogWrite {
            file,
            line,
            rotate,
            shown: LogLine {
                timestamp: time,
                source: source.as_str(),
                level: level.as_str(),
                message: msg.to_owned(),
            },
        }
    }

    /// The line has been written.
    pub fn written(&mut self, write: &LogWrite)
        requires
            old(self).current_size + model::byte_len(write.line@) <= u64::MAX,
        ensures
            final(self).current_date == old(self).current_date,
            final(self).current_size == old(self).current_size + model::byte_len(write.line@),
    {
        self.current_size = self.current_size + text::byte_len(write.line.as_str()) as u64;
    }
}

// ---- Rotating ----

/// A step of a rotation. Part 0 is the file that is being written; part 1 is the newest of the
/// older ones.
#[derive(Debug, Clone, Copy, PartialEq, Eq, Structural)]
pub enum RotateStep {
    Remove(u32),
    Rename(u32, u32),
}

/// What the parts hold after a step; a part that is not there is not moved.
pub open spec fn after_step<T>(parts: Map<u32, T>, step: RotateStep) -> Map<u32, T> {
    match step {
        RotateStep::Remove(i) => parts.remove(i),
        RotateStep::Rename(i, j) => if parts.dom().contains(i) {
            parts.insert(j, parts[i]).remove(i)
        } else {
            parts
        },
    }
}

/// What the parts hold after the first `n` steps.
pub open spec fn after_steps<T>(parts: Map<u32, T>, steps: Seq<RotateStep>, n: int) -> Map<u32, T>
    decreases n,
{
    if n <= 0 {
        parts
    } else {
        after_step(after_steps(parts, steps, n - 1), steps[n - 1])
    }
}

/// The steps of a rotation: the oldest part goes, each other becomes one older.
pub open spec fn rotation() -> Seq<RotateStep> {
    seq![
        RotateStep::Remove(5),
        RotateStep::Rename(4, 5),
        RotateStep::Rename(3, 4),
        RotateStep::Rename(2, 3),
        RotateStep::Rename(1, 2),
        RotateStep::Rename(0, 1),
    ]
}

pub fn rotate() -> (r: Vec<RotateStep>)
    ensures
        r@ == rotation(),
{
    let mut r: Vec<RotateStep> = Vec::new();
    r.push(RotateStep::Remove(MAX_ROTATED));
    r.push(RotateStep::Rename(4, 5));
    r.push(RotateStep::Rename(3, 4));
    r.push(RotateStep::Rename(2, 3));
    r.push(RotateStep::Rename(1, 2));
    r.push(RotateStep::Rename(0, 1));
    proof {
        assert(r@ =~= rotation());
    }
    r
}

/// The name of a part of a day's log.
pub fn part_name(date: &str, part: u32) -> (r: String)
    ensures
        r@ == if part == 0 {
            date@ + ".log"@
        } else {
            date@ + ".log."@ + model::decimal(part as nat)
        },
{
    if part == 0 {
        text::cat2(date, ".log")
    } else {
        text::cat3(date, ".log.", text::decimal(part as u64).as_str())
    }
}

/// After a rotation each part holds what the one before it held, the oldest is gone, and there is no
/// current file.
pub proof fn law_rotation_shifts<T>(parts: Map<u32, T>, i: u32)
    requires
        1 <= i <= MAX_ROTATED,
    ensures
        ({
            let now = after_steps(parts, rotation(), 6);
            &&& !now.dom().contains(0)
            &&& now.dom().contains(i) <==> parts.dom().contains((i - 1) as u32)
            &&& parts.dom().contains((i - 1) as u32) ==> now[i] == parts[(i - 1) as u32]
        }),
{
    reveal_with_fuel(after_steps, 7);
}

// ---- Removing old logs ----

/// The date in the name of a log: of a directory the name itself, of a file what stands before its
/// ending.
pub open spec fn date_in_name(name: Seq<char>, is_dir: bool) -> Seq<char> {
    if is_dir {
        name
    } else {
        match model::strip_suffix(name, ".log"@) {
            Some(base) => base,
            None => match model::find(name, ".log."@) {
                Some(i) => name.take(i),
                None => ""@,
            },
        }
    }
}

/// A log is too old to be kept.
pub open spec fn expired(name: Seq<char>, is_dir: bool, today: Seq<char>) -> bool {
    let date = date_in_name(name, is_dir);
    model::byte_len(date) == 10 && older(date, today, RETAIN_DAYS as int)
}

proof fn lemma_chars_and_bytes(s: Seq<char>)
    ensures
        s.len() <= model::byte_len(s),
    decreases s.len(),
{
    if s.len() > 0 {
        lemma_chars_and_bytes(s.drop_first());
    }
}

/// The largest number of so many digits.
spec fn nines(n: nat) -> nat
    decreases n,
{
    if n == 0 {
        0
    } else {
        nines((n - 1) as nat) * 10 + 9
    }
}

proof fn lemma_power_bound(s: Seq<char>)
    requires
        model::all_digits(s),
    ensures
        model::digits_value(s) <= nines(s.len()),
    decreases s.len(),
{
    if s.len() > 0 {
        let t = s.drop_last();
        assert forall|i: int| 0 <= i < t.len() implies model::digit(#[trigger] t[i]) by {
            assert(t[i] == s[i]);
        }
        assert(model::digit(s[s.len() - 1]));
        lemma_power_bound(t);
    }
}

proof fn lemma_nines(n: nat)
    requires
        n <= 10,
    ensures
        nines(n) <= 9_999_999_999,
{
    reveal_with_fuel(nines, 11);
}

/// A text of ten bytes names no day that could not be counted.
pub proof fn law_short_dates_are_countable(date: Seq<char>)
    requires
        model::byte_len(date) <= 10,
    ensures
        countable(date),
{
    lemma_chars_and_bytes(date);
    if parts_of(date) is Some {
        let k = CharSet::Only('-');
        let parts = model::split(date, k);
        model::lemma_first_in(date, k, 0);
        let n = model::first_in(date, k, 0);
        assert(parts[0].len() <= date.len()) by {
            if n < date.len() {
                assert(parts[0] == date.subrange(0, n));
            } else {
                assert(parts[0] == date.skip(0));
            }
        }
        let s = parts[0];
        let t = if s.len() > 0 && s[0] == '+' {
            s.skip(1)
        } else {
            s
        };
        lemma_power_bound(t);
        lemma_nines(t.len());
    }
}

/// Whether a log is too old to be kept; `today` is a date.
pub fn is_expired(name: &str, is_dir: bool, today: &str) -> (b: bool)
    requires
        countable(today@),
    ensures
        b == expired(name@, is_dir, today@),
{
    let date = if is_dir {
        name.to_owned()
    } else {
        match text::strip_suffix(name, ".log") {
            Some(base) => base,
            None => match text::find(name, ".log.") {
                Some(i) => {
                    let v = text::chars_of(name);
                    proof {
                        model::lemma_find_at(name@, ".log."@, 0);
                        assert(name@.subrange(0, i as int) =~= name@.take(i as int));
                    }
                    text::string_of(&v, 0, i)
                },
                None => "".to_owned(),
            },
        }
    };
    if text::byte_len(date.as_str()) != 10 {
        return false;
    }
    proof {
        law_short_dates_are_countable(date@);
    }
    dates::is_older_than(date.as_str(), today, RETAIN_DAYS)
}

/// A log of the last days is kept, and so is every file whose name is no date.
pub proof fn law_recent_logs_are_kept(name: Seq<char>, is_dir: bool, today: Seq<char>)
    ensures
        expired(name, is_dir, today) ==> day_in(date_in_name(name, is_dir)) is Some && day_in(
            today,
        ) is Some && day_in(today)->0 - day_in(date_in_name(name, is_dir))->0 > RETAIN_DAYS,
{
}

// ---- Recovering the address ----

/// The address with a token in the last line that holds one, among the first `n`.
pub open spec fn last_url(lines: Seq<Seq<char>>, n: int) -> Option<Seq<char>>
    decreases n,
{
    if n <= 0 || n > lines.len() {
        None
    } else if web_url_in(lines[n - 1]) is Some {
        web_url_in(lines[n - 1])
    } else {
        last_url(lines, n - 1)
    }
}

/// The last address with a token in a log.
pub fn find_web_url_in_content(content: &str) -> (r: Option<String>)
    ensures
        model::text_of(r) == last_url(
            model::lines(content@),
            model::lines(content@).len() as int,
        ),
{
    let lines = text::lines(content);
    let ghost all = model::lines(content@);
    let mut i: usize = lines.len();
    proof {
        assert(model::texts(lines@).len() == lines@.len());
    }
    while i > 0
        invariant
            all == model::lines(content@),
            model::texts(lines@) == all,
            lines@.len() == all.len(),
            i <= lines.len(),
            last_url(all, all.len() as int) == last_url(all, i as int),
        decreases i,
    {
        proof {
            assert(model::texts(lines@)[i - 1] == lines@[i - 1]@);
        }
        if let Some(url) = extract_web_url(lines[i - 1].as_str()) {
            return Some(url);
        }
        i -= 1;
    }
    None
}

// ---- Listing ----

/// A file below the directory of the logs.
pub struct LogEntry {
    /// The directory of its date, where it stands in one.
    pub dir: Option<String>,
    pub name: String,
    pub size: u64,
    /// In seconds from 1970-01-01.
    pub modified: u64,
}

/// A log as it is listed.
pub struct LogFile {
    pub path: String,
    pub size: u64,
    pub modified: u64,
}

/// What is shown of a log.
pub ghost struct LogFileText {
    pub path: Seq<char>,
    pub size: u64,
    pub modified: u64,
}

impl View for LogFile {
    type V = LogFileText;

    open spec fn view(&self) -> LogFileText {
        LogFileText { path: self.path@, size: self.size, modified: self.modified }
    }
}

pub open spec fn log_texts(v: Seq<LogFile>) -> Seq<LogFileText> {
    v.map_values(|f: LogFile| f@)
}

/// A name with the ending of a log.
pub open spec fn log_name(name: Seq<char>) -> bool {
    match model::rsplit_once(name, CharSet::Only('.')) {
        Some((stem, ending)) => stem.len() > 0 && ending == "log"@,
        None => false,
    }
}

pub open spec fn shown_entry(e: LogEntry) -> LogFileText {
    LogFileText {
        path: match e.dir {
            Some(d) => d@ + "/"@ + e.name@,
            None => e.name@,
        },
        size: e.size,
        modified: e.modified,
    }
}

/// The place of a log among others: behind all that are not older.
pub open spec fn log_slot(row: Seq<LogFileText>, f: LogFileText, i: int) -> int
    decreases row.len() - i,
{
    if i < 0 || i >= row.len() {
        row.len() as int
    } else if row[i].modified < f.modified {
        i
    } else {
        log_slot(row, f, i + 1)
    }
}

/// The logs among files, the latest first.
pub open spec fn listed_logs(entries: Seq<LogEntry>) -> Seq<LogFileText>
    decreases entries.len(),
{
    if entries.len() == 0 {
        seq![]
    } else {
        let row = listed_logs(entries.drop_last());
        if log_name(entries.last().name@) {
            let f = shown_entry(entries.last());
            row.insert(log_slot(row, f, 0), f)
        } else {
            row
        }
    }
}

pub proof fn lemma_log_slot(row: Seq<LogFileText>, f: LogFileText, i: int)
    requires
        0 <= i <= row.len(),
    ensures
        i <= log_slot(row, f, i) <= row.len(),
        forall|k: int| i <= k < log_slot(row, f, i) ==> (#[trigger] row[k]).modified >= f.modified,
        log_slot(row, f, i) < row.len() ==> row[log_slot(row, f, i)].modified < f.modified,
    decreases row.len() - i,
{
    if i < row.len() && row[i].modified >= f.modified {
        lemma_log_slot(row, f, i + 1);
    }
}

fn is_log_name(name: &str) -> (b: bool)
    ensures
        b == log_name(name@),
{
    match text::rsplit_once(name, CharSet::Only('.')) {
        Some((stem, ending)) => !stem.as_str().is_empty() && text::same(ending.as_str(), "log"),
        None => false,
    }
}

/// The logs among the files below the directory of the logs, the latest first.
pub fn list_logs(entries: &Vec<LogEntry>) -> (r: Vec<LogFile>)
    ensures
        log_texts(r@) == listed_logs(entries@),
{
    let mut r: Vec<LogFile> = Vec::new();
    let mut i: usize = 0;
    proof {
        assert(entries@.take(0) =~= seq![]);
        assert(log_texts(r@) =~= seq![]);
    }
    while i < entries.len()
        invariant
            i <= entries.len(),
            log_texts(r@) == listed_logs(entries@.take(i as int)),
        decreases entries.len() - i,
    {
        let ghost row = log_texts(r@);
        proof {
            assert(entries@.take(i as int + 1).drop_last() =~= entries@.take(i as int));
            assert(entries@.take(i as int + 1).last() == entries@[i as int]);
        }
        if is_log_name(entries[i].name.as_str()) {
            let path = match &entries[i].dir {
                Some(d) => text::cat3(d.as_str(), "/", entries[i].name.as_str()),
                None => entries[i].name.clone(),
            };
            let file = LogFile { path, size: entries[i].size, modified: entries[i].modified };
            let ghost f = file@;
            proof {
                assert(row.len() == r@.len());
                lemma_log_slot(row, f, 0);
            }
            let mut k: usize = 0;
            while k < r.len() && r[k].modified >= file.modified
                invariant
                    row == log_texts(r@),
                    f == file@,
                    k <= r.len(),
                    log_slot(row, f, 0) == log_slot(row, f, k as int),
                decreases r.len() - k,
            {
                proof {
                    assert(row[k as int] == r@[k as int]@);
                }
                k += 1;
            }
            proof {
                if k < r.len() {
                    assert(row[k as int] == r@[k as int]@);
                }
            }
            r.insert(k, file);
            proof {
                assert(log_texts(r@) =~= row.insert(k as int, f));
            }
        }
        i += 1;
    }
    proof {
        assert(entries@.take(entries.len() as int) =~= entries@);
    }
    r
}

/// The listed logs stand with the latest first.
pub proof fn law_latest_logs_come_first(entries: Seq<LogEntry>, i: int, j: int)
    requires
        0 <= i < j < listed_logs(entries).len(),
    ensures
        listed_logs(entries)[i].modified >= listed_logs(entries)[j].modified,
    decreases entries.len(),
{
    if entries.len() > 0 {
        let row = listed_logs(entries.drop_last());
        if log_name(entries.last().name@) {
            let f = shown_entry(entries.last());
            let k = log_slot(row, f, 0);
            lemma_log_slot(row, f, 0);
            if j < k {
                law_latest_logs_come_first(entries.drop_last(), i, j);
            } else if j > k && i != k {
                let a = if i < k {
                    i
                } else {
                    i - 1
                };
                law_latest_logs_come_first(entries.drop_last(), a, j - 1);
            } else if i == k && j - 1 > k {
                law_latest_logs_come_first(entries.drop_last(), k, j - 1);
            }
        } else {
            law_latest_logs_come_first(entries.drop_last(), i, j);
        }
    }
}

} // verus!
