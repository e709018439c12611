//! What holds of the logs: what a line says, when a file is rotated or removed, and what is listed.

use crate::dates::{
    chrono_now, date_to_days, epoch_to_date, is_older_than, law_dates_are_read_back, zero_padded,
};
use crate::logging::{
    after_steps, find_web_url_in_content, is_expired, last_url, law_latest_logs_come_first,
    law_rotation_shifts, list_logs, listed_logs, log_name, log_slot, log_texts, part_name, rotate,
    shown_entry, LogEntry, LogFile, LogFileText, LogLevel, LogSource, LogState, LogWrite,
    RotateStep, lemma_log_slot,
};
use crate::model;
use crate::model::CharSet;
use crate::process::{extract_web_url, web_url_in};
use vstd::prelude::*;

verus! {

/// A line of the log says when, by whom and how gravely something was said, and what; it goes into the
/// file of its day, and a file that would grow beyond ten megabytes is rotated first.
pub proof fn law_lines_say_what_was_said(
    it: &mut LogState,
    date: String,
    time: String,
    source: LogSource,
    level: LogLevel,
    msg: &str,
    r: LogWrite,
)
    requires
        call_ensures(LogState::prepare, (it, date, time, source, level, msg), r),
    ensures
        r.file@ == date@ + ".log"@,
        model::starts_with(r.line@, "["@ + time@ + "] "@),
        model::ends_with(r.line@, "] "@ + msg@ + "\n"@),
        model::occurs(
            r.line@,
            if source is Dsh {
                "[dsh]"@
            } else {
                "[launcher]"@
            },
        ),
        model::occurs(
            r.line@,
            match level {
                LogLevel::Info => "[INFO]"@,
                LogLevel::Warn => "[WARN]"@,
                LogLevel::Error => "[ERROR]"@,
            },
        ),
        r.rotate <==> (if old(it).current_date@ == date@ {
            old(it).current_size as int
        } else {
            0
        }) + model::byte_len(r.line@) > 10_485_760,
        r.rotate ==> final(it).current_size == 0,
        final(it).current_date@ == date@,
        r.shown.message@ == msg@,
{
    reveal_strlit("[");
    reveal_strlit("] [");
    reveal_strlit("] ");
    reveal_strlit("\n");
    reveal_strlit("dsh");
    reveal_strlit("launcher");
    reveal_strlit("[dsh]");
    reveal_strlit("[launcher]");
    reveal_strlit("INFO");
    reveal_strlit("WARN");
    reveal_strlit("ERROR");
    reveal_strlit("[INFO]");
    reveal_strlit("[WARN]");
    reveal_strlit("[ERROR]");
    reveal_strlit(" [");
    reveal_strlit(" ");
    let head = "["@ + time@ + "] "@;
    assert(r.line@.subrange(0, head.len() as int) =~= head);
    let tail = "] "@ + msg@ + "\n"@;
    assert(r.line@.subrange(r.line@.len() - tail.len(), r.line@.len() as int) =~= tail);
    let who = if source is Dsh {
        "[dsh]"@
    } else {
        "[launcher]"@
    };
    assert(who =~= "["@ + source.name() + seq![']']);
    let rest = " ["@ + level.name() + tail;
    assert(r.line@ =~= head + who + rest);
    model::lemma_occurs(r.line@, head, who, rest);
    let grave = match level {
        LogLevel::Info => "[INFO]"@,
        LogLevel::Warn => "[WARN]"@,
        LogLevel::Error => "[ERROR]"@,
    };
    assert(grave =~= "["@ + level.name() + seq![']']);
    let end = " "@ + msg@ + "\n"@;
    assert(r.line@ =~= (head + who + " "@) + grave + end);
    model::lemma_occurs(r.line@, head + who + " "@, grave, end);
}

/// What is in the file is counted: a line that was written adds its length.
pub proof fn law_written_lines_count(it: &mut LogState, write: &LogWrite)
    requires
        old(it).current_size + model::byte_len(write.line@) <= u64::MAX,
        call_ensures(LogState::written, (it, write), ()),
    ensures
        final(it).current_size == old(it).current_size + model::byte_len(write.line@),
        final(it).current_date == old(it).current_date,
{
}

/// A rotation makes every part one older; five older parts are kept, and the oldest goes.
pub proof fn law_rotations_make_room<T>(r: Vec<RotateStep>, parts: Map<u32, T>, i: u32)
    requires
        call_ensures(rotate, (), r),
        1 <= i <= 5,
    ensures
        ({
            let now = after_steps(parts, r@, r@.len() as int);
            &&& !now.dom().contains(0)
            &&& now.dom().contains(i) <==> parts.dom().contains((i - 1) as u32)
            &&& parts.dom().contains((i - 1) as u32) ==> now[i] == parts[(i - 1) as u32]
        }),
{
    law_rotation_shifts(parts, i);
    assert(r@.len() == 6);
}

/// The parts of a day's log have names of their own.
pub proof fn law_parts_have_their_own_names(date: &str, a: u32, b: u32, first: String, second: String)
    requires
        call_ensures(part_name, (date, a), first),
        call_ensures(part_name, (date, b), second),
        first@ == second@,
    ensures
        a == b,
        a == 0 ==> first@ == date@ + ".log"@,
{
    reveal_strlit(".log");
    reveal_strlit(".log.");
    crate::dates::lemma_decimal(a as nat);
    crate::dates::lemma_decimal(b as nat);
    let n = date@.len() as int;
    assert(".log"@.len() == 4 && ".log."@.len() == 5);
    assert(a == 0 ==> first@.len() == n + 4);
    assert(a != 0 ==> first@.len() == n + 5 + model::decimal(a as nat).len());
    assert(b == 0 ==> second@.len() == n + 4);
    assert(b != 0 ==> second@.len() == n + 5 + model::decimal(b as nat).len());
    if a != 0 && b != 0 {
        assert(first@.skip(n + 5) =~= model::decimal(a as nat));
        assert(second@.skip(n + 5) =~= model::decimal(b as nat));
    }
}

/// A log is removed exactly where the day in its name lies more than 30 days before today.
pub proof fn law_logs_are_kept_for_thirty_days(
    day: i64,
    now: i64,
    date: String,
    today: String,
    name: &str,
    seen_on: &str,
    b: bool,
)
    requires
        0 <= day <= u64::MAX / 86400,
        0 <= now <= u64::MAX / 86400,
        call_ensures(epoch_to_date, (day,), date),
        call_ensures(epoch_to_date, (now,), today),
        model::byte_len(date@) == 10,
        name@ == date@ + ".log"@,
        seen_on@ == today@,
        call_ensures(is_expired, (name, false, seen_on), b),
    ensures
        b <==> now - day > 30,
{
    law_dates_are_read_back(day as int);
    law_dates_are_read_back(now as int);
    let p = ".log"@;
    reveal_strlit(".log");
    assert(name@.subrange(name@.len() - p.len(), name@.len() as int) =~= p);
    assert(name@.take(name@.len() - p.len()) =~= date@);
}

/// A day that is written as a date is read as that day, and of two days the earlier is the older.
pub proof fn law_days_survive(
    day: i64,
    other: i64,
    date: String,
    text: &str,
    r: Option<i64>,
    second: String,
    later: &str,
    days: i64,
    b: bool,
)
    requires
        0 <= day <= u64::MAX / 86400,
        0 <= other <= u64::MAX / 86400,
        call_ensures(epoch_to_date, (day,), date),
        text@ == date@,
        call_ensures(date_to_days, (text,), r),
        call_ensures(epoch_to_date, (other,), second),
        later@ == second@,
        call_ensures(is_older_than, (text, later, days), b),
    ensures
        r == Some(day),
        b <==> other - day > days,
{
    law_dates_are_read_back(day as int);
    law_dates_are_read_back(other as int);
}

/// The clock shows the day and the hour, minute and second of a moment, two digits each.
pub proof fn law_the_clock_shows_the_moment(secs: u64, r: (String, String), date: String, day: i64)
    requires
        call_ensures(chrono_now, (secs,), r),
        day == secs / 86400,
        call_ensures(epoch_to_date, (day,), date),
    ensures
        r.0@ == date@,
        exists|h: nat, m: nat, s: nat|
            #![trigger zero_padded(h, 2), zero_padded(m, 2), zero_padded(s, 2)]
            h < 24 && m < 60 && s < 60 && 3600 * h + 60 * m + s == secs % 86400 && r.1@
                == zero_padded(h, 2) + ":"@ + zero_padded(m, 2) + ":"@ + zero_padded(s, 2),
{
    let n = secs as int;
    let h = (n % 86400 / 3600) as nat;
    let m = (n % 3600 / 60) as nat;
    let s = (n % 60) as nat;
    lemma_clock(n);
    assert(r.1@ == zero_padded(h, 2) + ":"@ + zero_padded(m, 2) + ":"@ + zero_padded(s, 2));
}

proof fn lemma_clock(n: int)
    requires
        0 <= n,
    ensures
        0 <= n % 86400 / 3600 < 24,
        0 <= n % 3600 / 60 < 60,
        0 <= n % 60 < 60,
        3600 * (n % 86400 / 3600) + 60 * (n % 3600 / 60) + n % 60 == n % 86400,
{
}

proof fn lemma_last_url(lines: Seq<Seq<char>>, n: int)
    requires
        0 <= n <= lines.len(),
    ensures
        match last_url(lines, n) {
            Some(u) => exists|i: int|
                0 <= i < n && web_url_in(#[trigger] lines[i]) == Some(u) && (forall|j: int|
                    i < j < n ==> web_url_in(#[trigger] lines[j]) is None),
            None => forall|j: int| 0 <= j < n ==> web_url_in(#[trigger] lines[j]) is None,
        },
    decreases n,
{
    if n > 0 {
        if web_url_in(lines[n - 1]) is Some {
            assert(web_url_in(lines[n - 1]) == last_url(lines, n));
        } else {
            lemma_last_url(lines, n - 1);
            if last_url(lines, n - 1) is Some {
                let i = choose|i: int|
                    0 <= i < n - 1 && web_url_in(#[trigger] lines[i]) == last_url(lines, n - 1) && (
                    forall|j: int| i < j < n - 1 ==> web_url_in(#[trigger] lines[j]) is None);
                assert(web_url_in(lines[i]) == last_url(lines, n));
            }
        }
    }
}

/// The address that is recovered from a log is the last one that stands in it.
pub proof fn law_the_last_address_counts(content: &str, r: Option<String>, i: int, line: &str, u: Option<String>)
    requires
        call_ensures(find_web_url_in_content, (content,), r),
        0 <= i < model::lines(content@).len(),
        line@ == model::lines(content@)[i],
        call_ensures(extract_web_url, (line,), u),
    ensures
        u is Some ==> r is Some,
        u is Some && (forall|j: int|
            i < j < model::lines(content@).len() ==> web_url_in(
                #[trigger] model::lines(content@)[j],
            ) is None) ==> (r->0)@ == (u->0)@,
{
    let lines = model::lines(content@);
    lemma_last_url(lines, lines.len() as int);
    if u is Some {
        assert(web_url_in(lines[i]) is Some);
    }
}

proof fn lemma_listed(entries: Seq<LogEntry>, f: LogFileText)
    ensures
        listed_logs(entries).contains(f) <==> exists|i: int|
            0 <= i < entries.len() && log_name((#[trigger] entries[i]).name@) && shown_entry(entries[i])
                == f,
    decreases entries.len(),
{
    let all = listed_logs(entries);
    if entries.len() > 0 {
        let init = entries.drop_last();
        let row = listed_logs(init);
        let n = entries.len() - 1;
        lemma_listed(init, f);
        let e = entries.last();
        let g = shown_entry(e);
        if log_name(e.name@) {
            lemma_log_slot(row, g, 0);
            let at = log_slot(row, g, 0);
            assert(all == row.insert(at, g));
            assert(all[at] == g);
            if all.contains(f) {
                let k = choose|k: int| 0 <= k < all.len() && all[k] == f;
                if k < at {
                    assert(row[k] == f);
                } else if k > at {
                    assert(row[k - 1] == f);
                } else {
                    assert(entries[n] == e);
                }
            }
            if row.contains(f) {
                let k = choose|k: int| 0 <= k < row.len() && row[k] == f;
                assert(all[if k < at { k } else { k + 1 }] == f);
            }
        }
        if row.contains(f) {
            let i = choose|i: int|
                0 <= i < init.len() && log_name((#[trigger] init[i]).name@) && shown_entry(init[i]) == f;
            assert(entries[i] == init[i]);
        }
        if exists|i: int|
            0 <= i < entries.len() && log_name((#[trigger] entries[i]).name@) && shown_entry(entries[i])
                == f {
            let i = choose|i: int|
                0 <= i < entries.len() && log_name((#[trigger] entries[i]).name@) && shown_entry(
                    entries[i],
                ) == f;
            if i < n {
                assert(init[i] == entries[i]);
            }
        }
    }
}

/// Every log is listed with its own size and time, nothing but logs is, and the latest stand first.
pub proof fn law_logs_are_listed(entries: &Vec<LogEntry>, r: Vec<LogFile>, i: int)
    requires
        call_ensures(list_logs, (entries,), r),
        0 <= i < entries@.len(),
    ensures
        (exists|k: int|
            0 <= k < r@.len() && (#[trigger] r@[k]).size == entries@[i].size && r@[k].modified
                == entries@[i].modified && model::ends_with(r@[k].path@, entries@[i].name@))
            || !log_name(entries@[i].name@),
        forall|a: int, b: int|
            0 <= a < b < r@.len() ==> (#[trigger] r@[a]).modified >= (#[trigger] r@[b]).modified,
        forall|k: int|
            0 <= k < r@.len() ==> exists|j: int|
                0 <= j < entries@.len() && log_name((#[trigger] entries@[j]).name@)
                    && model::ends_with((#[trigger] r@[k]).path@, entries@[j].name@) && r@[k].size
                    == entries@[j].size,
{
    let all = log_texts(r@);
    assert(all.len() == r@.len());
    let f = shown_entry(entries@[i]);
    lemma_listed(entries@, f);
    lemma_shown(entries@[i]);
    if log_name(entries@[i].name@) {
        let k = choose|k: int| 0 <= k < all.len() && all[k] == f;
        assert(all[k] == r@[k]@);
    }
    assert forall|a: int, b: int| 0 <= a < b < r@.len() implies (#[trigger] r@[a]).modified >= (
    #[trigger] r@[b]).modified by {
        law_latest_logs_come_first(entries@, a, b);
        assert(all[a] == r@[a]@ && all[b] == r@[b]@);
    }
    assert forall|k: int| 0 <= k < r@.len() implies exists|j: int|
        0 <= j < entries@.len() && log_name((#[trigger] entries@[j]).name@) && model::ends_with(
            (#[trigger] r@[k]).path@,
            entries@[j].name@,
        ) && r@[k].size == entries@[j].size by {
        assert(all[k] == r@[k]@);
        lemma_listed(entries@, all[k]);
        assert(all.contains(all[k]));
        let j = choose|j: int|
            0 <= j < entries@.len() && log_name((#[trigger] entries@[j]).name@) && shown_entry(
                entries@[j],
            ) == all[k];
        lemma_shown(entries@[j]);
        assert(log_name(entries@[j].name@));
    }
}

proof fn lemma_shown(e: LogEntry)
    ensures
        model::ends_with(shown_entry(e).path, e.name@),
{
    let p = shown_entry(e).path;
    assert(p.subrange(p.len() - e.name@.len(), p.len() as int) =~= e.name@);
}

/// A file is a log exactly where its name ends with `.log` and has something before it.
pub proof fn law_logs_are_told_by_their_ending(entry: LogEntry, entries: &Vec<LogEntry>, r: Vec<LogFile>)
    requires
        entries@ == seq![entry],
        call_ensures(list_logs, (entries,), r),
    ensures
        r@.len() == 1 <==> entry.name@.len() > 4 && model::ends_with(entry.name@, ".log"@),
        r@.len() <= 1,
{
    let name = entry.name@;
    lemma_log_name(name);
    let all = log_texts(r@);
    assert(all.len() == r@.len());
    reveal_with_fuel(listed_logs, 2);
    assert(entries@.drop_last() =~= seq![]);
    assert(listed_logs(entries@.drop_last()) =~= seq![]);
    lemma_log_slot(seq![], shown_entry(entry), 0);
}

proof fn lemma_log_name(name: Seq<char>)
    ensures
        log_name(name) <==> name.len() > 4 && model::ends_with(name, ".log"@),
{
    let k = CharSet::Only('.');
    let p = ".log"@;
    reveal_strlit(".log");
    reveal_strlit("log");
    let n = name.len() as int;
    lemma_last_dot(name, n);
    let at = model::last_in(name, k, n);
    if log_name(name) {
        let t = name.skip(at + 1);
        assert(t.len() == n - at - 1);
        assert(t[0] == 'l' && t[1] == 'o' && t[2] == 'g');
        assert(at == n - 4 && name.take(at).len() == at);
        assert(name[n - 3] == t[0] && name[n - 2] == t[1] && name[n - 1] == t[2]);
        let u = name.subrange(n - 4, n);
        assert(u[0] == p[0] && u[1] == p[1] && u[2] == p[2] && u[3] == p[3]);
        assert(u =~= p);
    }
    if n > 4 && model::ends_with(name, p) {
        let t = name.subrange(n - 4, n);
        assert(t[0] == name[n - 4] && t[1] == name[n - 3] && t[2] == name[n - 2] && t[3] == name[n - 1]);
        if at > n - 4 {
            assert(name[at] == '.');
        }
        if at < n - 4 {
            assert(!k.has(name[n - 4]));
        }
        assert(name.skip(at + 1) =~= "log"@);
    }
}

proof fn lemma_last_dot(s: Seq<char>, to: int)
    requires
        0 <= to <= s.len(),
    ensures
        ({
            let at = model::last_in(s, CharSet::Only('.'), to);
            &&& -1 <= at < to
            &&& at >= 0 ==> s[at] == '.'
            &&& forall|i: int| at < i < to ==> !CharSet::Only('.').has(#[trigger] s[i])
        }),
    decreases to,
{
    if to > 0 && s[to - 1] != '.' {
        lemma_last_dot(s, to - 1);
    }
}

} // verus!
