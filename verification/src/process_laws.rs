//! What holds of every look at the processes of the machine.

use crate::dates::lemma_decimal;
use crate::model;
use crate::model::CharSet;
use crate::process::{
    bare_word, byte_lines, classify_listener, command_line_query, complaint, complaints, full_lines,
    inactive_entries, inspect_lock, is_service_line, listener_query, open_line, output_line,
    parse_lock_holder_pid, pid_by_port, port_listener_looks_like_dsh, process_alive,
    process_looks_like_dsh, tasklist_has_pid, DshStatus, Listener, LockStep, TailSplitter,
    starting_convergence, cmdline_looks_like_dsh, extract_web_url,
};
use vstd::prelude::*;

verus! {

/// A listener counts as the started service only by its own pid, as another service only by its
/// looks; what cannot be told is not the service.
pub proof fn law_listeners_are_told_apart(
    pid: u32,
    port: u16,
    in_use: bool,
    listener: Option<u32>,
    looks: bool,
    r: Listener,
    owned: bool,
)
    requires
        call_ensures(classify_listener, (pid, port, in_use, listener, looks), r),
        call_ensures(Listener::is_owned, (r,), owned),
    ensures
        r is Managed ==> listener == Some(pid) && pid != 0 && in_use && port != 0,
        r is Adopted ==> looks && listener is Some && in_use,
        r is Foreign ==> !looks && listener is Some && in_use,
        r is Vacant <==> port == 0 || !in_use || listener is None,
        owned <==> r is Managed || r is Adopted,
        owned ==> listener is Some && (looks || listener == Some(pid)),
{
}

/// A starting service runs once its port is ready, has stopped where its process is gone, and is
/// waited for in between.
pub proof fn law_starts_converge(ready: bool, alive: bool, r: Option<DshStatus>)
    requires
        call_ensures(starting_convergence, (ready, alive), r),
    ensures
        r == Some(DshStatus::Running) <==> ready,
        r == Some(DshStatus::Stopped) <==> !ready && !alive,
        r is None <==> !ready && alive,
{
}

/// Only a command line that names the service's package or entry, or runs its web interface, looks
/// like the service; a process whose command line is not known does not.
pub proof fn law_what_looks_like_the_service(
    line: &str,
    b: bool,
    unknown: bool,
    port: u16,
    in_use: bool,
    listener: Option<u32>,
    seen: bool,
    whole: bool,
)
    requires
        call_ensures(is_service_line, (line,), b),
        call_ensures(process_looks_like_dsh, (None::<&str>,), unknown),
        call_ensures(port_listener_looks_like_dsh, (port, in_use, listener, Some(line)), seen),
        call_ensures(cmdline_looks_like_dsh, (line,), whole),
    ensures
        !model::blank(line@) && (model::contains(line@, "deepseek-harness"@) || model::contains(
            line@,
            "@deepseek-ai"@,
        ) || model::contains(line@, "bin.ts"@)) ==> b,
        b && !model::contains(line@, "deepseek-harness"@) && !model::contains(line@, "@deepseek-ai"@)
            && !model::contains(line@, "bin.ts"@) ==> exists|i: int|
            0 <= i < model::words(line@).len() && #[trigger] bare_word(line@, i) == "web"@,
        model::blank(line@) ==> !b,
        !unknown,
        seen ==> port != 0 && in_use && listener is Some && whole,
{
}

/// The pid of a listener is the number that was printed, and the query asks for the port that is
/// meant.
pub proof fn law_listeners_are_found_by_port(
    success: bool,
    output: &str,
    r: Option<u32>,
    port: u16,
    query: String,
    pid: u32,
    ask: Option<String>,
)
    requires
        call_ensures(pid_by_port, (success, output), r),
        call_ensures(listener_query, (port,), query),
        call_ensures(command_line_query, (pid,), ask),
    ensures
        r is Some ==> success && model::parse_unsigned(model::trim(output@), u32::MAX as nat) == Some(
            r->0 as nat,
        ),
        !success ==> r is None,
        model::occurs(query@, "-LocalPort "@ + model::decimal(port as nat) + " "@),
        ask is None <==> pid == 0,
        ask is Some ==> model::occurs((ask->0)@, "ProcessId = "@ + model::decimal(pid as nat) + "\""@),
{
    reveal_strlit("(Get-NetTCPConnection -LocalPort ");
    reveal_strlit("(Get-NetTCPConnection ");
    reveal_strlit("-LocalPort ");
    reveal_strlit(" -State Listen | Select-Object -First 1 -ExpandProperty OwningProcess)");
    reveal_strlit("-State Listen | Select-Object -First 1 -ExpandProperty OwningProcess)");
    reveal_strlit(" ");
    let a = "-LocalPort "@ + model::decimal(port as nat) + " "@;
    let b = "-State Listen | Select-Object -First 1 -ExpandProperty OwningProcess)"@;
    assert(query@ =~= "(Get-NetTCPConnection "@ + a + b);
    model::lemma_occurs(query@, "(Get-NetTCPConnection "@, a, b);
    if ask is Some {
        reveal_strlit("(Get-CimInstance Win32_Process -Filter \"ProcessId = ");
        reveal_strlit("(Get-CimInstance Win32_Process -Filter \"");
        reveal_strlit("ProcessId = ");
        reveal_strlit("\" | Select-Object -ExpandProperty CommandLine)");
        reveal_strlit("\"");
        reveal_strlit(" | Select-Object -ExpandProperty CommandLine)");
        let c = "ProcessId = "@ + model::decimal(pid as nat) + "\""@;
        let d = " | Select-Object -ExpandProperty CommandLine)"@;
        assert((ask->0)@ =~= "(Get-CimInstance Win32_Process -Filter \""@ + c + d);
        model::lemma_occurs((ask->0)@, "(Get-CimInstance Win32_Process -Filter \""@, c, d);
    }
}

/// A process is alive exactly where a line of the task list has its pid in the second column.
pub proof fn law_the_task_list_decides(output: &str, pid: u32, b: bool, alive: bool, gone: bool)
    requires
        call_ensures(tasklist_has_pid, (output, pid), b),
        call_ensures(process_alive, (pid, Some(output)), alive),
        call_ensures(process_alive, (pid, None::<&str>), gone),
    ensures
        b <==> exists|i: int|
            0 <= i < model::lines(output@).len() && #[trigger] model::words(
                model::lines(output@)[i],
            ).len() >= 2 && model::parse_unsigned(
                model::words(model::lines(output@)[i])[1],
                u32::MAX as nat,
            ) == Some(pid as nat),
        alive <==> pid != 0 && b,
        !gone,
{
    let lines = model::lines(output@);
    if b {
        let i = choose|i: int|
            0 <= i < lines.len() && crate::process::task_line(#[trigger] lines[i], pid as nat);
        assert(model::words(lines[i]).len() >= 2);
    }
    if exists|i: int|
        0 <= i < lines.len() && #[trigger] model::words(lines[i]).len() >= 2 && model::parse_unsigned(
            model::words(lines[i])[1],
            u32::MAX as nat,
        ) == Some(pid as nat) {
        let i = choose|i: int|
            0 <= i < lines.len() && #[trigger] model::words(lines[i]).len() >= 2
                && model::parse_unsigned(model::words(lines[i])[1], u32::MAX as nat) == Some(
                pid as nat,
            );
        assert(crate::process::task_line(lines[i], pid as nat));
    }
}

/// A lock is removed at once only where it names no holder; else it is asked whether that one is
/// alive.
pub proof fn law_locks_of_the_living_stay(raw: &str, holder: Option<u32>, r: LockStep, unread: LockStep)
    requires
        call_ensures(parse_lock_holder_pid, (raw,), holder),
        call_ensures(inspect_lock, (Some(raw),), r),
        call_ensures(inspect_lock, (None::<&str>,), unread),
    ensures
        r is Remove <==> holder is None,
        holder is Some ==> r == LockStep::Ask(holder->0),
        unread is Remove,
{
}

/// The holder of a lock is the number behind its name in the file.
pub proof fn law_holders_are_read(raw: &str, r: Option<u32>, pid: u32, after: Seq<char>)
    requires
        call_ensures(parse_lock_holder_pid, (raw,), r),
        raw@ == "{\"pid\":"@ + model::decimal(pid as nat) + after,
        after.len() > 0,
        !model::digit(after[0]),
    ensures
        r == Some(pid),
{
    let d = model::decimal(pid as nat);
    lemma_decimal(pid as nat);
    reveal_strlit("{\"pid\":");
    reveal_strlit("\"pid\"");
    let s = raw@;
    let p = "\"pid\""@;
    assert(s.subrange(1, 6) =~= p);
    assert(!model::matches_at(s, p, 0)) by {
        if model::matches_at(s, p, 0) {
            assert(s.subrange(0, 5)[0] == s[0]);
        }
    }
    model::lemma_find_at_is(s, p, 0, 1);
    let rest = s.skip(6);
    let k = CharSet::Digit;
    assert(rest[0] == ':');
    assert(rest[1] == d[0] && model::digit(d[0]));
    assert(model::first_in(rest, k, 0) == model::first_in(rest, k, 1));
    assert(model::first_in(rest, k, 1) == 1);
    model::lemma_first_not_in(rest, k, 1);
    let to = model::first_not_in(rest, k, 1);
    let n = d.len() as int;
    assert(rest[n + 1] == after[0]);
    if to < n + 1 {
        assert(rest[to] == d[to - 1]);
        assert(model::digit(d[to - 1]));
    }
    if to > n + 1 {
        assert(k.has(rest[n + 1]));
    }
    assert(to == n + 1);
    assert(rest.subrange(1, n + 1) =~= d);
    assert(d[0] != '+');
}

proof fn lemma_complaints(lines: Seq<Seq<char>>, line: Seq<char>)
    ensures
        complaints(lines).contains(line) <==> exists|i: int|
            0 <= i < lines.len() && model::trim(#[trigger] lines[i]) == line && complaint(line),
    decreases lines.len(),
{
    let out = complaints(lines);
    if lines.len() > 0 {
        let init = lines.drop_last();
        let rest = complaints(init);
        let n = lines.len() - 1;
        lemma_complaints(init, line);
        if out.contains(line) {
            let k = choose|k: int| 0 <= k < out.len() && out[k] == line;
            if k < rest.len() {
                assert(rest[k] == line);
                let i = choose|i: int|
                    0 <= i < init.len() && model::trim(#[trigger] init[i]) == line && complaint(line);
                assert(lines[i] == init[i]);
            } else {
                assert(model::trim(lines[n]) == line);
            }
        }
        if exists|i: int|
            0 <= i < lines.len() && model::trim(#[trigger] lines[i]) == line && complaint(line) {
            let i = choose|i: int|
                0 <= i < lines.len() && model::trim(#[trigger] lines[i]) == line && complaint(line);
            if i < n {
                assert(init[i] == lines[i]);
                let k = choose|k: int| 0 <= k < rest.len() && rest[k] == line;
                assert(out[k] == line);
            } else {
                assert(out[rest.len() as int] == line);
            }
        }
    }
}

/// The complaints of the service are exactly its lines that say that a part did not come up.
pub proof fn law_complaints_are_found(output: &str, r: Vec<String>, i: int)
    requires
        call_ensures(inactive_entries, (output,), r),
        0 <= i < model::lines(output@).len(),
    ensures
        ({
            let line = model::trim(model::lines(output@)[i]);
            model::texts(r@).contains(line) <==> model::contains(line, "did not activate"@)
                || model::contains(line, "): pending"@) || model::contains(line, "): failed"@)
                || model::contains(line, "failed to import"@)
        }),
        forall|k: int|
            0 <= k < r@.len() ==> exists|j: int|
                0 <= j < model::lines(output@).len() && model::trim(
                    #[trigger] model::lines(output@)[j],
                ) == (#[trigger] r@[k])@,
{
    let lines = model::lines(output@);
    let line = model::trim(lines[i]);
    let found = model::texts(r@);
    lemma_complaints(lines, line);
    assert forall|k: int| 0 <= k < r@.len() implies exists|j: int|
        0 <= j < lines.len() && model::trim(#[trigger] lines[j]) == (#[trigger] r@[k])@ by {
        assert(found[k] == r@[k]@);
        lemma_complaints(lines, found[k]);
        assert(found.contains(found[k]));
    }
}

// ---- What the service prints ----

proof fn lemma_full_append(a: Seq<u8>, b: Seq<u8>)
    requires
        open_line(a).len() == 0,
    ensures
        full_lines(a + b) == full_lines(a) + full_lines(b),
        open_line(a + b) == open_line(b),
    decreases b.len(),
{
    if b.len() == 0 {
        assert(a + b =~= a);
        assert(full_lines(a) + full_lines(b) =~= full_lines(a));
        assert(open_line(a) =~= open_line(b));
    } else {
        let init = b.drop_last();
        assert((a + b).drop_last() =~= a + init);
        assert((a + b).last() == b.last());
        lemma_full_append(a, init);
        if b.last() == 10 && open_line(init).len() > 0 {
            assert((full_lines(a) + full_lines(init)).push(open_line(init)) =~= full_lines(a) + (
            full_lines(init).push(open_line(init))));
        }
    }
}

/// What the service prints is handed on line by line, as soon as a line is whole: a piece that ends
/// with a line feed is handed on completely.
pub proof fn law_whole_lines_are_handed_on(it: &mut TailSplitter, bytes: &Vec<u8>, r: Vec<Vec<u8>>)
    requires
        old(it).wf(),
        call_ensures(TailSplitter::feed, (it, bytes), r),
        open_line(old(it).seen()).len() == 0,
        bytes@.len() > 0,
        forall|i: int| 0 <= i < bytes@.len() - 1 ==> #[trigger] bytes@[i] != 10,
        bytes@.last() == 10,
    ensures
        bytes@.len() == 1 ==> r@.len() == 0,
        bytes@.len() > 1 ==> r@.len() == 1 && r@[0]@ == bytes@.drop_last(),
        final(it).wf(),
        final(it).seen() == old(it).seen() + bytes@,
{
    let line = bytes@.drop_last();
    lemma_full_append(old(it).seen(), bytes@);
    assert forall|i: int| 0 <= i < line.len() implies #[trigger] line[i] != 10 by {
        assert(line[i] == bytes@[i]);
    }
    lemma_one_open(line);
    let given = byte_lines(r@);
    let was = full_lines(old(it).seen());
    assert(was + given == was + full_lines(bytes@));
    assert((was + given).skip(was.len() as int) =~= given);
    assert((was + full_lines(bytes@)).skip(was.len() as int) =~= full_lines(bytes@));
    assert(given.len() == r@.len());
    if line.len() > 0 {
        assert(full_lines(bytes@) =~= seq![line]);
        assert(given[0] == r@[0]@);
    } else {
        assert(full_lines(bytes@) =~= seq![]);
    }
}

proof fn lemma_one_open(line: Seq<u8>)
    requires
        forall|i: int| 0 <= i < line.len() ==> #[trigger] line[i] != 10,
    ensures
        full_lines(line).len() == 0,
        open_line(line) == line,
    decreases line.len(),
{
    if line.len() > 0 {
        let init = line.drop_last();
        assert forall|i: int| 0 <= i < init.len() implies #[trigger] init[i] != 10 by {
            assert(init[i] == line[i]);
        }
        lemma_one_open(init);
        assert(line[line.len() - 1] == line.last());
        assert(init.push(line.last()) =~= line);
    } else {
        assert(line =~= seq![]);
    }
}

/// A line is logged as it is, but for carriage returns at its end.
pub proof fn law_lines_are_logged_as_they_are(raw: &str, r: String)
    requires
        call_ensures(output_line, (raw,), r),
    ensures
        model::starts_with(raw@, r@),
        r@.len() > 0 ==> r@.last() != '\r',
        forall|i: int| r@.len() <= i < raw@.len() ==> #[trigger] raw@[i] == '\r',
{
    let k = CharSet::Only('\r');
    model::lemma_back_over(raw@, k, raw@.len() as int);
    assert(raw@.subrange(0, r@.len() as int) =~= r@);
}

/// A command line that runs the service's command with its web interface looks like the service.
pub proof fn law_the_web_command_looks_like_the_service(line: &str, b: bool, i: int, j: int)
    requires
        call_ensures(is_service_line, (line,), b),
        !model::blank(line@),
        0 <= i < model::words(line@).len(),
        0 <= j < model::words(line@).len(),
        bare_word(line@, i) == "dsh"@ || bare_word(line@, i) == "dsh.cmd"@,
        bare_word(line@, j) == "web"@,
    ensures
        b,
{
    assert(crate::process::command_word(bare_word(line@, i)));
    assert(crate::process::has_command(line@));
    assert(crate::process::has_web(line@));
}

/// A command line that looks like the service's names its package or its entry, or has the word
/// `web` together with the command or with `--no-open`.
pub proof fn law_what_the_service_is_known_by(line: &str, b: bool)
    requires
        call_ensures(is_service_line, (line,), b),
        !model::contains(line@, "deepseek-harness"@),
        !model::contains(line@, "bin.ts"@),
        !model::contains(line@, "@deepseek-ai"@),
    ensures
        b ==> exists|i: int|
            0 <= i < model::words(line@).len() && #[trigger] bare_word(line@, i) == "web"@,
        b && !model::contains(line@, "--no-open"@) ==> exists|i: int|
            0 <= i < model::words(line@).len() && {
                ||| #[trigger] bare_word(line@, i) == "dsh"@
                ||| bare_word(line@, i) == "dsh.cmd"@
                ||| model::ends_with(bare_word(line@, i), "\\dsh"@)
                ||| model::ends_with(bare_word(line@, i), "\\dsh.cmd"@)
            },
{
    if b && !model::contains(line@, "--no-open"@) {
        let i = choose|i: int|
            0 <= i < model::words(line@).len() && crate::process::command_word(
                #[trigger] bare_word(line@, i),
            );
        assert(crate::process::command_word(bare_word(line@, i)));
    }
}

/// The address that is read from a line stands in it, at this machine, with a token, up to the
/// first white space.
pub proof fn law_addresses_end_at_white_space(
    line: &str,
    r: Option<String>,
    before: Seq<char>,
    url: Seq<char>,
    after: Seq<char>,
)
    requires
        call_ensures(extract_web_url, (line,), r),
        line@ == before + url + after,
        model::find(line@, "http://127.0.0.1:"@) == Some(before.len() as int),
        forall|i: int| 0 <= i < url.len() ==> !model::white(#[trigger] url[i]),
        after.len() == 0 || model::white(after[0]),
    ensures
        model::contains(url, "token="@) ==> r is Some && (r->0)@ == url,
        !model::contains(url, "token="@) ==> r is None,
{
    let k = CharSet::White;
    let rest = line@.skip(before.len() as int);
    assert(rest =~= url + after);
    model::lemma_first_in(rest, k, 0);
    let n = model::first_in(rest, k, 0);
    if n < url.len() {
        assert(rest[n] == url[n]);
    }
    if n > url.len() {
        assert(rest[url.len() as int] == after[0]);
        assert(!k.has(rest[url.len() as int]));
    }
    assert(rest.take(n) =~= url);
}

} // verus!
