//! Telling the service's process apart from others, and reading what it prints.

use crate::model;
use crate::model::CharSet;
use crate::text;
use crate::text::lowercase;
use vstd::prelude::*;

verus! {

/// The states of the service.
#[derive(Debug, Clone, Copy, PartialEq, Eq, Structural)]
pub enum DshStatus {
    Stopped,
    Starting,
    Running,
    Stopping,
    Error,
}

/// Who listens on a port.
#[derive(Debug, Clone, Copy, PartialEq, Eq, Structural)]
pub enum Listener {
    /// Nobody.
    Vacant,
    /// The very process that this launcher started.
    Managed,
    /// The service, but not that process.
    Adopted,
    /// Something else.
    Foreign,
}

impl Listener {
    /// The listener shows that the service is ready.
    pub open spec fn owned(self) -> bool {
        self == Listener::Managed || self == Listener::Adopted
    }

    pub fn is_owned(self) -> (b: bool)
        ensures
            b == self.owned(),
    {
        matches!(self, Listener::Managed | Listener::Adopted)
    }
}

/// Who listens on a port, given the pid of the listener and whether it looks like the service. What
/// cannot be told is not the service.
pub fn classify_listener(
    pid: u32,
    port: u16,
    in_use: bool,
    listener: Option<u32>,
    looks_like_dsh: bool,
) -> (r: Listener)
    ensures
        r == if port == 0 || !in_use || listener is None {
            Listener::Vacant
        } else if pid != 0 && listener == Some(pid) {
            Listener::Managed
        } else if looks_like_dsh {
            Listener::Adopted
        } else {
            Listener::Foreign
        },
{
    if port == 0 || !in_use {
        return Listener::Vacant;
    }
    match listener {
        None => Listener::Vacant,
        Some(found) => if pid != 0 && found == pid {
            Listener::Managed
        } else if looks_like_dsh {
            Listener::Adopted
        } else {
            Listener::Foreign
        },
    }
}

/// What becomes of a starting service at one look; `None` where it is to be waited for.
pub open spec fn converged(port_ready: bool, process_alive: bool) -> Option<DshStatus> {
    if port_ready {
        Some(DshStatus::Running)
    } else if !process_alive {
        Some(DshStatus::Stopped)
    } else {
        None
    }
}

pub fn starting_convergence(port_ready: bool, process_alive: bool) -> (r: Option<DshStatus>)
    ensures
        r == converged(port_ready, process_alive),
{
    if port_ready {
        Some(DshStatus::Running)
    } else if !process_alive {
        Some(DshStatus::Stopped)
    } else {
        None
    }
}

// ---- Command lines ----

/// A word that names the service's command.
pub open spec fn command_word(word: Seq<char>) -> bool {
    ||| word == "dsh"@
    ||| word == "dsh.cmd"@
    ||| model::ends_with(word, "\\dsh"@)
    ||| model::ends_with(word, "\\dsh.cmd"@)
}

/// The words of a command line, without the quotes around them.
pub open spec fn bare_word(line: Seq<char>, i: int) -> Seq<char> {
    model::trim_set(model::words(line)[i], CharSet::Only('"'))
}

pub open spec fn has_command(line: Seq<char>) -> bool {
    exists|i: int| 0 <= i < model::words(line).len() && command_word(#[trigger] bare_word(line, i))
}

pub open spec fn has_web(line: Seq<char>) -> bool {
    exists|i: int| 0 <= i < model::words(line).len() && #[trigger] bare_word(line, i) == "web"@
}

/// A command line in lower case looks like that of the service: it names the package or its entry,
/// or it has the word `web` together with the command or with `--no-open`.
pub open spec fn service_line(line: Seq<char>) -> bool {
    &&& !model::blank(line)
    &&& {
        ||| model::contains(line, "deepseek-harness"@)
        ||| model::contains(line, "bin.ts"@)
        ||| model::contains(line, "@deepseek-ai"@)
        ||| has_command(line) && has_web(line)
        ||| has_web(line) && model::contains(line, "--no-open"@)
    }
}

/// Whether a command line in lower case looks like that of the service.
pub fn is_service_line(line: &str) -> (b: bool)
    ensures
        b == service_line(line@),
{
    if text::blank(line) {
        return false;
    }
    if text::contains(line, "deepseek-harness") || text::contains(line, "bin.ts")
        || text::contains(line, "@deepseek-ai") {
        return true;
    }
    let words = text::words(line);
    let mut command = false;
    let mut web = false;
    let mut i: usize = 0;
    while i < words.len()
        invariant
            model::texts(words@) == model::words(line@),
            i <= words.len(),
            command == exists|k: int| 0 <= k < i && command_word(#[trigger] bare_word(line@, k)),
            web == exists|k: int| 0 <= k < i && #[trigger] bare_word(line@, k) == "web"@,
        decreases words.len() - i,
    {
        let word = text::trim_set(words[i].as_str(), CharSet::Only('"'));
        let ghost was_command = command;
        let ghost was_web = web;
        proof {
            assert(model::texts(words@)[i as int] == words@[i as int]@);
            assert(bare_word(line@, i as int) == word@);
        }
        if text::same(word.as_str(), "dsh") || text::same(word.as_str(), "dsh.cmd")
            || text::ends_with(word.as_str(), "\\dsh") || text::ends_with(
            word.as_str(),
            "\\dsh.cmd",
        ) {
            command = true;
        }
        if text::same(word.as_str(), "web") {
            web = true;
        }
        proof {
            if was_command {
                let k = choose|k: int| 0 <= k < i && command_word(#[trigger] bare_word(line@, k));
                assert(command_word(bare_word(line@, k)));
            }
            if was_web {
                let k = choose|k: int| 0 <= k < i && #[trigger] bare_word(line@, k) == "web"@;
                assert(bare_word(line@, k) == "web"@);
            }
        }
        i += 1;
    }
    proof {
        assert(model::texts(words@).len() == words@.len());
    }
    (command && web) || (web && text::contains(line, "--no-open"))
}

/// Whether a command line looks like that of the service, whatever its case.
pub fn cmdline_looks_like_dsh(cmdline: &str) -> (b: bool)
    ensures
        b == service_line(lowercase(cmdline@)),
{
    is_service_line(text::lower(cmdline).as_str())
}

/// Whether a process looks like the service; one whose command line cannot be read does not.
pub fn process_looks_like_dsh(cmdline: Option<&str>) -> (b: bool)
    ensures
        b == match cmdline {
            Some(line) => service_line(lowercase(line@)),
            None => false,
        },
{
    match cmdline {
        Some(line) => cmdline_looks_like_dsh(line),
        None => false,
    }
}

/// Whether the listener on a port looks like the service.
pub fn port_listener_looks_like_dsh(
    port: u16,
    in_use: bool,
    listener: Option<u32>,
    cmdline: Option<&str>,
) -> (b: bool)
    ensures
        b == (port != 0 && in_use && listener is Some && (match cmdline {
            Some(line) => service_line(lowercase(line@)),
            None => false,
        })),
{
    port != 0 && in_use && listener.is_some() && process_looks_like_dsh(cmdline)
}

/// The query for the pid that listens on a port.
pub fn listener_query(port: u16) -> (r: String)
    ensures
        r@ == "(Get-NetTCPConnection -LocalPort "@ + model::decimal(port as nat)
            + " -State Listen | Select-Object -First 1 -ExpandProperty OwningProcess)"@,
{
    text::cat3(
        "(Get-NetTCPConnection -LocalPort ",
        text::decimal(port as u64).as_str(),
        " -State Listen | Select-Object -First 1 -ExpandProperty OwningProcess)",
    )
}

/// The pid that a query printed.
pub fn pid_by_port(success: bool, output: &str) -> (r: Option<u32>)
    ensures
        match r {
            Some(pid) => success && model::parse_unsigned(model::trim(output@), u32::MAX as nat)
                == Some(pid as nat),
            None => !success || model::parse_unsigned(
                model::trim(output@),
                u32::MAX as nat,
            ) is None,
        },
{
    if !success {
        return None;
    }
    match text::parse_unsigned(text::trim(output).as_str(), u32::MAX as u64) {
        Some(n) => Some(n as u32),
        None => None,
    }
}

/// The query for the command line of a process; none is made for pid 0.
pub fn command_line_query(pid: u32) -> (r: Option<String>)
    ensures
        model::text_of(r) == if pid == 0 {
            None
        } else {
            Some(
                "(Get-CimInstance Win32_Process -Filter \"ProcessId = "@ + model::decimal(pid as nat)
                    + "\" | Select-Object -ExpandProperty CommandLine)"@,
            )
        },
{
    if pid == 0 {
        None
    } else {
        Some(
            text::cat3(
                "(Get-CimInstance Win32_Process -Filter \"ProcessId = ",
                text::decimal(pid as u64).as_str(),
                "\" | Select-Object -ExpandProperty CommandLine)",
            ),
        )
    }
}

/// The command line that a query printed.
pub fn process_command_line(success: bool, output: &str) -> (r: Option<String>)
    ensures
        model::text_of(r) == if success && !model::blank(output@) {
            Some(model::trim(output@))
        } else {
            None
        },
{
    if success && !text::blank(output) {
        Some(text::trim(output))
    } else {
        None
    }
}

/// A line of the task list has the pid in its second column.
pub open spec fn task_line(line: Seq<char>, pid: nat) -> bool {
    let words = model::words(line);
    words.len() >= 2 && model::parse_unsigned(words[1], u32::MAX as nat) == Some(pid)
}

/// A line of the task list has the pid.
pub open spec fn lists_pid(output: Seq<char>, pid: nat) -> bool {
    exists|i: int|
        0 <= i < model::lines(output).len() && task_line(#[trigger] model::lines(output)[i], pid)
}

/// Whether a task list shows a pid: its second column, no other number, counts.
pub fn tasklist_has_pid(output: &str, pid: u32) -> (b: bool)
    ensures
        b == lists_pid(output@, pid as nat),
{
    let lines = text::lines(output);
    let mut i: usize = 0;
    while i < lines.len()
        invariant
            model::texts(lines@) == model::lines(output@),
            i <= lines.len(),
            forall|k: int|
                0 <= k < i ==> !task_line(#[trigger] model::lines(output@)[k], pid as nat),
        decreases lines.len() - i,
    {
        let words = text::words(lines[i].as_str());
        proof {
            assert(model::texts(lines@)[i as int] == lines@[i as int]@);
            assert(model::lines(output@)[i as int] == lines@[i as int]@);
            assert(model::texts(words@).len() == words@.len());
        }
        if words.len() >= 2 {
            proof {
                assert(model::texts(words@)[1] == words@[1]@);
            }
            if let Some(n) = text::parse_unsigned(words[1].as_str(), u32::MAX as u64) {
                if n == pid as u64 {
                    proof {
                        assert(task_line(model::lines(output@)[i as int], pid as nat));
                    }
                    return true;
                }
            }
        }
        i += 1;
    }
    proof {
        assert(model::texts(lines@).len() == lines@.len());
    }
    false
}

/// Whether a process is alive by the task list; there is no process with pid 0.
pub fn process_alive(pid: u32, tasklist: Option<&str>) -> (b: bool)
    ensures
        b == (pid != 0 && (match tasklist {
            Some(output) => lists_pid(output@, pid as nat),
            None => false,
        })),
{
    if pid == 0 {
        return false;
    }
    match tasklist {
        Some(output) => tasklist_has_pid(output, pid),
        None => false,
    }
}

// ---- What the service prints ----

/// The name of the file that takes what the service prints.
pub fn dsh_output_name(stdout: bool) -> (r: &'static str)
    ensures
        r@ == if stdout {
            "dsh-web-stdout.log"@
        } else {
            "dsh-web-stderr.log"@
        },
{
    if stdout {
        "dsh-web-stdout.log"
    } else {
        "dsh-web-stderr.log"
    }
}

/// The address with a token that a line holds, if it holds one.
pub open spec fn web_url_in(line: Seq<char>) -> Option<Seq<char>> {
    match model::find(line, "http://127.0.0.1:"@) {
        None => None,
        Some(i) => {
            let url = model::before_first(line.skip(i), CharSet::White);
            if model::contains(url, "token="@) {
                Some(url)
            } else {
                None
            }
        },
    }
}

/// The address with a token that a line holds.
pub fn extract_web_url(line: &str) -> (r: Option<String>)
    ensures
        model::text_of(r) == web_url_in(line@),
{
    match text::find(line, "http://127.0.0.1:") {
        None => None,
        Some(i) => {
            let v = text::chars_of(line);
            proof {
                model::lemma_find_at(line@, "http://127.0.0.1:"@, 0);
                assert(line@.subrange(i as int, line@.len() as int) =~= line@.skip(i as int));
            }
            let rest = text::string_of(&v, i, v.len());
            let url = text::before_first(rest.as_str(), CharSet::White);
            if text::contains(url.as_str(), "token=") {
                Some(url)
            } else {
                None
            }
        },
    }
}

/// A line of the service's complaints about parts that did not come up.
pub open spec fn complaint(line: Seq<char>) -> bool {
    ||| model::contains(line, "did not activate"@)
    ||| model::contains(line, "): pending"@)
    ||| model::contains(line, "): failed"@)
    ||| model::contains(line, "failed to import"@)
}

/// The complaints among lines, without the white space around them.
pub open spec fn complaints(lines: Seq<Seq<char>>) -> Seq<Seq<char>>
    decreases lines.len(),
{
    if lines.len() == 0 {
        seq![]
    } else if complaint(model::trim(lines.last())) {
        complaints(lines.drop_last()).push(model::trim(lines.last()))
    } else {
        complaints(lines.drop_last())
    }
}

/// The complaints in what the service printed.
pub fn inactive_entries(output: &str) -> (r: Vec<String>)
    ensures
        model::texts(r@) == complaints(model::lines(output@)),
{
    let lines = text::lines(output);
    let ghost all = model::lines(output@);
    let mut r: Vec<String> = Vec::new();
    let mut i: usize = 0;
    proof {
        assert(all.take(0) =~= seq![]);
        assert(model::texts(r@) =~= seq![]);
        assert(model::texts(lines@).len() == lines@.len());
    }
    while i < lines.len()
        invariant
            model::texts(lines@) == all,
            lines@.len() == all.len(),
            i <= lines.len(),
            model::texts(r@) == complaints(all.take(i as int)),
        decreases lines.len() - i,
    {
        let line = text::trim(lines[i].as_str());
        let ghost before = r@;
        proof {
            assert(model::texts(lines@)[i as int] == lines@[i as int]@);
            assert(all.take(i as int + 1).drop_last() =~= all.take(i as int));
            assert(all.take(i as int + 1).last() == lines@[i as int]@);
        }
        if text::contains(line.as_str(), "did not activate") || text::contains(
            line.as_str(),
            "): pending",
        ) || text::contains(line.as_str(), "): failed") || text::contains(
            line.as_str(),
            "failed to import",
        ) {
            r.push(line);
            proof {
                assert(model::texts(r@) =~= model::texts(before).push(line@));
            }
        }
        i += 1;
    }
    proof {
        assert(all.take(all.len() as int) =~= all);
    }
    r
}

/// The first complaint and up to 16 more, one to a line.
pub open spec fn inactive_summary(output: Seq<char>) -> Option<Seq<char>> {
    let found = complaints(model::lines(output));
    if found.len() == 0 {
        None
    } else if found.len() <= 17 {
        Some(model::join(found, "\n  "@))
    } else {
        Some(model::join(found.take(17), "\n  "@))
    }
}

/// The complaints in what the service printed, shortened; `None` where there are none.
pub fn stderr_inactive_entries_summary(output: &str) -> (r: Option<String>)
    ensures
        model::text_of(r) == inactive_summary(output@),
{
    let mut found = inactive_entries(output);
    proof {
        assert(model::texts(found@).len() == found@.len());
    }
    if found.len() == 0 {
        return None;
    }
    let ghost all = found@;
    if found.len() > 17 {
        found.truncate(17);
        proof {
            assert(model::texts(found@) =~= model::texts(all).take(17));
        }
    }
    Some(text::join(&found, "\n  "))
}

/// Cuts what the service prints into lines at line feeds; empty lines are left out.
pub struct TailSplitter {
    buf: Vec<u8>,
    seen: Ghost<Seq<u8>>,
}

/// The complete, non-empty lines of a text.
pub open spec fn full_lines(bytes: Seq<u8>) -> Seq<Seq<u8>>
    decreases bytes.len(),
{
    if bytes.len() == 0 {
        seq![]
    } else if bytes.last() == 10 && open_line(bytes.drop_last()).len() > 0 {
        full_lines(bytes.drop_last()).push(open_line(bytes.drop_last()))
    } else {
        full_lines(bytes.drop_last())
    }
}

/// What stands after the last line feed.
pub open spec fn open_line(bytes: Seq<u8>) -> Seq<u8>
    decreases bytes.len(),
{
    if bytes.len() == 0 || bytes.last() == 10 {
        seq![]
    } else {
        open_line(bytes.drop_last()).push(bytes.last())
    }
}

pub open spec fn byte_lines(v: Seq<Vec<u8>>) -> Seq<Seq<u8>> {
    v.map_values(|x: Vec<u8>| x@)
}

impl TailSplitter {
    /// Everything that was fed.
    pub closed spec fn seen(&self) -> Seq<u8> {
        self.seen@
    }

    pub closed spec fn wf(&self) -> bool {
        self.buf@ == open_line(self.seen@)
    }

    pub fn new() -> (r: Self)
        ensures
            r.wf(),
            r.seen() == Seq::<u8>::empty(),
    {
        let r = TailSplitter { buf: Vec::new(), seen: Ghost(Seq::<u8>::empty()) };
        proof {
            assert(r.buf@ =~= open_line(r.seen@));
        }
        r
    }

    /// The lines that the new bytes complete.
    pub fn feed(&mut self, bytes: &Vec<u8>) -> (r: Vec<Vec<u8>>)
        requires
            old(self).wf(),
        ensures
            final(self).wf(),
            final(self).seen() == old(self).seen() + bytes@,
            full_lines(final(self).seen()) == full_lines(old(self).seen()) + byte_lines(r@),
    {
        let mut r: Vec<Vec<u8>> = Vec::new();
        let mut i: usize = 0;
        let ghost start = self.seen@;
        proof {
            assert(start + bytes@.take(0) =~= start);
            assert(full_lines(start) + byte_lines(r@) =~= full_lines(start));
        }
        while i < bytes.len()
            invariant
                self.wf(),
                i <= bytes.len(),
                self.seen@ == start + bytes@.take(i as int),
                full_lines(self.seen@) == full_lines(start) + byte_lines(r@),
            decreases bytes.len() - i,
        {
            let b = bytes[i];
            let ghost prior = self.seen@;
            let ghost before = r@;
            proof {
                assert(prior.push(b).drop_last() =~= prior);
                assert(prior.push(b) =~= start + bytes@.take(i as int + 1));
            }
            if b == 10 {
                if self.buf.len() > 0 {
                    let mut line: Vec<u8> = Vec::new();
                    std::mem::swap(&mut line, &mut self.buf);
                    let ghost done = line;
                    r.push(line);
                    proof {
                        assert(byte_lines(r@) =~= byte_lines(before).push(done@));
                        assert(full_lines(start) + byte_lines(r@) =~= (full_lines(start)
                            + byte_lines(before)).push(done@));
                    }
                }
                proof {
                    assert(self.buf@ =~= seq![]);
                }
            } else {
                self.buf.push(b);
            }
            self.seen = Ghost(prior.push(b));
            i += 1;
        }
        proof {
            assert(bytes@.take(bytes.len() as int) =~= bytes@);
        }
        r
    }

    /// What is left without a line feed at its end.
    pub fn finish(self) -> (r: Vec<u8>)
        requires
            self.wf(),
        ensures
            r@ == open_line(self.seen()),
    {
        self.buf
    }
}

/// A line as it is logged: without carriage returns at its end.
pub fn output_line(raw: &str) -> (r: String)
    ensures
        r@ == model::trim_end(raw@, CharSet::Only('\r')),
{
    text::trim_end(raw, CharSet::Only('\r'))
}

// ---- Locks that a killed service leaves behind ----

/// The pid that a lock file names: the first digits after `"pid"`.
pub open spec fn holder_in(raw: Seq<char>) -> Option<nat> {
    match model::find(raw, "\"pid\""@) {
        None => None,
        Some(i) => {
            let rest = raw.skip(i + 5);
            let from = model::first_in(rest, CharSet::Digit, 0);
            model::parse_unsigned(
                rest.subrange(from, model::first_not_in(rest, CharSet::Digit, from)),
                u32::MAX as nat,
            )
        },
    }
}

pub fn parse_lock_holder_pid(raw: &str) -> (r: Option<u32>)
    ensures
        match r {
            Some(pid) => holder_in(raw@) == Some(pid as nat),
            None => holder_in(raw@) is None,
        },
{
    match text::find(raw, "\"pid\"") {
        None => None,
        Some(i) => {
            let v = text::chars_of(raw);
            proof {
                reveal_strlit("\"pid\"");
                model::lemma_find_at(raw@, "\"pid\""@, 0);
                assert("\"pid\""@.len() == 5);
                assert(model::matches_at(raw@, "\"pid\""@, i as int));
                assert(i + 5 <= v@.len() && v@.len() == v.len());
                assert(raw@.subrange(i + 5, raw@.len() as int) =~= raw@.skip(i + 5));
            }
            let rest = text::string_of(&v, i + 5, v.len());
            let w = text::chars_of(rest.as_str());
            let from = text::first_in(&w, CharSet::Digit, 0);
            proof {
                model::lemma_first_in(rest@, CharSet::Digit, 0);
            }
            let to = text::first_not_in(&w, CharSet::Digit, from);
            proof {
                model::lemma_first_not_in(rest@, CharSet::Digit, from as int);
            }
            let digits = text::string_of(&w, from, to);
            match text::parse_unsigned(digits.as_str(), u32::MAX as u64) {
                Some(n) => Some(n as u32),
                None => None,
            }
        },
    }
}

/// What is to be done about a lock file.
#[derive(Debug, Clone, Copy, PartialEq, Eq, Structural)]
pub enum LockStep {
    /// Remove it: nothing shows that its holder is alive.
    Remove,
    /// Ask whether this process is alive.
    Ask(u32),
}

/// Whether a lock can be removed at once, or whose life decides; `None` stands for a file that
/// cannot be read.
pub fn inspect_lock(raw: Option<&str>) -> (r: LockStep)
    ensures
        match raw {
            None => r == LockStep::Remove,
            Some(s) => match holder_in(s@) {
                Some(pid) => r matches LockStep::Ask(p) && p == pid,
                None => r == LockStep::Remove,
            },
        },
{
    match raw {
        None => LockStep::Remove,
        Some(s) => match parse_lock_holder_pid(s) {
            Some(pid) => LockStep::Ask(pid),
            None => LockStep::Remove,
        },
    }
}

} // verus!
