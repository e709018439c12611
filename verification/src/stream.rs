//! Commands whose output is followed line by line: how bytes become lines, when a command is
//! killed, and what is told of one that failed.

use crate::model;
use crate::model::CharSet;
use crate::text;
use vstd::prelude::*;
use vstd::utf8::{decode_utf8, valid_utf8};

verus! {

/// How long a command may run, in milliseconds.
pub const STREAMED_MAX_DURATION: u64 = 1_800_000;

/// How long the readers may take after the command's end, in milliseconds.
pub const DRAIN_GRACE: u64 = 8_000;

/// How long a killed command may take to end before it is killed again, in milliseconds.
pub const KILL_GRACE: u64 = 3_000;

/// How many lines of output are kept for a failure report.
pub const STDERR_TAIL_MAX_LINES: usize = 40;

/// Why a command failed, with the end of what it printed.
pub struct StreamFailure {
    /// The command could not be started or waited for.
    pub io_error: Option<String>,
    pub exit_code: Option<i32>,
    /// The command ran too long and was killed.
    pub timed_out: bool,
    pub stdout_tail: Vec<String>,
    pub stderr_tail: Vec<String>,
}

impl Default for StreamFailure {
    fn default() -> (r: Self)
        ensures
            r.io_error is None,
            r.exit_code is None,
            !r.timed_out,
            r.stdout_tail@.len() == 0,
            r.stderr_tail@.len() == 0,
    {
        StreamFailure {
            io_error: None,
            exit_code: None,
            timed_out: false,
            stdout_tail: Vec::new(),
            stderr_tail: Vec::new(),
        }
    }
}

/// A line that the service's own wrapper prints around the real diagnosis.
pub open spec fn trailer(line: Seq<char>) -> bool {
    let t = model::trim_start(line, CharSet::White);
    model::starts_with(t, "dsh: pnpm failed"@) || model::starts_with(
        t,
        "dsh: initialized profile"@,
    )
}

pub fn is_dsh_trailer(line: &str) -> (b: bool)
    ensures
        b == trailer(line@),
{
    let t = text::trim_start(line, CharSet::White);
    text::starts_with(t.as_str(), "dsh: pnpm failed") || text::starts_with(
        t.as_str(),
        "dsh: initialized profile",
    )
}

/// The lines of a report: without white space at their ends, blank lines and trailers left out.
pub open spec fn telling(lines: Seq<Seq<char>>) -> Seq<Seq<char>>
    decreases lines.len(),
{
    if lines.len() == 0 {
        seq![]
    } else {
        let rest = telling(lines.drop_last());
        let line = model::trim_end(lines.last(), CharSet::White);
        if model::blank(line) || trailer(line) {
            rest
        } else {
            rest.push(line)
        }
    }
}

/// Each line on a new line, indented by two spaces.
pub open spec fn indented(lines: Seq<Seq<char>>) -> Seq<char>
    decreases lines.len(),
{
    if lines.len() == 0 {
        seq![]
    } else {
        indented(lines.drop_last()) + "\n  "@ + lines.last()
    }
}

impl StreamFailure {
    /// The diagnosis: what tells something of standard output, then of standard error.
    pub open spec fn diagnosis(&self) -> Seq<Seq<char>> {
        telling(model::texts(self.stdout_tail@) + model::texts(self.stderr_tail@))
    }

    pub open spec fn code(&self) -> int {
        match self.exit_code {
            Some(c) => c as int,
            None => -1,
        }
    }

    /// The failure in one line.
    pub open spec fn one_line(&self) -> Seq<char> {
        match self.io_error {
            Some(e) => e@,
            None => if self.timed_out {
                "命令执行超时已被强制终止（见日志）"@
            } else if self.diagnosis().len() > 0 {
                "命令退出码: "@ + model::signed(self.code()) + "；"@ + self.diagnosis().last()
            } else {
                "命令退出码: "@ + model::signed(self.code())
            },
        }
    }

    /// The failure with its whole diagnosis.
    pub open spec fn full(&self) -> Seq<char> {
        match self.io_error {
            Some(e) => e@,
            None => (if self.timed_out {
                "命令超时被强制终止"@
            } else {
                "命令退出码 "@ + model::signed(self.code())
            }) + indented(self.diagnosis()),
        }
    }

    /// A failure to start or to wait for a command.
    pub fn io(message: String) -> (r: Self)
        ensures
            r.io_error == Some(message),
            r.exit_code is None,
            !r.timed_out,
            r.stdout_tail@.len() == 0,
            r.stderr_tail@.len() == 0,
    {
        StreamFailure {
            io_error: Some(message),
            exit_code: None,
            timed_out: false,
            stdout_tail: Vec::new(),
            stderr_tail: Vec::new(),
        }
    }

    pub fn diagnostic_lines(&self) -> (r: Vec<String>)
        ensures
            model::texts(r@) == self.diagnosis(),
    {
        let mut out: Vec<String> = Vec::new();
        let ghost first = model::texts(self.stdout_tail@);
        let ghost all = first + model::texts(self.stderr_tail@);
        proof {
            assert(first.take(0) =~= seq![]);
            assert(model::texts(out@) =~= seq![]);
        }
        let mut i: usize = 0;
        while i < self.stdout_tail.len()
            invariant
                first == model::texts(self.stdout_tail@),
                i <= self.stdout_tail.len(),
                model::texts(out@) == telling(first.take(i as int)),
            decreases self.stdout_tail.len() - i,
        {
            proof {
                assert(first.take(i as int + 1).drop_last() =~= first.take(i as int));
            }
            add_telling(&mut out, self.stdout_tail[i].as_str());
            i += 1;
        }
        proof {
            assert(first.take(first.len() as int) =~= first);
            assert(all.take(first.len() as int) =~= first);
        }
        let mut j: usize = 0;
        while j < self.stderr_tail.len()
            invariant
                first == model::texts(self.stdout_tail@),
                all == first + model::texts(self.stderr_tail@),
                j <= self.stderr_tail.len(),
                model::texts(out@) == telling(all.take(first.len() + j)),
            decreases self.stderr_tail.len() - j,
        {
            proof {
                let n = first.len() + j;
                assert(all.take(n + 1).drop_last() =~= all.take(n));
                assert(all.take(n + 1).last() == self.stderr_tail@[j as int]@);
            }
            add_telling(&mut out, self.stderr_tail[j].as_str());
            j += 1;
        }
        proof {
            assert(all.take(all.len() as int) =~= all);
        }
        out
    }

    /// The failure in one line.
    pub fn message(&self) -> (r: String)
        ensures
            r@ == self.one_line(),
    {
        if let Some(e) = &self.io_error {
            return e.clone();
        }
        if self.timed_out {
            return "命令执行超时已被强制终止（见日志）".to_owned();
        }
        let code: i32 = match self.exit_code {
            Some(c) => c,
            None => -1,
        };
        let shown = text::signed(code);
        let lines = self.diagnostic_lines();
        if lines.len() > 0 {
            let last = lines.len() - 1;
            proof {
                assert(self.diagnosis().last() == lines@[last as int]@);
            }
            text::cat4("命令退出码: ", shown.as_str(), "；", lines[last].as_str())
        } else {
            proof {
                assert(self.diagnosis().len() == 0);
            }
            text::cat2("命令退出码: ", shown.as_str())
        }
    }

    /// The failure with its whole diagnosis.
    pub fn detail(&self) -> (r: String)
        ensures
            r@ == self.full(),
    {
        if let Some(e) = &self.io_error {
            return e.clone();
        }
        let code: i32 = match self.exit_code {
            Some(c) => c,
            None => -1,
        };
        let mut out = if self.timed_out {
            "命令超时被强制终止".to_owned()
        } else {
            text::cat2("命令退出码 ", text::signed(code).as_str())
        };
        let ghost head = out@;
        let lines = self.diagnostic_lines();
        let ghost all = self.diagnosis();
        let mut i: usize = 0;
        proof {
            assert(all.take(0) =~= seq![]);
            assert(head + indented(all.take(0)) =~= head);
        }
        while i < lines.len()
            invariant
                all == model::texts(lines@),
                i <= lines.len(),
                out@ == head + indented(all.take(i as int)),
            decreases lines.len() - i,
        {
            proof {
                assert(all.take(i as int + 1).drop_last() =~= all.take(i as int));
                assert(all.take(i as int + 1).last() == lines@[i as int]@);
            }
            let ghost before = indented(all.take(i as int));
            out.append("\n  ");
            out.append(lines[i].as_str());
            i += 1;
            proof {
                assert(out@ =~= head + (before + "\n  "@ + lines@[i - 1]@));
            }
        }
        proof {
            assert(all.take(all.len() as int) =~= all);
        }
        out
    }

    /// The whole diagnosis as one text, to look for known causes in.
    pub fn diagnostics(&self) -> (r: String)
        ensures
            r@ == model::join(self.diagnosis(), "\n"@),
    {
        text::join(&self.diagnostic_lines(), "\n")
    }
}

fn add_telling(out: &mut Vec<String>, raw: &str)
    ensures
        model::texts(final(out)@) == ({
            let line = model::trim_end(raw@, CharSet::White);
            if model::blank(line) || trailer(line) {
                model::texts(old(out)@)
            } else {
                model::texts(old(out)@).push(line)
            }
        }),
{
    let ghost before = model::texts(out@);
    let line = text::trim_end(raw, CharSet::White);
    if !text::blank(line.as_str()) && !is_dsh_trailer(line.as_str()) {
        out.push(line);
        proof {
            assert(model::texts(out@) =~= before.push(line@));
        }
    }
}

/// Adds a line to the end of what is kept of a command's output.
pub fn keep_line(tail: &mut Vec<String>, line: &str)
    ensures
        model::texts(final(tail)@) == model::last_of(
            model::texts(old(tail)@).push(line@),
            STDERR_TAIL_MAX_LINES as int,
        ),
        final(tail)@.len() <= STDERR_TAIL_MAX_LINES,
{
    let ghost all = model::texts(tail@).push(line@);
    tail.push(line.to_owned());
    proof {
        assert(model::texts(tail@) =~= all.skip(0));
    }
    let ghost mut gone: int = 0;
    while tail.len() > STDERR_TAIL_MAX_LINES
        invariant
            0 <= gone <= all.len(),
            model::texts(tail@) == all.skip(gone),
            gone > 0 ==> tail.len() >= STDERR_TAIL_MAX_LINES,
        decreases tail.len(),
    {
        let ghost before = model::texts(tail@);
        proof {
            assert(before.len() == tail@.len());
        }
        tail.remove(0);
        proof {
            assert(model::texts(tail@) =~= before.skip(1));
            gone = gone + 1;
            assert(before.skip(1) =~= all.skip(gone));
        }
    }
    proof {
        assert(model::texts(tail@).len() == tail@.len());
    }
}

// ---- From bytes to lines ----

/// A line of output: its text, or its bytes where they are not UTF-8 and the machine's code page
/// has to say what they mean.
pub enum Line {
    Text(String),
    Raw(Vec<u8>),
}

/// What a `Line` holds.
pub ghost enum LineText {
    Text(Seq<char>),
    Raw(Seq<u8>),
}

impl View for Line {
    type V = LineText;

    open spec fn view(&self) -> LineText {
        match self {
            Line::Text(s) => LineText::Text(s@),
            Line::Raw(v) => LineText::Raw(v@),
        }
    }
}

pub open spec fn line_texts(v: Seq<Line>) -> Seq<LineText> {
    v.map_values(|l: Line| l@)
}

/// Calls `str::from_utf8` of std: a text whose UTF-8 encoding the bytes are, where they are valid.
#[verifier::external_body]
pub(crate) fn decode(bytes: &[u8]) -> (r: Option<String>)
    ensures
        match r {
            Some(s) => valid_utf8(bytes@) && s@ == decode_utf8(bytes@),
            None => !valid_utf8(bytes@),
        },
{
    std::str::from_utf8(bytes).ok().map(|s| s.to_string())
}

/// A byte at which a line ends: LF or CR.
pub open spec fn ends_line(b: u8) -> bool {
    b == 0x0a || b == 0x0d
}

/// The lines that a row of bytes without line ends amounts to: none if it is empty or blank.
pub open spec fn line_of(bytes: Seq<u8>) -> Seq<LineText> {
    if bytes.len() == 0 {
        seq![]
    } else if !valid_utf8(bytes) {
        seq![LineText::Raw(bytes)]
    } else if model::blank(decode_utf8(bytes)) {
        seq![]
    } else {
        seq![LineText::Text(model::trim(decode_utf8(bytes)))]
    }
}

/// The lines that are complete once `bytes` have come, and the bytes of the line that is not.
pub open spec fn taken(bytes: Seq<u8>) -> (Seq<LineText>, Seq<u8>)
    decreases bytes.len(),
{
    if bytes.len() == 0 {
        (seq![], seq![])
    } else {
        let (lines, rest) = taken(bytes.drop_last());
        if ends_line(bytes.last()) {
            (lines + line_of(rest), seq![])
        } else {
            (lines, rest.push(bytes.last()))
        }
    }
}

/// All lines of an output.
pub open spec fn lines_in(bytes: Seq<u8>) -> Seq<LineText> {
    taken(bytes).0 + line_of(taken(bytes).1)
}

fn push_line(out: &mut Vec<Line>, bytes: &Vec<u8>)
    ensures
        line_texts(final(out)@) == line_texts(old(out)@) + line_of(bytes@),
{
    let ghost before = line_texts(out@);
    if bytes.len() == 0 {
        proof {
            assert(before + line_of(bytes@) =~= before);
        }
        return;
    }
    match decode(bytes.as_slice()) {
        Some(s) => {
            let t = text::trim(s.as_str());
            if !t.as_str().is_empty() {
                out.push(Line::Text(t));
                proof {
                    assert(line_texts(out@) =~= before + seq![LineText::Text(t@)]);
                }
            } else {
                proof {
                    assert(before + line_of(bytes@) =~= before);
                }
            }
        },
        None => {
            let copy = bytes.clone();
            proof {
                assert(copy@ =~= bytes@);
            }
            out.push(Line::Raw(copy));
            proof {
                assert(line_texts(out@) =~= before + seq![LineText::Raw(bytes@)]);
            }
        },
    }
}

/// Cuts an output that comes in pieces into lines. Where the pieces are cut does not matter.
pub struct LineSplitter {
    pending: Vec<u8>,
    seen: Ghost<Seq<u8>>,
}

impl LineSplitter {
    /// All bytes that have come so far.
    pub closed spec fn seen(&self) -> Seq<u8> {
        self.seen@
    }

    /// The bytes of the line that is not complete yet.
    pub closed spec fn pending(&self) -> Seq<u8> {
        self.pending@
    }

    pub open spec fn wf(&self) -> bool {
        self.pending() == taken(self.seen()).1
    }

    pub fn new() -> (r: Self)
        ensures
            r.wf(),
            r.seen().len() == 0,
    {
        let r = LineSplitter { pending: Vec::new(), seen: Ghost(Seq::<u8>::empty()) };
        proof {
            assert(r.pending@ =~= taken(r.seen@).1);
        }
        r
    }

    /// Takes the next piece and hands out the lines that it completes.
    pub fn feed(&mut self, chunk: &[u8]) -> (r: Vec<Line>)
        requires
            old(self).wf(),
        ensures
            final(self).wf(),
            final(self).seen() == old(self).seen() + chunk@,
            taken(old(self).seen()).0 + line_texts(r@) == taken(final(self).seen()).0,
    {
        let mut out: Vec<Line> = Vec::new();
        let mut i: usize = 0;
        let ghost before_all = self.seen@;
        let ghost start = taken(before_all).0;
        proof {
            assert(before_all + chunk@.take(0) =~= before_all);
            assert(start + line_texts(out@) =~= start);
        }
        while i < chunk.len()
            invariant
                start == taken(before_all).0,
                i <= chunk.len(),
                self.pending@ == taken(before_all + chunk@.take(i as int)).1,
                start + line_texts(out@) == taken(before_all + chunk@.take(i as int)).0,
            decreases chunk.len() - i,
        {
            let b = chunk[i];
            let ghost now = before_all + chunk@.take(i as int);
            let ghost next = before_all + chunk@.take(i as int + 1);
            let ghost before = line_texts(out@);
            proof {
                assert(next.drop_last() =~= now);
                assert(next.last() == b);
            }
            if b == 0x0a || b == 0x0d {
                push_line(&mut out, &self.pending);
                proof {
                    assert(start + (before + line_of(self.pending@)) =~= (start + before)
                        + line_of(self.pending@));
                }
                self.pending = Vec::new();
                proof {
                    assert(self.pending@ =~= seq![]);
                }
            } else {
                self.pending.push(b);
            }
            i += 1;
        }
        proof {
            assert(chunk@.take(chunk@.len() as int) =~= chunk@);
        }
        self.seen = Ghost(before_all + chunk@);
        out
    }

    /// Hands out what is left when the output has ended.
    pub fn finish(self) -> (r: Vec<Line>)
        requires
            self.wf(),
        ensures
            taken(self.seen()).0 + line_texts(r@) == lines_in(self.seen()),
    {
        let mut out: Vec<Line> = Vec::new();
        push_line(&mut out, &self.pending);
        proof {
            assert(Seq::<LineText>::empty() + line_of(self.pending@) =~= line_of(self.pending@));
        }
        out
    }
}

/// All lines of an output: both LF and CR end a line, blank lines are left out.
pub fn read_all_lines(bytes: &[u8]) -> (r: Vec<Line>)
    ensures
        line_texts(r@) == lines_in(bytes@),
{
    let mut splitter = LineSplitter::new();
    let ghost none = splitter.seen();
    proof {
        assert(none =~= seq![]);
    }
    let mut out = splitter.feed(bytes);
    proof {
        assert(none + bytes@ =~= bytes@);
        assert(taken(none).0 + line_texts(out@) =~= line_texts(out@));
    }
    let mut rest = splitter.finish();
    let ghost a = line_texts(out@);
    let ghost b = line_texts(rest@);
    out.append(&mut rest);
    proof {
        assert(line_texts(out@) =~= a + b);
    }
    out
}

// ---- Watching a command ----

/// How a command ended.
#[derive(Debug, Clone, Copy, PartialEq, Eq, Structural)]
pub struct Exit {
    pub success: bool,
    pub code: Option<i32>,
}

/// What asking after a command gave.
pub enum Poll {
    Exited(Exit),
    Running,
    Failed(String),
}

/// What to do next about a command.
#[derive(Debug, Clone, Copy, PartialEq, Eq, Structural)]
pub enum WatchStep {
    /// Ask again after so many milliseconds.
    AskIn(u64),
    /// Kill the command and everything it started, then ask again.
    Kill,
    /// Nothing: the command is over.
    Over,
}

/// The watch over a running command.
pub struct Watch {
    pub timed_out: bool,
    /// Until when a killed command may take to end.
    pub kill_deadline: Option<u64>,
    pub wait_error: Option<String>,
    pub status: Option<Exit>,
}

impl Watch {
    pub fn new() -> (r: Self)
        ensures
            !r.timed_out,
            r.kill_deadline is None,
            r.wait_error is None,
            r.status is None,
    {
        Watch { timed_out: false, kill_deadline: None, wait_error: None, status: None }
    }

    /// Decides what follows from asking after the command `elapsed` milliseconds after its start.
    ///
    /// A command that runs too long is killed; if it has still not ended after a grace period it
    /// is killed again. An end that is seen during that period counts at the next question.
    pub fn step(&mut self, poll: Poll, elapsed: u64) -> (r: WatchStep)
        requires
            elapsed <= u64::MAX - KILL_GRACE,
        ensures
            match (old(self).kill_deadline, poll) {
                (_, Poll::Failed(m)) => {
                    &&& r == WatchStep::Over
                    &&& final(self).wait_error is Some
                    &&& (final(self).wait_error->0)@ == "等待命令退出失败: "@ + m@
                    &&& final(self).status is None
                    &&& final(self).timed_out == old(self).timed_out
                },
                (None, Poll::Exited(e)) => {
                    &&& r == WatchStep::Over
                    &&& final(self).status == Some(e)
                    &&& final(self).wait_error == old(self).wait_error
                    &&& final(self).timed_out == old(self).timed_out
                },
                (None, Poll::Running) => if elapsed >= STREAMED_MAX_DURATION {
                    &&& r == WatchStep::Kill
                    &&& final(self).timed_out
                    &&& final(self).kill_deadline == Some((elapsed + KILL_GRACE) as u64)
                    &&& final(self).wait_error == old(self).wait_error
                    &&& final(self).status == old(self).status
                } else {
                    r == WatchStep::AskIn(200) && *final(self) == *old(self)
                },
                (Some(deadline), _) => {
                    &&& final(self).timed_out == old(self).timed_out
                    &&& final(self).wait_error == old(self).wait_error
                    &&& final(self).status == old(self).status
                    &&& if poll is Exited || elapsed >= deadline {
                        r == WatchStep::AskIn(0) && final(self).kill_deadline is None
                    } else {
                        r == WatchStep::AskIn(50) && final(self).kill_deadline == Some(deadline)
                    }
                },
            },
    {
        match poll {
            Poll::Failed(m) => {
                self.wait_error = Some(text::cat2("等待命令退出失败: ", m.as_str()));
                self.status = None;
                WatchStep::Over
            },
            Poll::Exited(e) => match self.kill_deadline {
                Some(_) => {
                    self.kill_deadline = None;
                    WatchStep::AskIn(0)
                },
                None => {
                    self.status = Some(e);
                    WatchStep::Over
                },
            },
            Poll::Running => match self.kill_deadline {
                Some(deadline) => if elapsed >= deadline {
                    self.kill_deadline = None;
                    WatchStep::AskIn(0)
                } else {
                    WatchStep::AskIn(50)
                },
                None => if elapsed >= STREAMED_MAX_DURATION {
                    self.timed_out = true;
                    self.kill_deadline = Some(elapsed + KILL_GRACE);
                    WatchStep::Kill
                } else {
                    WatchStep::AskIn(200)
                },
            },
        }
    }

    /// What the watch comes to, with the end of what the command printed.
    pub fn outcome(self, stdout_tail: Vec<String>, stderr_tail: Vec<String>) -> (r: Result<
        (),
        StreamFailure,
    >)
        ensures
            r is Ok <==> self.wait_error is None && !self.timed_out && self.status is Some
                && self.status->0.success,
            match r {
                Ok(_) => true,
                Err(f) => {
                    &&& f.stdout_tail == stdout_tail
                    &&& f.stderr_tail == stderr_tail
                    &&& if self.wait_error is Some {
                        f.io_error == self.wait_error && f.exit_code is None && !f.timed_out
                    } else if self.timed_out {
                        f.timed_out && f.io_error is None && f.exit_code is None
                    } else if self.status is Some {
                        !f.timed_out && f.io_error is None && f.exit_code == Some(
                            match self.status->0.code {
                                Some(c) => c,
                                None => -1i32,
                            },
                        )
                    } else {
                        !f.timed_out && f.exit_code is None && f.io_error is Some && (
                        f.io_error->0)@ == "未能取得命令退出状态"@
                    }
                },
            },
    {
        if let Some(e) = self.wait_error {
            return Err(
                StreamFailure {
                    io_error: Some(e),
                    exit_code: None,
                    timed_out: false,
                    stdout_tail,
                    stderr_tail,
                },
            );
        }
        if self.timed_out {
            return Err(
                StreamFailure {
                    io_error: None,
                    exit_code: None,
                    timed_out: true,
                    stdout_tail,
                    stderr_tail,
                },
            );
        }
        match self.status {
            Some(e) => if e.success {
                Ok(())
            } else {
                let code: i32 = match e.code {
                    Some(c) => c,
                    None => -1,
                };
                Err(
                    StreamFailure {
                        io_error: None,
                        exit_code: Some(code),
                        timed_out: false,
                        stdout_tail,
                        stderr_tail,
                    },
                )
            },
            None => Err(
                StreamFailure {
                    io_error: Some("未能取得命令退出状态".to_owned()),
                    exit_code: None,
                    timed_out: false,
                    stdout_tail,
                    stderr_tail,
                },
            ),
        }
    }
}

} // verus!
