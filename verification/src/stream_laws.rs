//! What holds of every command that is followed: its lines, its end, and what is told of a failure.

use crate::command::{Look, TimedRun, TimedStep};
use crate::model;
use crate::model::CharSet;
use crate::stream::{
    is_dsh_trailer, keep_line, line_of, line_texts, lines_in, read_all_lines, taken, telling,
    trailer, Line, LineSplitter, Poll, StreamFailure, Watch, WatchStep,
};
use vstd::prelude::*;
use vstd::utf8::{decode_utf8, valid_utf8};

verus! {

// ---- Lines ----

proof fn lemma_taken_append(a: Seq<u8>, b: Seq<u8>)
    requires
        taken(a).1.len() == 0,
    ensures
        taken(a + b).0 == taken(a).0 + taken(b).0,
        taken(a + b).1 == taken(b).1,
    decreases b.len(),
{
    if b.len() == 0 {
        assert(a + b =~= a);
        assert(taken(a).0 + taken(b).0 =~= taken(a).0);
        assert(taken(a).1 =~= taken(b).1);
    } else {
        let init = b.drop_last();
        assert((a + b).drop_last() =~= a + init);
        assert((a + b).last() == b.last());
        lemma_taken_append(a, init);
        let x = taken(a).0;
        let y = taken(init).0;
        let z = line_of(taken(init).1);
        assert((x + y) + z =~= x + (y + z));
    }
}

/// An output is read line by line: where a line feed or a carriage return stands, the lines before it
/// and the lines behind it are read by themselves, in this order.
pub proof fn law_line_ends_part_an_output(
    whole: &[u8],
    a: &[u8],
    b: &[u8],
    all: Vec<Line>,
    first: Vec<Line>,
    second: Vec<Line>,
    end: u8,
)
    requires
        end == 10 || end == 13,
        whole@ == a@ + seq![end] + b@,
        call_ensures(read_all_lines, (whole,), all),
        call_ensures(read_all_lines, (a,), first),
        call_ensures(read_all_lines, (b,), second),
    ensures
        line_texts(all@) == line_texts(first@) + line_texts(second@),
{
    let head = a@.push(end);
    assert(head.drop_last() =~= a@);
    assert(whole@ =~= head + b@);
    assert(taken(head).1 =~= seq![]);
    lemma_taken_append(head, b@);
    let x = taken(a@).0;
    let y = line_of(taken(a@).1);
    let z = taken(b@).0;
    let w = line_of(taken(b@).1);
    assert(((x + y) + z) + w =~= (x + y) + (z + w));
}

proof fn lemma_no_end(bytes: Seq<u8>)
    requires
        forall|i: int| 0 <= i < bytes.len() ==> #[trigger] bytes[i] != 10 && bytes[i] != 13,
    ensures
        taken(bytes).0.len() == 0,
        taken(bytes).1 == bytes,
    decreases bytes.len(),
{
    if bytes.len() > 0 {
        let init = bytes.drop_last();
        assert forall|i: int| 0 <= i < init.len() implies #[trigger] init[i] != 10 && init[i] != 13 by {
            assert(init[i] == bytes[i]);
        }
        lemma_no_end(init);
        assert(bytes[bytes.len() - 1] == bytes.last());
        assert(init.push(bytes.last()) =~= bytes);
    } else {
        assert(bytes =~= seq![]);
    }
}

/// An output without a line end is one line: its text without the white space around it, or its bytes
/// where they are no text; nothing where it is blank.
pub proof fn law_a_line_is_its_text(bytes: &[u8], r: Vec<Line>)
    requires
        call_ensures(read_all_lines, (bytes,), r),
        forall|i: int| 0 <= i < bytes@.len() ==> #[trigger] bytes@[i] != 10 && bytes@[i] != 13,
    ensures
        bytes@.len() == 0 ==> r@.len() == 0,
        bytes@.len() > 0 && valid_utf8(bytes@) && !model::blank(decode_utf8(bytes@)) ==> r@.len() == 1
            && (r@[0] matches Line::Text(s) && s@ == model::trim(decode_utf8(bytes@))),
        bytes@.len() > 0 && valid_utf8(bytes@) && model::blank(decode_utf8(bytes@)) ==> r@.len() == 0,
        !valid_utf8(bytes@) && bytes@.len() > 0 ==> r@.len() == 1 && (r@[0] matches Line::Raw(v) && v@
            == bytes@),
{
    lemma_no_end(bytes@);
    let t = line_texts(r@);
    assert(t.len() == r@.len());
    assert(lines_in(bytes@) =~= line_of(bytes@));
    if t.len() > 0 {
        assert(t[0] == r@[0]@);
    }
}

/// In whatever pieces an output comes, its lines are the same: those of the pieces, one after the
/// other, and what is left at its end.
pub proof fn law_pieces_do_not_matter(
    it: &mut LineSplitter,
    chunk: &[u8],
    r: Vec<Line>,
    done: LineSplitter,
    rest: Vec<Line>,
    whole: &[u8],
    all: Vec<Line>,
)
    requires
        old(it).wf(),
        old(it).seen().len() == 0,
        call_ensures(LineSplitter::feed, (it, chunk), r),
        done == *final(it),
        call_ensures(LineSplitter::finish, (done,), rest),
        whole@ == chunk@,
        call_ensures(read_all_lines, (whole,), all),
    ensures
        line_texts(r@) + line_texts(rest@) == line_texts(all@),
{
    assert(old(it).seen() =~= seq![]);
    assert(final(it).seen() =~= chunk@);
    assert(taken(old(it).seen()).0 =~= seq![]);
    assert(taken(done.seen()).0 =~= line_texts(r@));
}

/// The last forty lines are kept, in their order.
pub proof fn law_the_last_lines_are_kept(tail: &mut Vec<String>, line: &str)
    requires
        call_ensures(keep_line, (tail, line), ()),
    ensures
        final(tail)@.len() > 0,
        final(tail)@.last()@ == line@,
        final(tail)@.len() <= 40,
        old(tail)@.len() < 40 ==> final(tail)@.len() == old(tail)@.len() + 1,
        old(tail)@.len() >= 40 ==> final(tail)@.len() == 40,
        forall|i: int|
            0 <= i < final(tail)@.len() - 1 ==> (#[trigger] final(tail)@[i])@ == old(tail)@[old(
                tail,
            )@.len() - final(tail)@.len() + 1 + i]@,
{
    let was = model::texts(old(tail)@);
    let now = model::texts(final(tail)@);
    let all = was.push(line@);
    assert(now.len() == final(tail)@.len() && was.len() == old(tail)@.len());
    assert(now.last() == line@);
    assert(now[now.len() - 1] == final(tail)@[final(tail)@.len() - 1]@);
    assert forall|i: int| 0 <= i < final(tail)@.len() - 1 implies (#[trigger] final(tail)@[i])@ == old(
        tail,
    )@[old(tail)@.len() - final(tail)@.len() + 1 + i]@ by {
        assert(now[i] == final(tail)@[i]@);
        let j = old(tail)@.len() - final(tail)@.len() + 1 + i;
        assert(was[j] == old(tail)@[j]@);
        assert(now[i] == all[j]);
    }
}

// ---- The end of a command ----

/// A command succeeded exactly where it ended by itself with success; one that ran too long, could
/// not be waited for or ended otherwise failed, and the end of what it printed is kept.
pub proof fn law_when_a_command_succeeded(
    watch: Watch,
    out: Vec<String>,
    err: Vec<String>,
    r: Result<(), StreamFailure>,
)
    requires
        call_ensures(Watch::outcome, (watch, out, err), r),
    ensures
        r is Ok <==> watch.wait_error is None && !watch.timed_out && watch.status is Some && (
        watch.status->0).success,
        r matches Err(f) ==> f.stdout_tail == out && f.stderr_tail == err && (f.timed_out
            <==> watch.wait_error is None && watch.timed_out),
{
}

/// A command is killed exactly where it still runs after half an hour; before that its end is taken
/// as it is.
pub proof fn law_when_a_command_is_killed(watch: &mut Watch, poll: Poll, elapsed: u64, r: WatchStep)
    requires
        elapsed <= u64::MAX - 3_000,
        call_ensures(Watch::step, (watch, poll, elapsed), r),
    ensures
        r is Kill <==> old(watch).kill_deadline is None && poll is Running && elapsed >= 1_800_000,
        r is Kill ==> final(watch).timed_out,
        final(watch).timed_out ==> old(watch).timed_out || r is Kill,
        old(watch).kill_deadline is None && poll is Exited ==> r is Over && final(watch).status
            == Some(poll->Exited_0),
        poll is Failed ==> r is Over && final(watch).wait_error is Some,
{
}

/// A command under a time limit is killed once, when its time is up, and never counts as ended by
/// itself after that; one that ended in time is collected.
pub proof fn law_limits_are_kept(run: &mut TimedRun, look: Look, r: TimedStep)
    requires
        call_ensures(TimedRun::step, (run, look), r),
    ensures
        r is Collect <==> old(run).killed is None && look.exited,
        r is Kill <==> old(run).killed is None && !look.exited && look.elapsed >= 1000 * old(
            run,
        ).limit,
        r is TimedOut ==> old(run).killed is Some,
        r is Kill ==> final(run).killed == Some(look.elapsed),
        old(run).killed is Some && (look.exited || look.elapsed >= old(run).killed->0 + 3000)
            ==> r is TimedOut,
        final(run).limit == old(run).limit,
{
}

// ---- What is told ----

proof fn lemma_telling(lines: Seq<Seq<char>>, line: Seq<char>)
    ensures
        telling(lines).contains(line) <==> exists|i: int|
            0 <= i < lines.len() && model::trim_end(#[trigger] lines[i], CharSet::White) == line
                && !model::blank(line) && !trailer(line),
    decreases lines.len(),
{
    let out = telling(lines);
    if lines.len() > 0 {
        let init = lines.drop_last();
        let rest = telling(init);
        let n = lines.len() - 1;
        let last = model::trim_end(lines.last(), CharSet::White);
        lemma_telling(init, line);
        if out.contains(line) {
            let k = choose|k: int| 0 <= k < out.len() && out[k] == line;
            if k < rest.len() {
                assert(rest[k] == line);
                let i = choose|i: int|
                    0 <= i < init.len() && model::trim_end(#[trigger] init[i], CharSet::White) == line
                        && !model::blank(line) && !trailer(line);
                assert(lines[i] == init[i]);
            } else {
                assert(model::trim_end(lines[n], CharSet::White) == line);
            }
        }
        if exists|i: int|
            0 <= i < lines.len() && model::trim_end(#[trigger] lines[i], CharSet::White) == line
                && !model::blank(line) && !trailer(line) {
            let i = choose|i: int|
                0 <= i < lines.len() && model::trim_end(#[trigger] lines[i], CharSet::White) == line
                    && !model::blank(line) && !trailer(line);
            if i < n {
                assert(init[i] == lines[i]);
                let k = choose|k: int| 0 <= k < rest.len() && rest[k] == line;
                assert(out[k] == line);
            } else {
                assert(out[rest.len() as int] == line);
            }
        }
    }
}

/// The diagnosis of a failure holds every line that says something, of both outputs, and no line that
/// the service's own wrapper prints around it.
pub proof fn law_diagnoses_hold_what_tells(
    failure: &StreamFailure,
    r: Vec<String>,
    i: int,
    line: &str,
    wrapped: bool,
)
    requires
        call_ensures(StreamFailure::diagnostic_lines, (failure,), r),
        0 <= i < failure.stderr_tail@.len() || 0 <= i < failure.stdout_tail@.len(),
        call_ensures(is_dsh_trailer, (line,), wrapped),
    ensures
        0 <= i < failure.stdout_tail@.len() && line@ == model::trim_end(
            failure.stdout_tail@[i]@,
            CharSet::White,
        ) && !model::blank(line@) && !wrapped ==> model::texts(r@).contains(line@),
        0 <= i < failure.stderr_tail@.len() && line@ == model::trim_end(
            failure.stderr_tail@[i]@,
            CharSet::White,
        ) && !model::blank(line@) && !wrapped ==> model::texts(r@).contains(line@),
        wrapped || model::blank(line@) ==> !model::texts(r@).contains(line@),
{
    let a = model::texts(failure.stdout_tail@);
    let b = model::texts(failure.stderr_tail@);
    let all = a + b;
    lemma_telling(all, line@);
    if 0 <= i < a.len() {
        assert(all[i] == failure.stdout_tail@[i]@);
    }
    if 0 <= i < b.len() {
        assert(all[a.len() + i] == failure.stderr_tail@[i]@);
    }
}

/// A failure is told with its cause: what went wrong with the command itself, that its time was up, or
/// its exit code.
pub proof fn law_failures_are_told(failure: &StreamFailure, short: String, full: String)
    requires
        call_ensures(StreamFailure::message, (failure,), short),
        call_ensures(StreamFailure::detail, (failure,), full),
    ensures
        failure.io_error is Some ==> short@ == (failure.io_error->0)@ && full@ == (
        failure.io_error->0)@,
        failure.io_error is None && !failure.timed_out && failure.exit_code is Some
            ==> model::starts_with(
            full@,
            "命令退出码 "@ + model::signed(failure.exit_code->0 as int),
        ),
        failure.io_error is None && failure.timed_out ==> model::starts_with(
            full@,
            "命令超时被强制终止"@,
        ),
{
    if failure.io_error is None {
        let head = if failure.timed_out {
            "命令超时被强制终止"@
        } else {
            "命令退出码 "@ + model::signed(failure.code())
        };
        assert(full@.subrange(0, head.len() as int) =~= head);
    }
}

/// The lines that the service's own wrapper prints are told by how they begin.
pub proof fn law_wrapper_lines_are_told(line: &str, b: bool, rest: Seq<char>)
    requires
        call_ensures(is_dsh_trailer, (line,), b),
    ensures
        line@ == "dsh: pnpm failed"@ + rest || line@ == "dsh: initialized profile"@ + rest ==> b,
        line@.len() > 0 && !model::white(line@[0]) && line@[0] != 'd' ==> !b,
{
    reveal_strlit("dsh: pnpm failed");
    reveal_strlit("dsh: initialized profile");
    let k = CharSet::White;
    let s = line@;
    let t = model::trim_start(s, k);
    if s.len() > 0 && !model::white(s[0]) {
        assert(model::first_not_in(s, k, 0) == 0);
        assert(t =~= s);
    }
    if s == "dsh: pnpm failed"@ + rest {
        assert(s[0] == 'd');
        assert(s.subrange(0, 16) =~= "dsh: pnpm failed"@);
    }
    if s == "dsh: initialized profile"@ + rest {
        assert(s[0] == 'd');
        assert(s.subrange(0, 24) =~= "dsh: initialized profile"@);
    }
    if b && s.len() > 0 && !model::white(s[0]) {
        if model::starts_with(t, "dsh: pnpm failed"@) {
            assert(t.subrange(0, 16)[0] == t[0]);
        } else {
            assert(t.subrange(0, 24)[0] == t[0]);
        }
    }
}

} // verus!
