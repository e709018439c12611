//! Running a command with a time limit: when to wait, when to kill and when to give up.

use crate::model;
use crate::text;
use vstd::prelude::*;

verus! {

/// How long a killed command may take to go away, in milliseconds.
pub const KILL_WAIT: u64 = 3000;

/// What is known of the command at a look: whether it has exited, and how long it has run.
pub struct Look {
    pub exited: bool,
    /// Milliseconds since the start.
    pub elapsed: u64,
}

/// What is to be done next.
#[derive(Debug, Clone, Copy, PartialEq, Eq, Structural)]
pub enum TimedStep {
    /// Collect the output: the command has ended by itself.
    Collect,
    /// Kill the command and everything it started.
    Kill,
    /// Look again later.
    Sleep,
    /// Report that the time limit has passed.
    TimedOut,
}

/// A command under a time limit.
pub struct TimedRun {
    /// The limit in seconds.
    pub limit: u64,
    /// When the command was killed, in milliseconds since its start.
    pub killed: Option<u64>,
}

impl TimedRun {
    pub fn new(limit: u64) -> (r: Self)
        ensures
            r.limit == limit,
            r.killed is None,
    {
        TimedRun { limit, killed: None }
    }

    /// How a look at the command changes what is known, and what it leads to.
    pub open spec fn stepped(before: TimedRun, look: Look, after: TimedRun, r: TimedStep) -> bool {
        &&& after.limit == before.limit
        &&& match before.killed {
            None => if look.exited {
                r == TimedStep::Collect && after.killed is None
            } else if look.elapsed >= before.limit * 1000 {
                r == TimedStep::Kill && after.killed == Some(look.elapsed)
            } else {
                r == TimedStep::Sleep && after.killed is None
            },
            Some(at) => {
                &&& after.killed == Some(at)
                &&& r == if look.exited || look.elapsed >= at + KILL_WAIT {
                    TimedStep::TimedOut
                } else {
                    TimedStep::Sleep
                }
            },
        }
    }

    /// The command has ended by itself before its limit is noticed, or else is killed once; after
    /// that it is waited for no longer than the grace allows.
    pub fn step(&mut self, look: Look) -> (r: TimedStep)
        ensures
            TimedRun::stepped(*old(self), look, *final(self), r),
    {
        match self.killed {
            None => {
                if look.exited {
                    TimedStep::Collect
                } else if look.elapsed as u128 >= self.limit as u128 * 1000 {
                    self.killed = Some(look.elapsed);
                    TimedStep::Kill
                } else {
                    TimedStep::Sleep
                }
            },
            Some(at) => if look.exited || look.elapsed as u128 >= at as u128 + KILL_WAIT as u128 {
                TimedStep::TimedOut
            } else {
                TimedStep::Sleep
            },
        }
    }
}

/// What is said of a command that ran into its limit.
pub fn timeout_message(limit: u64, pid: u32) -> (r: String)
    ensures
        r@ == "命令执行超过 "@ + model::decimal(limit as nat) + "s 被强制终止（pid="@ + model::decimal(
            pid as nat,
        ) + "）"@,
{
    text::cat5(
        "命令执行超过 ",
        text::decimal(limit).as_str(),
        "s 被强制终止（pid=",
        text::decimal(pid as u64).as_str(),
        "）",
    )
}

/// A command that was killed never counts as having ended by itself.
pub proof fn law_killed_commands_time_out(before: TimedRun, look: Look, after: TimedRun, r: TimedStep)
    requires
        before.killed is Some,
        TimedRun::stepped(before, look, after, r),
    ensures
        r != TimedStep::Collect,
        r != TimedStep::Kill,
{
}

} // verus!
