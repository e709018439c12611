//! Progress of an installation, as it is reported to the user interface.

use vstd::prelude::*;

verus! {

pub const PROGRESS_EVENT: &'static str = "install://progress";

pub const VERSION_CHANGED_EVENT: &'static str = "version://changed";

/// The phases of an installation.
#[derive(Debug, Clone, Copy, PartialEq, Eq, Structural)]
pub enum InstallPhase {
    Prepare,
    Download,
    Install,
    Build,
    Done,
}

impl InstallPhase {
    pub open spec fn name(self) -> Seq<char> {
        match self {
            InstallPhase::Prepare => "prepare"@,
            InstallPhase::Download => "download"@,
            InstallPhase::Install => "install"@,
            InstallPhase::Build => "build"@,
            InstallPhase::Done => "done"@,
        }
    }

    pub fn as_str(&self) -> (r: &'static str)
        ensures
            r@ == self.name(),
    {
        match self {
            InstallPhase::Prepare => "prepare",
            InstallPhase::Download => "download",
            InstallPhase::Install => "install",
            InstallPhase::Build => "build",
            InstallPhase::Done => "done",
        }
    }
}

/// What is reported of the progress.
pub struct ProgressPayload {
    /// What is being installed: `npm`, `github` or `toolchain`.
    pub channel: String,
    pub phase: &'static str,
    /// In percent.
    pub percent: u8,
    pub message: String,
}

pub fn progress(channel: &str, phase: InstallPhase, percent: u8, message: String) -> (r:
    ProgressPayload)
    ensures
        r.channel@ == channel@,
        r.phase@ == phase.name(),
        r.percent == percent,
        r.message == message,
{
    ProgressPayload { channel: channel.to_owned(), phase: phase.as_str(), percent, message }
}

} // verus!
