//! The life of the service: starting, adopting, watching and stopping it.

use crate::github::{DshProbe, ResolvedDsh};
use crate::model;
use crate::port;
use crate::process::{converged, extract_web_url, starting_convergence, web_url_in, DshStatus, Listener};
use crate::text;
use vstd::prelude::*;

verus! {

/// How often the service is restarted by itself because parts of it did not come up.
pub const MAX_PENDING_AUTO_RESTARTS: u32 = 3;

/// How long the service is given to end by itself, in seconds.
pub const GRACEFUL_STOP_SECS: u64 = 10;

/// How often the port is looked at for processes that outlived the service.
pub const SWEEP_ROUNDS: u32 = 5;

/// What the launcher knows of the service.
pub struct ProcessManager {
    pub status: DshStatus,
    /// The pid of the service where this launcher started it, else 0.
    pub pid: u32,
    /// The port, or 0.
    pub port: u16,
    /// The address with its token; empty where it is not known.
    pub web_url: String,
    /// A stop is under way.
    pub stopping: bool,
    /// It was already reported that another process holds the port.
    pub conflict_logged: bool,
    /// A restart was asked for because parts of the service did not come up.
    pub restart_requested: bool,
    /// How often such a restart was asked for.
    pub restart_count: u32,
}

/// What an adoption came to.
#[derive(Debug, Clone, Copy, PartialEq, Eq, Structural)]
pub enum Adoption {
    /// The service is in another state already.
    NotNow,
    /// The listener is not the service.
    NotDsh,
    Adopted {
        /// The stored address belongs to an earlier process and is to be deleted.
        forget_url: bool,
    },
}

/// How the service is started.
pub enum StartPlan {
    /// By the command on the search path, with these arguments.
    Shim { path: String, args: Vec<String> },
    /// By the entry in the directory of the sources, with these arguments to `node`.
    Node { args: Vec<String> },
}

/// What one look at a starting service came to.
#[derive(Debug, Clone, Copy, PartialEq, Eq, Structural)]
pub enum ProbeStep {
    /// It listens.
    Ready,
    /// It ended before it listened.
    Crashed,
    Wait,
}

/// What the regular look at the service has to find out.
#[derive(Debug, Clone, Copy, PartialEq, Eq, Structural)]
pub enum Probe {
    Nothing,
    /// Who listens on the port of the starting service, and whether it is alive.
    Startup { pid: u32, port: u16 },
    /// Whether the adopted service still listens.
    Adopted { port: u16 },
    /// Whether the service listens on the port of the settings.
    Configured { port: u16 },
}

/// What the regular look led to.
#[derive(Debug, Clone, Copy, PartialEq, Eq, Structural)]
pub enum Note {
    Unchanged,
    BecameReady,
    FoundDead,
    /// The adopted service is gone.
    Gone,
    /// Something else has taken the port of the adopted service.
    Displaced,
}

/// What becomes of a request for a restart.
#[derive(Debug, Clone, Copy, PartialEq, Eq, Structural)]
pub enum PendingRestart {
    NoRequest,
    /// There were too many already.
    Exhausted,
    /// The restart with this number is made.
    Restart { attempt: u32 },
}

/// The arguments that start the service on a port.
pub open spec fn web_args(port: nat) -> Seq<Seq<char>> {
    seq!["web"@, "--port"@, model::decimal(port), "--no-open"@]
}

/// The arguments to `node` that start the service from its sources.
pub open spec fn node_args(port: nat) -> Seq<Seq<char>> {
    seq!["--import"@, "tsx/esm"@, "apps/cli/src/bin.ts"@] + web_args(port)
}

fn web_arguments(port: u16) -> (r: Vec<String>)
    ensures
        model::texts(r@) == web_args(port as nat),
{
    let mut r: Vec<String> = Vec::new();
    r.push("web".to_owned());
    r.push("--port".to_owned());
    r.push(text::decimal(port as u64));
    r.push("--no-open".to_owned());
    proof {
        assert(model::texts(r@) =~= web_args(port as nat));
    }
    r
}

fn node_arguments(port: u16) -> (r: Vec<String>)
    ensures
        model::texts(r@) == node_args(port as nat),
{
    let mut r: Vec<String> = Vec::new();
    r.push("--import".to_owned());
    r.push("tsx/esm".to_owned());
    r.push("apps/cli/src/bin.ts".to_owned());
    r.push("web".to_owned());
    r.push("--port".to_owned());
    r.push(text::decimal(port as u64));
    r.push("--no-open".to_owned());
    proof {
        assert(model::texts(r@) =~= node_args(port as nat));
    }
    r
}

/// Why the service cannot be started, in the order in which it is checked.
pub open spec fn start_refusal(
    status: DshStatus,
    port: nat,
    in_use: bool,
    clone_ok: bool,
    resolved: ResolvedDsh,
) -> Option<Seq<char>> {
    if status == DshStatus::Running || status == DshStatus::Starting || status
        == DshStatus::Stopping {
        Some("dsh 正在运行或切换中"@)
    } else if port == 0 {
        Some("端口 "@ + model::decimal(port) + " 非法"@)
    } else if in_use {
        Some("端口 "@ + model::decimal(port) + " 已被占用，请在设置中修改端口后重试"@)
    } else if resolved.kind == DshProbe::OwnedShimBroken {
        Some(
            "dsh 安装目录缺失（GitHub shim 指向的目录已不存在或为空），请在版本管理中重新安装 dsh"@,
        )
    } else if resolved.kind == DshProbe::Foreign {
        if resolved.shim_path is None {
            Some("dsh 入口解析异常（可执行 shim 缺失），请在版本管理中重新安装 dsh"@)
        } else {
            None
        }
    } else if clone_ok {
        None
    } else if resolved.kind == DshProbe::OwnedShimOk {
        Some("dsh 安装目录不完整（缺少源码入口），请在版本管理中重新安装 dsh"@)
    } else {
        Some("未找到 dsh（PATH 无 dsh 且无 GitHub 安装目录），请先安装 dsh"@)
    }
}

impl ProcessManager {
    pub fn new() -> (r: Self)
        ensures
            r.status == DshStatus::Stopped,
            r.pid == 0,
            r.port == 0,
            r.web_url@ == Seq::<char>::empty(),
            !r.stopping,
            !r.conflict_logged,
            !r.restart_requested,
            r.restart_count == 0,
    {
        let r = ProcessManager {
            status: DshStatus::Stopped,
            pid: 0,
            port: 0,
            web_url: String::new(),
            stopping: false,
            conflict_logged: false,
            restart_requested: false,
            restart_count: 0,
        };
        proof {
            assert(r.web_url@ =~= Seq::<char>::empty());
        }
        r
    }

    pub fn status(&self) -> (r: DshStatus)
        ensures
            r == self.status,
    {
        self.status
    }

    pub fn current_port(&self) -> (r: u16)
        ensures
            r == self.port,
    {
        self.port
    }

    pub fn web_url(&self) -> (r: String)
        ensures
            r == self.web_url,
    {
        self.web_url.clone()
    }

    /// Whether the service was started by this launcher. One that was adopted was not.
    pub fn is_managed(&self) -> (b: bool)
        ensures
            b == (self.pid != 0),
    {
        self.pid != 0
    }

    /// Everything but the fields that the caller lists is as before.
    pub open spec fn same_flags(&self, other: &ProcessManager) -> bool {
        &&& self.stopping == other.stopping
        &&& self.conflict_logged == other.conflict_logged
        &&& self.restart_requested == other.restart_requested
        &&& self.restart_count == other.restart_count
    }

    // ---- Starting ----

    /// How the service is to be started, or why it cannot be. Nothing is run to find that out.
    pub fn plan_start(
        &self,
        port: u16,
        in_use: bool,
        clone_ok: bool,
        resolved: &ResolvedDsh,
    ) -> (r: Result<StartPlan, String>)
        ensures
            match start_refusal(self.status, port as nat, in_use, clone_ok, *resolved) {
                Some(m) => r is Err && r->Err_0@ == m,
                None => {
                    &&& r is Ok
                    &&& if resolved.kind == DshProbe::Foreign {
                        r->Ok_0 matches StartPlan::Shim { path, args } && Some(path)
                            == resolved.shim_path && model::texts(args@) == web_args(port as nat)
                    } else {
                        r->Ok_0 matches StartPlan::Node { args } && model::texts(args@) == node_args(
                            port as nat,
                        )
                    }
                },
            },
    {
        if matches!(
            self.status,
            DshStatus::Running | DshStatus::Starting | DshStatus::Stopping
        ) {
            return Err("dsh 正在运行或切换中".to_owned());
        }
        if !port::validate_port(port) {
            return Err(text::cat3("端口 ", text::decimal(port as u64).as_str(), " 非法"));
        }
        if in_use {
            return Err(
                text::cat3(
                    "端口 ",
                    text::decimal(port as u64).as_str(),
                    " 已被占用，请在设置中修改端口后重试",
                ),
            );
        }
        match resolved.kind {
            DshProbe::OwnedShimBroken => Err(
                "dsh 安装目录缺失（GitHub shim 指向的目录已不存在或为空），请在版本管理中重新安装 dsh".to_owned(),
            ),
            DshProbe::Foreign => match &resolved.shim_path {
                Some(path) => Ok(
                    StartPlan::Shim { path: path.clone(), args: web_arguments(port) },
                ),
                None => Err(
                    "dsh 入口解析异常（可执行 shim 缺失），请在版本管理中重新安装 dsh".to_owned(),
                ),
            },
            DshProbe::OwnedShimOk => if clone_ok {
                Ok(StartPlan::Node { args: node_arguments(port) })
            } else {
                Err("dsh 安装目录不完整（缺少源码入口），请在版本管理中重新安装 dsh".to_owned())
            },
            DshProbe::Missing => if clone_ok {
                Ok(StartPlan::Node { args: node_arguments(port) })
            } else {
                Err("未找到 dsh（PATH 无 dsh 且无 GitHub 安装目录），请先安装 dsh".to_owned())
            },
        }
    }

    /// The service was started. What was known of an earlier one is forgotten, but not how often it
    /// was restarted by itself.
    pub fn started(&mut self, pid: u32, port: u16)
        ensures
            final(self).status == DshStatus::Starting,
            final(self).pid == pid,
            final(self).port == port,
            final(self).web_url@ == Seq::<char>::empty(),
            !final(self).stopping,
            !final(self).conflict_logged,
            !final(self).restart_requested,
            final(self).restart_count == old(self).restart_count,
    {
        self.pid = pid;
        self.port = port;
        self.status = DshStatus::Starting;
        self.stopping = false;
        self.conflict_logged = false;
        self.restart_requested = false;
        self.web_url = String::new();
        proof {
            assert(self.web_url@ =~= Seq::<char>::empty());
        }
    }

    // ---- Adopting ----

    /// Takes over a service that listens already. Its stored address is kept only where it was seen
    /// to work.
    pub fn adopt_running(&mut self, port: u16, is_dsh: bool, cached: Option<&str>, works: bool) -> (r:
        Adoption)
        ensures
            final(self).same_flags(old(self)),
            final(self).pid == old(self).pid,
            if !(old(self).status == DshStatus::Stopped || old(self).status
                == DshStatus::Starting) {
                r == Adoption::NotNow && *final(self) == *old(self)
            } else if !is_dsh {
                r == Adoption::NotDsh && *final(self) == *old(self)
            } else {
                &&& final(self).status == DshStatus::Running
                &&& final(self).port == port
                &&& if cached is Some && works {
                    final(self).web_url@ == cached->0@ && r == (Adoption::Adopted {
                        forget_url: false,
                    })
                } else {
                    final(self).web_url@ == Seq::<char>::empty() && r == (Adoption::Adopted {
                        forget_url: true,
                    })
                }
            },
    {
        if !matches!(self.status, DshStatus::Stopped | DshStatus::Starting) {
            return Adoption::NotNow;
        }
        if !is_dsh {
            return Adoption::NotDsh;
        }
        self.status = DshStatus::Running;
        self.port = port;
        if let Some(url) = cached {
            if works {
                self.web_url = url.to_owned();
                return Adoption::Adopted { forget_url: false };
            }
        }
        self.web_url = String::new();
        proof {
            assert(self.web_url@ =~= Seq::<char>::empty());
        }
        Adoption::Adopted { forget_url: true }
    }

    // ---- Watching ----

    /// A line that the service printed. An address with a token on its standard output becomes the
    /// known address, and is to be stored.
    pub fn note_output(&mut self, line: &str, stdout: bool) -> (r: Option<String>)
        ensures
            final(self).same_flags(old(self)),
            final(self).status == old(self).status,
            final(self).pid == old(self).pid,
            final(self).port == old(self).port,
            model::text_of(r) == if stdout {
                web_url_in(line@)
            } else {
                None
            },
            final(self).web_url@ == match r {
                Some(url) => url@,
                None => old(self).web_url@,
            },
    {
        if !stdout {
            return None;
        }
        match extract_web_url(line) {
            Some(url) => {
                self.web_url = url.clone();
                Some(url)
            },
            None => None,
        }
    }

    /// One look at a service that was started a moment ago.
    pub fn probe_startup(&mut self, pid: u32, listening: bool) -> (r: ProbeStep)
        ensures
            final(self).same_flags(old(self)),
            final(self).pid == old(self).pid,
            final(self).port == old(self).port,
            final(self).web_url == old(self).web_url,
            r == if listening {
                ProbeStep::Ready
            } else if old(self).pid == 0 || old(self).pid != pid {
                ProbeStep::Crashed
            } else {
                ProbeStep::Wait
            },
            final(self).status == if listening && old(self).status == DshStatus::Starting {
                DshStatus::Running
            } else {
                old(self).status
            },
    {
        if listening {
            if matches!(self.status, DshStatus::Starting) {
                self.status = DshStatus::Running;
            }
            ProbeStep::Ready
        } else if self.pid == 0 || self.pid != pid {
            ProbeStep::Crashed
        } else {
            ProbeStep::Wait
        }
    }

    /// The service listens, and has been given time to report parts that did not come up. Where it
    /// is still the one that was started, such a report asks for a restart.
    pub fn review_startup(&mut self, pid: u32, complained: bool) -> (r: bool)
        ensures
            r == (old(self).pid == pid && complained),
            final(self).restart_requested == (old(self).restart_requested || r),
            final(self).status == old(self).status,
            final(self).pid == old(self).pid,
            final(self).port == old(self).port,
            final(self).web_url == old(self).web_url,
            final(self).stopping == old(self).stopping,
            final(self).conflict_logged == old(self).conflict_logged,
            final(self).restart_count == old(self).restart_count,
    {
        if self.pid == pid && complained {
            self.restart_requested = true;
            true
        } else {
            false
        }
    }

    /// The service that was started has ended before it listened.
    pub fn crashed(&mut self, pid: u32)
        ensures
            final(self).same_flags(old(self)),
            final(self).port == old(self).port,
            final(self).web_url == old(self).web_url,
            final(self).status == if old(self).status == DshStatus::Starting {
                DshStatus::Stopped
            } else {
                old(self).status
            },
            final(self).pid == if old(self).pid == pid {
                0
            } else {
                old(self).pid
            },
    {
        if matches!(self.status, DshStatus::Starting) {
            self.status = DshStatus::Stopped;
        }
        if self.pid == pid {
            self.pid = 0;
        }
    }

    /// A process has ended. Where it is the one that is managed, what was known of it is forgotten;
    /// a later one is left alone. The result says whether its stored address is to be deleted.
    pub fn exited(&mut self, pid: u32) -> (r: bool)
        ensures
            final(self).same_flags(old(self)),
            r == (old(self).pid == pid),
            !r ==> *final(self) == *old(self),
            r ==> {
                &&& final(self).status == if old(self).status == DshStatus::Stopping {
                    DshStatus::Stopping
                } else {
                    DshStatus::Stopped
                }
                &&& final(self).pid == 0
                &&& final(self).port == 0
                &&& final(self).web_url@ == Seq::<char>::empty()
            },
    {
        if self.pid != pid {
            return false;
        }
        if !matches!(self.status, DshStatus::Stopping) {
            self.status = DshStatus::Stopped;
        }
        self.pid = 0;
        self.port = 0;
        self.web_url = String::new();
        proof {
            assert(self.web_url@ =~= Seq::<char>::empty());
        }
        true
    }

    /// Takes a request for a restart, if there is one. More than the allowed number of restarts are
    /// not made.
    pub fn consume_pending_restart_request(&mut self) -> (r: PendingRestart)
        ensures
            !final(self).restart_requested,
            final(self).status == old(self).status,
            final(self).pid == old(self).pid,
            final(self).port == old(self).port,
            final(self).web_url == old(self).web_url,
            final(self).stopping == old(self).stopping,
            final(self).conflict_logged == old(self).conflict_logged,
            if !old(self).restart_requested {
                r == PendingRestart::NoRequest && final(self).restart_count == old(
                    self,
                ).restart_count
            } else {
                &&& final(self).restart_count == old(self).restart_count.wrapping_add(1)
                &&& r == if old(self).restart_count >= MAX_PENDING_AUTO_RESTARTS {
                    PendingRestart::Exhausted
                } else {
                    PendingRestart::Restart { attempt: (old(self).restart_count + 1) as u32 }
                }
            },
    {
        if !self.restart_requested {
            return PendingRestart::NoRequest;
        }
        self.restart_requested = false;
        let count = self.restart_count;
        self.restart_count = count.wrapping_add(1);
        if count >= MAX_PENDING_AUTO_RESTARTS {
            PendingRestart::Exhausted
        } else {
            PendingRestart::Restart { attempt: count + 1 }
        }
    }

    // ---- The regular look ----

    /// What is to be found out; nothing while a stop is under way.
    pub open spec fn probe(&self, cfg_port: u16) -> Probe {
        if self.stopping {
            Probe::Nothing
        } else if self.status == DshStatus::Starting {
            Probe::Startup { pid: self.pid, port: self.port }
        } else if self.status == DshStatus::Running && self.pid == 0 && self.port != 0 {
            Probe::Adopted { port: self.port }
        } else if self.status == DshStatus::Stopped && self.pid == 0 && cfg_port != 0 {
            Probe::Configured { port: cfg_port }
        } else {
            Probe::Nothing
        }
    }

    pub fn what_to_probe(&self, cfg_port: u16) -> (r: Probe)
        ensures
            r == self.probe(cfg_port),
    {
        if self.stopping {
            return Probe::Nothing;
        }
        match self.status {
            DshStatus::Starting => Probe::Startup { pid: self.pid, port: self.port },
            DshStatus::Running => if self.pid == 0 && self.port != 0 {
                Probe::Adopted { port: self.port }
            } else {
                Probe::Nothing
            },
            DshStatus::Stopped => if self.pid == 0 && cfg_port != 0 {
                Probe::Configured { port: cfg_port }
            } else {
                Probe::Nothing
            },
            _ => Probe::Nothing,
        }
    }

    /// Who listens on the port of a starting service is to be reported, once for each start.
    pub fn note_conflict(&mut self, listener: Listener) -> (report: bool)
        ensures
            report == (listener == Listener::Foreign && !old(self).conflict_logged),
            final(self).conflict_logged == (old(self).conflict_logged || listener
                == Listener::Foreign),
            final(self).status == old(self).status,
            final(self).pid == old(self).pid,
            final(self).port == old(self).port,
            final(self).web_url == old(self).web_url,
            final(self).stopping == old(self).stopping,
            final(self).restart_requested == old(self).restart_requested,
            final(self).restart_count == old(self).restart_count,
    {
        if matches!(listener, Listener::Foreign) && !self.conflict_logged {
            self.conflict_logged = true;
            true
        } else {
            false
        }
    }

    /// A starting service becomes running or stopped, or is waited for further. A state that has
    /// changed in the meantime is left alone.
    pub fn settle_startup(&mut self, listener: Listener, alive: bool) -> (r: Note)
        ensures
            final(self).same_flags(old(self)),
            final(self).pid == old(self).pid,
            final(self).port == old(self).port,
            final(self).web_url == old(self).web_url,
            final(self).status == if old(self).status == DshStatus::Starting && converged(
                listener.owned(),
                alive,
            ) is Some {
                converged(listener.owned(), alive)->0
            } else {
                old(self).status
            },
            r == if old(self).status != DshStatus::Starting {
                Note::Unchanged
            } else if listener.owned() {
                Note::BecameReady
            } else if !alive {
                Note::FoundDead
            } else {
                Note::Unchanged
            },
    {
        if !matches!(self.status, DshStatus::Starting) {
            return Note::Unchanged;
        }
        match starting_convergence(listener.is_owned(), alive) {
            Some(next) => {
                self.status = next;
                match next {
                    DshStatus::Running => Note::BecameReady,
                    _ => Note::FoundDead,
                }
            },
            None => Note::Unchanged,
        }
    }

    /// An adopted service that is gone, or whose port something else has taken, is no longer running.
    pub fn settle_adopted(&mut self, in_use: bool, is_dsh: bool) -> (r: Note)
        ensures
            final(self).same_flags(old(self)),
            final(self).pid == old(self).pid,
            final(self).port == old(self).port,
            r == if !in_use {
                Note::Gone
            } else if !is_dsh {
                Note::Displaced
            } else {
                Note::Unchanged
            },
            if r == Note::Unchanged {
                *final(self) == *old(self)
            } else {
                final(self).status == DshStatus::Stopped && final(self).web_url@ == Seq::<
                    char,
                >::empty()
            },
    {
        if in_use && is_dsh {
            return Note::Unchanged;
        }
        self.status = DshStatus::Stopped;
        self.web_url = String::new();
        proof {
            assert(self.web_url@ =~= Seq::<char>::empty());
        }
        if !in_use {
            Note::Gone
        } else {
            Note::Displaced
        }
    }
}

// ---- Stopping ----

/// Where a stop stands.
#[derive(Debug, Clone, Copy, PartialEq, Eq, Structural)]
pub enum StopStage {
    /// The pid of an adopted service is being looked up.
    Identify,
    /// The service was asked to end.
    Grace { pid: u32 },
    /// The service was killed.
    Killed,
    /// Whether the port is still taken is being looked up.
    Checking { port: u16 },
    /// The listener on the port is being looked up.
    Sweep { port: u16, round: u32 },
    /// A listener was killed.
    Swept { port: u16, round: u32 },
    /// Locks are being removed.
    Locks,
    /// The stop is over.
    Over,
}

/// What happened.
pub enum StopEvent {
    /// Who listens on the port, and whether it is the service.
    Listener { pid: Option<u32>, is_dsh: bool },
    /// The service has ended, or its time is up; and the port that is known by now.
    Waited { exited: bool, port: u16 },
    /// The kill has been carried out; and the port that is known by now.
    KillDone { port: u16 },
    /// Whether the port is taken.
    PortBusy(bool),
    /// Whether the port was released after a kill.
    Released(bool),
    LocksDone,
}

/// What is to be done next.
#[derive(Debug, Clone, Copy, PartialEq, Eq, Structural)]
pub enum StopAction {
    /// Find out who listens on the port.
    Identify(u16),
    /// Ask the process to end, and wait for it.
    Terminate(u32),
    /// Kill the process and everything it started.
    Kill(u32),
    /// Find out whether the port is taken.
    CheckPort(u16),
    /// Kill a process that outlived the service, and wait for the port.
    Clear { pid: u32, port: u16 },
    /// Remove locks that were left behind.
    CleanLocks,
    /// Nothing was stopped: the state becomes stopped, the rest is kept.
    GiveUp,
    /// Everything that was known of the service is forgotten.
    Finish,
}

/// A stop under way.
pub struct StopRun {
    pub stage: StopStage,
}

/// What follows once the service itself has ended.
pub open spec fn after_service(port: u16) -> (StopStage, StopAction) {
    if port != 0 {
        (StopStage::Checking { port }, StopAction::CheckPort(port))
    } else {
        (StopStage::Locks, StopAction::CleanLocks)
    }
}

fn next_after_service(port: u16) -> (r: (StopStage, StopAction))
    ensures
        r == after_service(port),
{
    if port != 0 {
        (StopStage::Checking { port }, StopAction::CheckPort(port))
    } else {
        (StopStage::Locks, StopAction::CleanLocks)
    }
}

impl StopRun {
    /// The event is one that the stage waits for.
    pub open spec fn expects(stage: StopStage, event: StopEvent) -> bool {
        match (stage, event) {
            (StopStage::Identify, StopEvent::Listener { .. }) => true,
            (StopStage::Grace { .. }, StopEvent::Waited { .. }) => true,
            (StopStage::Killed, StopEvent::KillDone { .. }) => true,
            (StopStage::Checking { .. }, StopEvent::PortBusy(_)) => true,
            (StopStage::Sweep { .. }, StopEvent::Listener { .. }) => true,
            (StopStage::Swept { .. }, StopEvent::Released(_)) => true,
            (StopStage::Locks, StopEvent::LocksDone) => true,
            _ => false,
        }
    }

    /// The stage that follows an event, and what is to be done.
    pub open spec fn after(stage: StopStage, event: StopEvent) -> (StopStage, StopAction) {
        match (stage, event) {
            (StopStage::Identify, StopEvent::Listener { pid, is_dsh }) => if pid is Some && pid->0
                != 0 && is_dsh {
                (StopStage::Grace { pid: pid->0 }, StopAction::Terminate(pid->0))
            } else {
                (StopStage::Over, StopAction::GiveUp)
            },
            (StopStage::Grace { pid }, StopEvent::Waited { exited, port }) => if exited {
                after_service(port)
            } else {
                (StopStage::Killed, StopAction::Kill(pid))
            },
            (StopStage::Killed, StopEvent::KillDone { port }) => after_service(port),
            (StopStage::Checking { port }, StopEvent::PortBusy(busy)) => if busy {
                (StopStage::Sweep { port, round: 1 }, StopAction::Identify(port))
            } else {
                (StopStage::Locks, StopAction::CleanLocks)
            },
            (StopStage::Sweep { port, round }, StopEvent::Listener { pid, is_dsh }) => if pid is Some
                && is_dsh {
                (StopStage::Swept { port, round }, StopAction::Clear { pid: pid->0, port })
            } else {
                (StopStage::Locks, StopAction::CleanLocks)
            },
            (StopStage::Swept { port, round }, StopEvent::Released(released)) => if !released
                && round < SWEEP_ROUNDS {
                (
                    StopStage::Sweep { port, round: (round + 1) as u32 },
                    StopAction::Identify(port),
                )
            } else {
                (StopStage::Locks, StopAction::CleanLocks)
            },
            _ => (StopStage::Over, StopAction::Finish),
        }
    }

    /// How many steps the stop can still take.
    pub open spec fn left(stage: StopStage) -> int {
        match stage {
            StopStage::Identify => 40,
            StopStage::Grace { .. } => 30,
            StopStage::Killed => 25,
            StopStage::Checking { .. } => 20,
            StopStage::Sweep { round, .. } => 3 + 2 * (SWEEP_ROUNDS - round),
            StopStage::Swept { round, .. } => 2 + 2 * (SWEEP_ROUNDS - round),
            StopStage::Locks => 1,
            StopStage::Over => 0,
        }
    }

    /// A stage that a stop can be in.
    pub open spec fn sound(stage: StopStage) -> bool {
        match stage {
            StopStage::Sweep { round, .. } => 1 <= round <= SWEEP_ROUNDS,
            StopStage::Swept { round, .. } => 1 <= round <= SWEEP_ROUNDS,
            _ => true,
        }
    }

    /// Goes on after an event.
    pub fn step(&mut self, event: StopEvent) -> (r: StopAction)
        requires
            StopRun::sound(old(self).stage),
            StopRun::expects(old(self).stage, event),
        ensures
            (final(self).stage, r) == StopRun::after(old(self).stage, event),
            StopRun::sound(final(self).stage),
    {
        let (stage, action) = match (self.stage, event) {
            (StopStage::Identify, StopEvent::Listener { pid, is_dsh }) => match pid {
                Some(p) => if p != 0 && is_dsh {
                    (StopStage::Grace { pid: p }, StopAction::Terminate(p))
                } else {
                    (StopStage::Over, StopAction::GiveUp)
                },
                None => (StopStage::Over, StopAction::GiveUp),
            },
            (StopStage::Grace { pid }, StopEvent::Waited { exited, port }) => if exited {
                next_after_service(port)
            } else {
                (StopStage::Killed, StopAction::Kill(pid))
            },
            (StopStage::Killed, StopEvent::KillDone { port }) => next_after_service(port),
            (StopStage::Checking { port }, StopEvent::PortBusy(busy)) => if busy {
                (StopStage::Sweep { port, round: 1 }, StopAction::Identify(port))
            } else {
                (StopStage::Locks, StopAction::CleanLocks)
            },
            (StopStage::Sweep { port, round }, StopEvent::Listener { pid, is_dsh }) => match pid {
                Some(p) => if is_dsh {
                    (StopStage::Swept { port, round }, StopAction::Clear { pid: p, port })
                } else {
                    (StopStage::Locks, StopAction::CleanLocks)
                },
                None => (StopStage::Locks, StopAction::CleanLocks),
            },
            (StopStage::Swept { port, round }, StopEvent::Released(released)) => if !released
                && round < SWEEP_ROUNDS {
                (StopStage::Sweep { port, round: round + 1 }, StopAction::Identify(port))
            } else {
                (StopStage::Locks, StopAction::CleanLocks)
            },
            _ => (StopStage::Over, StopAction::Finish),
        };
        self.stage = stage;
        action
    }
}

/// How a stop begins.
pub enum StopBegin {
    /// There is nothing to stop, or a stop is under way already.
    Nothing,
    /// The stop has begun.
    Run(StopRun, StopAction),
}

impl ProcessManager {
    /// Begins a stop. A service that was started here is known by its pid; one that was adopted has
    /// to be identified by its port.
    pub fn begin_stop(&mut self) -> (r: StopBegin)
        ensures
            final(self).pid == old(self).pid,
            final(self).port == old(self).port,
            final(self).web_url == old(self).web_url,
            final(self).conflict_logged == old(self).conflict_logged,
            final(self).restart_requested == old(self).restart_requested,
            final(self).restart_count == old(self).restart_count,
            if old(self).stopping || !(old(self).status == DshStatus::Running || old(self).status
                == DshStatus::Starting) {
                r is Nothing && *final(self) == *old(self)
            } else if old(self).pid == 0 && old(self).port == 0 {
                r is Nothing && !final(self).stopping && final(self).status == DshStatus::Stopped
            } else {
                &&& final(self).stopping
                &&& final(self).status == DshStatus::Stopping
                &&& r matches StopBegin::Run(run, action) && StopRun::sound(run.stage) && (
                run.stage, action) == (if old(self).pid != 0 {
                    (StopStage::Grace { pid: old(self).pid }, StopAction::Terminate(old(self).pid))
                } else {
                    (StopStage::Identify, StopAction::Identify(old(self).port))
                })
            },
    {
        if self.stopping || !matches!(self.status, DshStatus::Running | DshStatus::Starting) {
            return StopBegin::Nothing;
        }
        if self.pid == 0 && self.port == 0 {
            self.status = DshStatus::Stopped;
            return StopBegin::Nothing;
        }
        self.stopping = true;
        self.status = DshStatus::Stopping;
        if self.pid != 0 {
            StopBegin::Run(
                StopRun { stage: StopStage::Grace { pid: self.pid } },
                StopAction::Terminate(self.pid),
            )
        } else {
            StopBegin::Run(
                StopRun { stage: StopStage::Identify },
                StopAction::Identify(self.port),
            )
        }
    }

    /// The stop found nothing that it could end.
    pub fn give_up_stop(&mut self)
        ensures
            !final(self).stopping,
            final(self).status == DshStatus::Stopped,
            final(self).pid == old(self).pid,
            final(self).port == old(self).port,
            final(self).web_url == old(self).web_url,
            final(self).conflict_logged == old(self).conflict_logged,
            final(self).restart_requested == old(self).restart_requested,
            final(self).restart_count == old(self).restart_count,
    {
        self.stopping = false;
        self.status = DshStatus::Stopped;
    }

    /// The stop is over.
    pub fn finish_stop(&mut self)
        ensures
            !final(self).stopping,
            final(self).status == DshStatus::Stopped,
            final(self).pid == 0,
            final(self).port == 0,
            final(self).web_url@ == Seq::<char>::empty(),
            final(self).conflict_logged == old(self).conflict_logged,
            final(self).restart_requested == old(self).restart_requested,
            final(self).restart_count == old(self).restart_count,
    {
        self.status = DshStatus::Stopped;
        self.pid = 0;
        self.port = 0;
        self.web_url = String::new();
        self.stopping = false;
        proof {
            assert(self.web_url@ =~= Seq::<char>::empty());
        }
    }
}

/// No process is ended but the one that this launcher started or one that was just seen to be the
/// service: a stop that goes on after an event asks for the end of a process only where that event
/// identified it as the service, or where its end was asked for before.
pub proof fn law_only_the_service_is_ended(stage: StopStage, event: StopEvent)
    requires
        StopRun::expects(stage, event),
    ensures
        match StopRun::after(stage, event).1 {
            StopAction::Terminate(p) => event matches StopEvent::Listener { pid, is_dsh } && pid
                == Some(p) && is_dsh,
            StopAction::Clear { pid: p, .. } => event matches StopEvent::Listener { pid, is_dsh }
                && pid == Some(p) && is_dsh,
            StopAction::Kill(p) => stage == (StopStage::Grace { pid: p }),
            _ => true,
        },
        StopRun::after(stage, event).0 matches StopStage::Grace { pid } ==> StopRun::after(
            stage,
            event,
        ).1 == StopAction::Terminate(pid),
{
}

/// A stop ends: every step brings it closer, and it gives up or finishes exactly at its end.
pub proof fn law_stops_end(stage: StopStage, event: StopEvent)
    requires
        StopRun::sound(stage),
        StopRun::expects(stage, event),
    ensures
        StopRun::sound(StopRun::after(stage, event).0),
        0 <= StopRun::left(StopRun::after(stage, event).0) < StopRun::left(stage),
        StopRun::after(stage, event).0 is Over <==> (StopRun::after(stage, event).1 is GiveUp
            || StopRun::after(stage, event).1 is Finish),
{
}

/// How many of a number of requests lead to a restart, where `count` were made before.
pub open spec fn granted(count: nat, requests: nat) -> nat
    decreases requests,
{
    if requests == 0 {
        0
    } else {
        (if count < MAX_PENDING_AUTO_RESTARTS {
            1nat
        } else {
            0nat
        }) + granted(count + 1, (requests - 1) as nat)
    }
}

/// However many restarts are asked for, no more than the allowed number are made.
pub proof fn law_restarts_are_capped(count: nat, requests: nat)
    ensures
        granted(count, requests) + (if count < MAX_PENDING_AUTO_RESTARTS {
            count
        } else {
            MAX_PENDING_AUTO_RESTARTS as nat
        }) <= MAX_PENDING_AUTO_RESTARTS,
    decreases requests,
{
    if requests > 0 {
        law_restarts_are_capped(count + 1, (requests - 1) as nat);
    }
}

/// A starting service whose port is not ready is waited for as long as its process is alive.
pub proof fn law_slow_starts_are_waited_for(port_ready: bool, alive: bool)
    ensures
        converged(port_ready, alive) is None <==> !port_ready && alive,
        converged(port_ready, alive) == Some(DshStatus::Running) <==> port_ready,
{
}

} // verus!
