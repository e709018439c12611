//! What holds of every start, look and stop of the service, whatever it is asked to do.

use crate::dates::lemma_decimal;
use crate::github::ResolvedDsh;
use crate::manager::{
    Adoption, Note, PendingRestart, Probe, ProbeStep, ProcessManager, StartPlan, StopAction,
    StopBegin, StopEvent, StopRun, StopStage,
};
use crate::model;
use crate::process::Listener;
use vstd::prelude::*;

verus! {

/// The arguments of a start, to whichever program they go.
pub open spec fn arguments(plan: StartPlan) -> Seq<Seq<char>> {
    match plan {
        StartPlan::Shim { args, .. } => model::texts(args@),
        StartPlan::Node { args } => model::texts(args@),
    }
}

/// Every start names the port that was asked for: it stands in digits directly behind the one
/// `--port`. The browser is never opened by the service itself.
pub proof fn law_starts_use_the_port_asked_for(
    manager: &ProcessManager,
    port: u16,
    in_use: bool,
    clone_ok: bool,
    resolved: &ResolvedDsh,
    plan: StartPlan,
)
    requires
        call_ensures(
            ProcessManager::plan_start,
            (manager, port, in_use, clone_ok, resolved),
            Ok::<StartPlan, String>(plan),
        ),
    ensures
        exists|i: int| 0 <= i < arguments(plan).len() && arguments(plan)[i] == "--port"@,
        forall|i: int|
            0 <= i < arguments(plan).len() && #[trigger] arguments(plan)[i] == "--port"@ ==> {
                &&& i + 1 < arguments(plan).len()
                &&& model::parse_unsigned(arguments(plan)[i + 1], u16::MAX as nat) == Some(
                    port as nat,
                )
            },
        arguments(plan).contains("web"@),
        arguments(plan).contains("--no-open"@),
{
    lemma_decimal(port as nat);
    reveal_strlit("--port");
    reveal_strlit("web");
    reveal_strlit("--no-open");
    reveal_strlit("--import");
    reveal_strlit("tsx/esm");
    reveal_strlit("apps/cli/src/bin.ts");
    let args = arguments(plan);
    let d = model::decimal(port as nat);
    assert(model::digit(d[0]));
    assert(d[0] != '-' && d[0] != '+');
    let n = args.len() as int;
    assert(n == 4 || n == 7);
    assert(args[n - 4] == "web"@ && args[n - 3] == "--port"@ && args[n - 2] == d && args[n - 1]
        == "--no-open"@);
    assert forall|i: int| 0 <= i < n && #[trigger] args[i] == "--port"@ implies i == n - 3 by {
        if i == n - 2 {
            assert(args[i][0] == "--port"@[0]);
        } else if i == n - 1 {
            assert("--no-open"@.len() == 9);
            assert("--port"@.len() == 6);
        } else if i == n - 4 {
            assert("web"@.len() == 3);
        } else if i < n - 4 {
            assert("--import"@.len() == 8 && "tsx/esm"@.len() == 7 && "apps/cli/src/bin.ts"@.len()
                == 19);
        }
    }
}

/// Starts on different ports are never carried out by the same arguments.
pub proof fn law_ports_tell_starts_apart(
    manager: &ProcessManager,
    resolved: &ResolvedDsh,
    clone_ok: bool,
    a: u16,
    b: u16,
    first: StartPlan,
    second: StartPlan,
)
    requires
        call_ensures(
            ProcessManager::plan_start,
            (manager, a, false, clone_ok, resolved),
            Ok::<StartPlan, String>(first),
        ),
        call_ensures(
            ProcessManager::plan_start,
            (manager, b, false, clone_ok, resolved),
            Ok::<StartPlan, String>(second),
        ),
    ensures
        arguments(first) == arguments(second) ==> a == b,
{
    law_starts_use_the_port_asked_for(manager, a, false, clone_ok, resolved, first);
    law_starts_use_the_port_asked_for(manager, b, false, clone_ok, resolved, second);
    if arguments(first) == arguments(second) {
        let i = choose|i: int| 0 <= i < arguments(first).len() && arguments(first)[i] == "--port"@;
        assert(arguments(first)[i] == "--port"@);
        assert(arguments(second)[i] == "--port"@);
    }
}

/// The service is started exactly where it does not run, the port can be used and is free, and there
/// is something to start: another's command runs as it was found, and the sources run with `node`. A
/// shim of this launcher that leads nowhere is never started.
pub proof fn law_when_a_start_is_possible(
    manager: &ProcessManager,
    port: u16,
    in_use: bool,
    clone_ok: bool,
    resolved: &ResolvedDsh,
    r: Result<StartPlan, String>,
)
    requires
        call_ensures(ProcessManager::plan_start, (manager, port, in_use, clone_ok, resolved), r),
    ensures
        r is Ok <==> {
            &&& manager.status is Stopped || manager.status is Error
            &&& port != 0
            &&& !in_use
            &&& resolved.kind is Foreign && resolved.shim_path is Some || clone_ok && (
            resolved.kind is OwnedShimOk || resolved.kind is Missing)
        },
        r is Ok ==> match r->Ok_0 {
            StartPlan::Shim { path, .. } => resolved.kind is Foreign && Some(path)
                == resolved.shim_path,
            StartPlan::Node { .. } => !(resolved.kind is Foreign),
        },
{
}

/// A start is followed from its beginning: the service that was started is the one that is managed,
/// on the port that was asked for, and nothing is left of the address of an earlier one.
pub proof fn law_a_start_begins_afresh(it: &mut ProcessManager, pid: u32, port: u16)
    requires
        call_ensures(ProcessManager::started, (it, pid, port), ()),
    ensures
        final(it).status is Starting,
        final(it).pid == pid,
        final(it).port == port,
        final(it).web_url@.len() == 0,
        !final(it).stopping && !final(it).restart_requested && !final(it).conflict_logged,
        final(it).restart_count == old(it).restart_count,
{
}

/// A service is adopted exactly where the listener is the service and none is running, stopping or
/// failed. It then runs on the given port, and its stored address is used only where it works.
pub proof fn law_only_the_service_is_adopted(
    it: &mut ProcessManager,
    port: u16,
    is_dsh: bool,
    cached: Option<&str>,
    works: bool,
    r: Adoption,
)
    requires
        call_ensures(ProcessManager::adopt_running, (it, port, is_dsh, cached, works), r),
    ensures
        r is Adopted <==> is_dsh && (old(it).status is Stopped || old(it).status is Starting),
        r is Adopted ==> {
            &&& final(it).status is Running
            &&& final(it).port == port
            &&& final(it).web_url@.len() > 0 ==> works && cached is Some && final(it).web_url@
                == cached->0@
            &&& works && cached is Some ==> final(it).web_url@ == cached->0@
            &&& r->forget_url == !(works && cached is Some)
        },
        !(r is Adopted) ==> *final(it) == *old(it),
        final(it).pid == old(it).pid,
{
}

/// A starting service becomes running only when it listens, and is given up only when its process is
/// gone; until one of the two it is waited for.
pub proof fn law_a_look_decides_by_what_it_sees(
    it: &mut ProcessManager,
    listener: Listener,
    alive: bool,
    r: Note,
)
    requires
        call_ensures(ProcessManager::settle_startup, (it, listener, alive), r),
    ensures
        final(it).status != old(it).status ==> old(it).status is Starting,
        old(it).status is Starting ==> {
            &&& final(it).status is Running <==> (listener is Managed || listener is Adopted)
            &&& final(it).status is Stopped <==> !(listener is Managed || listener is Adopted)
                && !alive
            &&& final(it).status is Starting <==> !(listener is Managed || listener is Adopted)
                && alive
            &&& r is BecameReady <==> final(it).status is Running
            &&& r is FoundDead <==> final(it).status is Stopped
        },
        final(it).pid == old(it).pid && final(it).port == old(it).port,
{
}

/// While a service starts, it is running once it listens, and has crashed where it does not listen
/// and is no longer the one that is managed.
pub proof fn law_startups_are_watched(it: &mut ProcessManager, pid: u32, listening: bool, r: ProbeStep)
    requires
        call_ensures(ProcessManager::probe_startup, (it, pid, listening), r),
    ensures
        r is Ready <==> listening,
        r is Crashed ==> !listening && (old(it).pid != pid || pid == 0),
        !listening && pid != 0 && old(it).pid == pid ==> r is Wait,
        final(it).status is Running && !(old(it).status is Running) ==> listening
            && old(it).status is Starting,
        listening && old(it).status is Starting ==> final(it).status is Running,
{
}

/// An adopted service is let go exactly where nobody listens any more or where it is not the service
/// that listens; its address is then forgotten.
pub proof fn law_adopted_services_are_let_go(
    it: &mut ProcessManager,
    in_use: bool,
    is_dsh: bool,
    r: Note,
)
    requires
        call_ensures(ProcessManager::settle_adopted, (it, in_use, is_dsh), r),
    ensures
        in_use && is_dsh ==> *final(it) == *old(it),
        !(in_use && is_dsh) ==> final(it).status is Stopped && final(it).web_url@.len() == 0,
        r is Gone <==> !in_use,
        r is Displaced <==> in_use && !is_dsh,
{
}

/// The end of a process that is not the managed one changes nothing; the end of the managed one is a
/// stop, and what was known of it is forgotten.
pub proof fn law_ends_of_others_do_not_count(it: &mut ProcessManager, pid: u32, r: bool)
    requires
        call_ensures(ProcessManager::exited, (it, pid), r),
    ensures
        old(it).pid != pid ==> *final(it) == *old(it) && !r,
        old(it).pid == pid ==> {
            &&& r
            &&& final(it).pid == 0 && final(it).port == 0
            &&& final(it).web_url@.len() == 0
            &&& final(it).status is Stopped || (final(it).status is Stopping
                && old(it).status is Stopping)
            &&& old(it).status is Stopping ==> final(it).status is Stopping
        },
{
}

/// A process that ended before it listened is no longer starting and no longer managed; a later one
/// stays managed.
pub proof fn law_crashes_end_the_start(it: &mut ProcessManager, pid: u32)
    requires
        call_ensures(ProcessManager::crashed, (it, pid), ()),
    ensures
        old(it).status is Starting ==> final(it).status is Stopped,
        !(old(it).status is Starting) ==> final(it).status == old(it).status,
        old(it).pid == pid ==> final(it).pid == 0,
        old(it).pid != pid ==> final(it).pid == old(it).pid,
        final(it).port == old(it).port,
{
}

/// Only an address on the standard output with a token becomes the known address, and it stands in
/// the line as it is kept.
pub proof fn law_addresses_come_from_the_output(
    it: &mut ProcessManager,
    line: &str,
    stdout: bool,
    r: Option<String>,
)
    requires
        call_ensures(ProcessManager::note_output, (it, line, stdout), r),
    ensures
        !stdout ==> r is None,
        r is None ==> final(it).web_url@ == old(it).web_url@,
        r is Some ==> {
            &&& final(it).web_url@ == (r->0)@
            &&& model::starts_with((r->0)@, "http://127.0.0.1:"@)
            &&& model::contains((r->0)@, "token="@)
            &&& exists|i: int| #[trigger] model::matches_at(line@, (r->0)@, i)
        },
        final(it).status == old(it).status && final(it).pid == old(it).pid && final(it).port == old(
            it,
        ).port,
{
    if r is Some {
        let p = "http://127.0.0.1:"@;
        reveal_strlit("http://127.0.0.1:");
        model::lemma_find_at(line@, p, 0);
        let i = model::find(line@, p)->0;
        let rest = line@.skip(i);
        let k = model::CharSet::White;
        model::lemma_first_in(rest, k, 0);
        let n = model::first_in(rest, k, 0);
        let url = model::before_first(rest, k);
        assert(url == rest.take(n) || url == rest);
        assert forall|j: int| 0 <= j < p.len() implies #[trigger] rest[j] == p[j] && !k.has(rest[j]) by {
            assert(line@.subrange(i, i + p.len())[j] == p[j]);
        }
        assert(n >= p.len()) by {
            if n < p.len() {
                assert(rest[n] == p[n]);
            }
        }
        assert(url.subrange(0, p.len() as int) =~= p);
        assert(line@.subrange(i, i + url.len()) =~= url);
        assert(model::matches_at(line@, url, i));
    }
}

/// A restart by itself is made only on request, and no more than three are made; the request is
/// taken either way.
pub proof fn law_requested_restarts_are_capped(it: &mut ProcessManager, r: PendingRestart)
    requires
        call_ensures(ProcessManager::consume_pending_restart_request, (it,), r),
    ensures
        !final(it).restart_requested,
        r is NoRequest <==> !old(it).restart_requested,
        r is NoRequest ==> final(it).restart_count == old(it).restart_count,
        r matches PendingRestart::Restart { attempt } ==> {
            &&& 1 <= attempt <= 3
            &&& attempt == old(it).restart_count + 1
            &&& final(it).restart_count == attempt
        },
        r is Exhausted ==> old(it).restart_count >= 3,
        old(it).restart_requested && old(it).restart_count < 3 ==> r is Restart,
        final(it).status == old(it).status && final(it).pid == old(it).pid && final(it).port == old(
            it,
        ).port,
{
}

/// A restart is asked for exactly where the service that was started complains of parts that did not
/// come up.
pub proof fn law_complaints_ask_for_a_restart(
    it: &mut ProcessManager,
    pid: u32,
    complained: bool,
    r: bool,
)
    requires
        call_ensures(ProcessManager::review_startup, (it, pid, complained), r),
    ensures
        r <==> complained && old(it).pid == pid,
        r ==> final(it).restart_requested,
        !r ==> final(it).restart_requested == old(it).restart_requested,
        final(it).restart_count == old(it).restart_count && final(it).status == old(it).status,
{
}

/// What is looked at: nothing while a stop is under way, the started service by its own pid and
/// port, an adopted one by its port, and where nothing runs the port of the settings.
pub proof fn law_what_is_looked_at(manager: &ProcessManager, cfg_port: u16, r: Probe)
    requires
        call_ensures(ProcessManager::what_to_probe, (manager, cfg_port), r),
    ensures
        manager.stopping ==> r is Nothing,
        r matches Probe::Startup { pid, port } ==> manager.status is Starting && pid == manager.pid
            && port == manager.port,
        r matches Probe::Adopted { port } ==> manager.status is Running && manager.pid == 0 && port
            == manager.port && port != 0,
        r matches Probe::Configured { port } ==> manager.status is Stopped && manager.pid == 0
            && port == cfg_port && port != 0,
        !manager.stopping && manager.status is Starting ==> r is Startup,
        !manager.stopping && manager.status is Running && manager.pid == 0 && manager.port != 0
            ==> r is Adopted,
        !manager.stopping && manager.status is Stopped && manager.pid == 0 && cfg_port != 0
            ==> r is Configured,
{
}

/// A stop begins exactly where the service runs or starts and can be told: the one that was started
/// is asked to end by its pid, an adopted one is first looked up by its port.
pub proof fn law_stops_begin_with_the_service(it: &mut ProcessManager, r: StopBegin)
    requires
        call_ensures(ProcessManager::begin_stop, (it,), r),
    ensures
        r is Run <==> {
            &&& !old(it).stopping
            &&& old(it).status is Running || old(it).status is Starting
            &&& old(it).pid != 0 || old(it).port != 0
        },
        r matches StopBegin::Run(run, action) ==> {
            &&& final(it).stopping && final(it).status is Stopping
            &&& old(it).pid != 0 ==> action == StopAction::Terminate(old(it).pid) && run.stage
                == (StopStage::Grace { pid: old(it).pid })
            &&& old(it).pid == 0 ==> action == StopAction::Identify(old(it).port) && run.stage
                is Identify
        },
        old(it).stopping ==> *final(it) == *old(it),
        final(it).pid == old(it).pid && final(it).port == old(it).port,
{
}

/// A stop asks for the end of a process only where it was just seen to be the service or was asked
/// to end before; one that does not end is killed, and it ends the stop only after the port was
/// looked after and the locks were removed.
pub proof fn law_a_stop_takes_its_course(it: &mut StopRun, event: StopEvent, r: StopAction)
    requires
        call_ensures(StopRun::step, (it, event), r),
        StopRun::sound(old(it).stage),
        StopRun::expects(old(it).stage, event),
    ensures
        r matches StopAction::Terminate(p) ==> event matches StopEvent::Listener { pid, is_dsh }
            && is_dsh && pid == Some(p) && p != 0,
        r matches StopAction::Clear { pid: p, port: q } ==> {
            &&& event matches StopEvent::Listener { pid, is_dsh } && is_dsh && pid == Some(p)
            &&& old(it).stage matches StopStage::Sweep { port, .. } && port == q
        },
        r matches StopAction::Kill(p) ==> old(it).stage == (StopStage::Grace { pid: p })
            && !event->exited,
        old(it).stage is Grace && !event->exited ==> r is Kill,
        r is GiveUp ==> old(it).stage is Identify,
        r is Finish ==> old(it).stage is Locks,
        (old(it).stage is Identify && event->is_dsh && event->pid is Some && event->pid->0 != 0)
            ==> r is Terminate,
        r matches StopAction::CheckPort(p) ==> p != 0 && (old(it).stage is Grace
            || old(it).stage is Killed),
        old(it).stage is Killed && event->KillDone_port != 0 ==> r == StopAction::CheckPort(
            event->KillDone_port,
        ),
        old(it).stage is Grace && event->exited && event->Waited_port != 0 ==> r
            == StopAction::CheckPort(event->Waited_port),
        old(it).stage matches StopStage::Checking { port } ==> (event == StopEvent::PortBusy(true)
            ==> r == StopAction::Identify(port)),
        r is Finish || r is GiveUp <==> final(it).stage is Over,
{
}

/// Once a stop is over, nothing is known of the service any more; a stop that was given up leaves
/// only its state stopped.
pub proof fn law_stops_leave_nothing(done: &mut ProcessManager, given_up: &mut ProcessManager)
    requires
        call_ensures(ProcessManager::finish_stop, (done,), ()),
        call_ensures(ProcessManager::give_up_stop, (given_up,), ()),
    ensures
        final(done).status is Stopped && !final(done).stopping,
        final(done).pid == 0 && final(done).port == 0 && final(done).web_url@.len() == 0,
        final(given_up).status is Stopped && !final(given_up).stopping,
        final(given_up).pid == old(given_up).pid && final(given_up).port == old(given_up).port,
{
}

/// A start from the sources runs their entry, through the loader that it needs; a shim is handed the
/// service's arguments and nothing else.
pub proof fn law_what_a_start_runs(
    manager: &ProcessManager,
    port: u16,
    in_use: bool,
    clone_ok: bool,
    resolved: &ResolvedDsh,
    plan: StartPlan,
)
    requires
        call_ensures(
            ProcessManager::plan_start,
            (manager, port, in_use, clone_ok, resolved),
            Ok::<StartPlan, String>(plan),
        ),
    ensures
        plan is Node ==> model::passes(arguments(plan), "--import"@, "tsx/esm"@) && arguments(plan)[2]
            == "apps/cli/src/bin.ts"@ && arguments(plan)[3] == "web"@ && arguments(plan).len() == 7,
        plan is Shim ==> arguments(plan)[0] == "web"@ && arguments(plan).len() == 4,
{
    let args = arguments(plan);
    if plan is Node {
        assert(args[0] == "--import"@ && args[1] == "tsx/esm"@);
    }
}

/// What outlived the service is looked for in no more than five rounds.
pub proof fn law_sweeps_are_counted(it: &mut StopRun, released: bool, r: StopAction, port: u16, round: u32)
    requires
        old(it).stage == (StopStage::Swept { port, round }),
        1 <= round <= 5,
        call_ensures(StopRun::step, (it, StopEvent::Released(released)), r),
    ensures
        !released && round < 5 ==> r == StopAction::Identify(port) && final(it).stage == (
        StopStage::Sweep { port, round: (round + 1) as u32 }),
        released || round == 5 ==> r is CleanLocks,
{
}

} // verus!
