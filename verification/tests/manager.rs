use dsh_launcher::github::{DshProbe, ResolvedDsh};
use dsh_launcher::manager::{
    Adoption, Note, PendingRestart, Probe, ProbeStep, ProcessManager, StartPlan, StopAction,
    StopBegin, StopEvent, MAX_PENDING_AUTO_RESTARTS, SWEEP_ROUNDS,
};
use dsh_launcher::process::{DshStatus, Listener};

fn found(kind: DshProbe, path: Option<&str>) -> ResolvedDsh {
    ResolvedDsh { kind, shim_path: path.map(|p| p.to_string()) }
}

fn running() -> ProcessManager {
    let mut pm = ProcessManager::new();
    pm.started(42, 3080);
    assert_eq!(pm.probe_startup(42, true), ProbeStep::Ready);
    pm
}

#[test]
fn a_new_manager_is_idle() {
    let pm = ProcessManager::new();
    assert_eq!(pm.status(), DshStatus::Stopped);
    assert_eq!(pm.current_port(), 0);
    assert!(pm.web_url().is_empty());
    assert!(!pm.is_managed());
}

#[test]
fn test_is_managed_false_before_start() {
    let pm = ProcessManager::new();
    assert!(!pm.is_managed(), "未启动时不得声称托管理实例（pid 必须为 0）");
}

#[test]
fn starts_are_planned() {
    let pm = ProcessManager::new();
    let plan = pm.plan_start(3080, false, false, &found(DshProbe::Foreign, Some("C:\\dsh.cmd")));
    match plan {
        Ok(StartPlan::Shim { path, args }) => {
            assert_eq!(path, "C:\\dsh.cmd");
            assert_eq!(args, vec!["web", "--port", "3080", "--no-open"]);
        }
        _ => panic!("shim expected"),
    }
    match pm.plan_start(3080, false, true, &found(DshProbe::Missing, None)) {
        Ok(StartPlan::Node { args }) => assert_eq!(
            args,
            vec!["--import", "tsx/esm", "apps/cli/src/bin.ts", "web", "--port", "3080", "--no-open"]
        ),
        _ => panic!("node expected"),
    }
}

#[test]
fn starts_are_refused() {
    let pm = ProcessManager::new();
    let nothing = found(DshProbe::Missing, None);
    let said = |r: Result<StartPlan, String>| r.err().unwrap();
    assert_eq!(said(pm.plan_start(0, false, false, &nothing)), "端口 0 非法");
    assert_eq!(
        said(pm.plan_start(3080, true, false, &nothing)),
        "端口 3080 已被占用，请在设置中修改端口后重试"
    );
    assert_eq!(
        said(pm.plan_start(3080, false, false, &nothing)),
        "未找到 dsh（PATH 无 dsh 且无 GitHub 安装目录），请先安装 dsh"
    );
    assert_eq!(
        said(running().plan_start(3080, false, false, &nothing)),
        "dsh 正在运行或切换中"
    );
}

#[test]
fn a_slow_start_is_waited_for() {
    let mut pm = ProcessManager::new();
    pm.started(42, 3080);
    assert_eq!(pm.status(), DshStatus::Starting);
    assert!(pm.is_managed());
    assert_eq!(pm.probe_startup(42, false), ProbeStep::Wait);
    assert_eq!(pm.what_to_probe(3080), Probe::Startup { pid: 42, port: 3080 });
    assert_eq!(pm.settle_startup(Listener::Vacant, true), Note::Unchanged);
    assert_eq!(pm.status(), DshStatus::Starting);
    assert_eq!(pm.settle_startup(Listener::Managed, true), Note::BecameReady);
    assert_eq!(pm.status(), DshStatus::Running);
}

#[test]
fn a_dead_start_is_noticed() {
    let mut pm = ProcessManager::new();
    pm.started(42, 3080);
    assert_eq!(pm.settle_startup(Listener::Vacant, false), Note::FoundDead);
    assert_eq!(pm.status(), DshStatus::Stopped);
}

#[test]
fn the_address_is_read_from_the_output() {
    let mut pm = running();
    let url = pm.note_output("dsh web: http://127.0.0.1:3080/?token=a", true);
    assert_eq!(url.as_deref(), Some("http://127.0.0.1:3080/?token=a"));
    assert_eq!(pm.web_url(), "http://127.0.0.1:3080/?token=a");
}

#[test]
fn a_running_service_is_adopted() {
    let mut pm = ProcessManager::new();
    assert_eq!(pm.adopt_running(3080, false, None, false), Adoption::NotDsh);
    let taken = pm.adopt_running(3080, true, Some("http://127.0.0.1:3080/?token=a"), true);
    assert_eq!(taken, Adoption::Adopted { forget_url: false });
    assert_eq!(pm.status(), DshStatus::Running);
    assert!(!pm.is_managed());
    assert_eq!(pm.current_port(), 3080);
    assert_eq!(pm.what_to_probe(3080), Probe::Adopted { port: 3080 });
    assert_eq!(pm.settle_adopted(false, false), Note::Gone);
    assert_eq!(pm.status(), DshStatus::Stopped);
    assert_eq!(pm.what_to_probe(3080), Probe::Configured { port: 3080 });
    assert_eq!(running().adopt_running(3080, true, None, false), Adoption::NotNow);
}

#[test]
fn restarts_after_complaints_are_capped() {
    let mut pm = ProcessManager::new();
    assert_eq!(pm.consume_pending_restart_request(), PendingRestart::NoRequest);
    for attempt in 1..=MAX_PENDING_AUTO_RESTARTS {
        pm.restart_requested = true;
        assert_eq!(pm.consume_pending_restart_request(), PendingRestart::Restart { attempt });
    }
    pm.restart_requested = true;
    assert_eq!(pm.consume_pending_restart_request(), PendingRestart::Exhausted);
}

#[test]
fn conflicts_are_reported_once() {
    let mut pm = ProcessManager::new();
    pm.started(42, 3080);
    assert!(pm.note_conflict(Listener::Foreign));
    assert!(!pm.note_conflict(Listener::Foreign));
}

#[test]
fn an_exit_is_noticed() {
    let mut pm = running();
    assert!(!pm.exited(7));
    assert!(pm.exited(42));
    assert_eq!(pm.status(), DshStatus::Stopped);
    let mut pm = ProcessManager::new();
    pm.started(42, 3080);
    pm.crashed(42);
    assert_ne!(pm.status(), DshStatus::Starting);
}

#[test]
fn a_stop_ends_the_service_gracefully() {
    let mut pm = running();
    let (mut run, action) = match pm.begin_stop() {
        StopBegin::Run(run, action) => (run, action),
        StopBegin::Nothing => panic!("there is a service to stop"),
    };
    assert_eq!(pm.status(), DshStatus::Stopping);
    assert_eq!(action, StopAction::Terminate(42));
    let action = run.step(StopEvent::Waited { exited: true, port: 3080 });
    assert_eq!(action, StopAction::CheckPort(3080));
    assert_eq!(run.step(StopEvent::PortBusy(false)), StopAction::CleanLocks);
    assert_eq!(run.step(StopEvent::LocksDone), StopAction::Finish);
    pm.finish_stop();
    assert_eq!(pm.status(), DshStatus::Stopped);
    assert!(matches!(pm.begin_stop(), StopBegin::Nothing));
}

#[test]
fn a_stubborn_service_is_killed_and_swept() {
    let mut pm = running();
    let (mut run, _) = match pm.begin_stop() {
        StopBegin::Run(run, action) => (run, action),
        StopBegin::Nothing => panic!("there is a service to stop"),
    };
    assert_eq!(
        run.step(StopEvent::Waited { exited: false, port: 3080 }),
        StopAction::Kill(42)
    );
    assert_eq!(run.step(StopEvent::KillDone { port: 3080 }), StopAction::CheckPort(3080));
    let mut action = run.step(StopEvent::PortBusy(true));
    for _ in 0..SWEEP_ROUNDS {
        assert_eq!(action, StopAction::Identify(3080));
        action = run.step(StopEvent::Listener { pid: Some(43), is_dsh: true });
        assert_eq!(action, StopAction::Clear { pid: 43, port: 3080 });
        action = run.step(StopEvent::Released(false));
    }
    assert_eq!(action, StopAction::CleanLocks);
}

#[test]
fn foreign_processes_are_spared() {
    let mut pm = ProcessManager::new();
    pm.adopt_running(3080, true, None, false);
    let (mut run, action) = match pm.begin_stop() {
        StopBegin::Run(run, action) => (run, action),
        StopBegin::Nothing => panic!("there is a service to stop"),
    };
    assert_eq!(action, StopAction::Identify(3080));
    assert_eq!(
        run.step(StopEvent::Listener { pid: Some(9), is_dsh: false }),
        StopAction::GiveUp
    );
    pm.give_up_stop();
    assert_ne!(pm.status(), DshStatus::Stopping);
}

#[test]
fn complaints_ask_for_a_restart() {
    let mut pm = running();
    assert!(!pm.review_startup(42, false));
    assert!(!pm.review_startup(7, true));
    assert!(pm.review_startup(42, true));
    assert_eq!(
        pm.consume_pending_restart_request(),
        PendingRestart::Restart { attempt: 1 }
    );
}
