//! `redoubtful run`, step by step.

use redoubtful::check::{CheckOutcome, CheckResult, StyledDoc};
use redoubtful::cmd::run::{Run, RunAction, RunEvent};
use redoubtful::config::profile::Profile;
use redoubtful::errors::Error;

fn result(outcome: CheckOutcome) -> CheckResult {
    CheckResult { name: "bwrap".to_owned(), outcome }
}

fn passed() -> RunEvent {
    RunEvent::Checked(vec![result(CheckOutcome::Pass { detail: "fine".to_owned() })])
}

fn failed() -> RunEvent {
    RunEvent::Checked(vec![result(CheckOutcome::Fail {
        message: "bad".to_owned(),
        remediation: StyledDoc::new(),
    })])
}

/// Hand in the events, and return the last action.
fn drive(events: Vec<RunEvent>) -> RunAction {
    let mut run = Run::new(b"sh".to_vec(), vec![b"-c".to_vec()]);
    let mut last = RunAction::Rest;
    for event in events {
        let (next, action) = run.step(event);
        run = next;
        last = action;
    }
    last
}

fn located() -> RunEvent {
    RunEvent::Located(Ok(b"/w".to_vec()))
}

fn finalized() -> RunEvent {
    RunEvent::Finalized(Ok(Profile::default()))
}

fn up() -> Vec<RunEvent> {
    vec![passed(), located(), finalized(), RunEvent::Proxied(Ok(4000)), RunEvent::Spawned]
}

fn ended(code: Option<i32>, signal: Option<i32>) -> RunAction {
    let mut events = up();
    events.push(RunEvent::Exited { code, signal });
    events.push(RunEvent::Stopped);
    drive(events)
}

#[test]
fn run_run_silent_on_preflight_success() {
    assert!(matches!(drive(vec![passed()]), RunAction::Locate));
}

#[test]
fn a_failed_check_is_reported_and_nothing_is_started() {
    assert!(matches!(drive(vec![failed()]), RunAction::Report(results) if results.len() == 1));
    assert!(matches!(
        drive(vec![failed(), RunEvent::Reported(Ok(()))]),
        RunAction::Finish(Err(Error::Exit { command, code: 1 })) if command == "redoubtful run"
    ));
    assert!(matches!(
        drive(vec![failed(), RunEvent::Reported(Err("closed".to_owned()))]),
        RunAction::Finish(Err(Error::CouldNotWriteStdout { source })) if source == "closed"
    ));
    // Nothing that comes in later brings it further.
    assert!(matches!(
        drive(vec![failed(), located(), finalized(), RunEvent::Proxied(Ok(1))]),
        RunAction::Rest
    ));
}

#[test]
fn checks_that_cannot_be_completed_end_the_run() {
    let aborted = RunEvent::Aborted(Error::could_not_get_current_exe("gone"));
    assert!(matches!(
        drive(vec![aborted]),
        RunAction::Finish(Err(Error::CouldNotGetCurrentExe { source })) if source == "gone"
    ));
}

#[test]
fn steps_come_in_order() {
    assert!(matches!(drive(vec![passed(), located()]), RunAction::Finalize));
    assert!(matches!(drive(vec![passed(), located(), finalized()]), RunAction::StartProxy(_)));
    let proxied = vec![passed(), located(), finalized(), RunEvent::Proxied(Ok(4000))];
    match drive(proxied) {
        RunAction::Spawn(argv) => {
            assert_eq!(argv[9], b"4000".to_vec());
            assert_eq!(argv.last(), Some(&b"-c".to_vec()));
        }
        _ => panic!("expected a start"),
    }
    assert!(matches!(drive(up()), RunAction::Wait));
}

#[test]
fn a_step_that_fails_ends_the_run() {
    assert!(matches!(
        drive(vec![passed(), RunEvent::Located(Err("gone".to_owned()))]),
        RunAction::Finish(Err(Error::CouldNotGetCwd { source })) if source == "gone"
    ));
    let no_config = RunEvent::Finalized(Err(Error::missing_env_var("HOME")));
    assert!(matches!(
        drive(vec![passed(), located(), no_config]),
        RunAction::Finish(Err(Error::MissingEnvVar { .. }))
    ));
    let no_proxy = RunEvent::Proxied(Err(Error::no_root_certificates()));
    assert!(matches!(
        drive(vec![passed(), located(), finalized(), no_proxy]),
        RunAction::Finish(Err(Error::NoRootCertificates))
    ));
    let mut events = up();
    events.pop();
    events.push(RunEvent::Failed { what: "pasta".to_owned(), reason: "no".to_owned() });
    assert!(matches!(
        drive(events),
        RunAction::Finish(Err(Error::CouldNotRun { command, .. })) if command == "pasta"
    ));
}

#[test]
fn a_signal_kills_and_the_run_goes_on_waiting() {
    let mut events = up();
    events.push(RunEvent::Signalled);
    assert!(matches!(drive(events), RunAction::Kill));
    let mut events = up();
    events.push(RunEvent::Signalled);
    events.push(RunEvent::Exited { code: None, signal: Some(9) });
    assert!(matches!(drive(events), RunAction::StopProxy));
}

#[test]
fn the_sandbox_decides_the_result() {
    assert!(matches!(ended(Some(0), None), RunAction::Finish(Ok(()))));
    assert!(matches!(
        ended(Some(42), None),
        RunAction::Finish(Err(Error::Exit { command, code: 42 })) if command == "pasta bwrap sh"
    ));
    assert!(matches!(
        ended(None, Some(15)),
        RunAction::Finish(Err(Error::Signal { signal: 15, .. }))
    ));
}
