//! `redoubtful run`, step by step.
//!
//! The host is checked, the configuration is read, the proxy is started,
//! and then the sandbox; a signal kills it, and when it is gone the proxy
//! is stopped. Here it is decided what comes next; whoever does it comes
//! back with what came of it.

use crate::check::{any_failed, some_failed, CheckResult, ResultView};
use crate::config::profile::{Profile, ProfileView};
use crate::config::proxies::{Proxies, ProxiesView};
use crate::config::Merge;
use crate::errors::{unit_outcome, Error, ErrorView, Result};
use crate::sandbox::launch::{launch_argv, launch_tokens, run_outcome, run_result};
use crate::sandbox::proxy::proxy_contribution;
use crate::values::{views, Duplicate};
use vstd::prelude::*;
use vstd::string::*;

verus! {

/// A run of a command in a sandbox.
pub struct Run {
    /// The command.
    pub command: Vec<u8>,
    /// Its arguments.
    pub args: Vec<Vec<u8>>,
    /// How far it has come.
    pub stage: Stage,
}

/// How far a run has come: what it waits for.
pub enum Stage {
    /// The results of the checks.
    Checking,
    /// That the report on failed checks is printed.
    Reporting,
    /// The current directory.
    Locating,
    /// The finalized configuration.
    Configuring {
        /// The current directory.
        cwd: Vec<u8>,
    },
    /// The port of the proxy.
    Proxying {
        /// The current directory.
        cwd: Vec<u8>,
        /// The finalized configuration.
        profile: Profile,
    },
    /// That the sandbox is started.
    Starting,
    /// That the sandbox is gone.
    Waiting,
    /// That the proxy is stopped.
    Stopping {
        /// The exit code of the sandbox, where it has one.
        code: Option<i32>,
        /// The signal that ended it, where one did.
        signal: Option<i32>,
    },
    /// Nothing any more.
    Ended,
}

/// What came of something that was to be done.
pub enum RunEvent {
    /// The checks were made.
    Checked(Vec<CheckResult>),
    /// The checks could not be completed.
    Aborted(Error),
    /// The report was printed, or why it was not.
    Reported(std::result::Result<(), String>),
    /// The current directory, or why it is not known.
    Located(std::result::Result<Vec<u8>, String>),
    /// The configuration was finalized, or why it was not.
    Finalized(Result<Profile>),
    /// The proxy listens on this port, or why it does not.
    Proxied(Result<u16>),
    /// The sandbox was started.
    Spawned,
    /// The sandbox could not be started or waited for.
    Failed {
        /// What could not be done.
        what: String,
        /// What the operating system answered.
        reason: String,
    },
    /// A signal came in that asks us to end.
    Signalled,
    /// The sandbox is gone.
    Exited {
        /// Its exit code, where it has one.
        code: Option<i32>,
        /// The signal that ended it, where one did.
        signal: Option<i32>,
    },
    /// The proxy was stopped.
    Stopped,
}

/// What to do next.
pub enum RunAction {
    /// Print the report on these results.
    Report(Vec<CheckResult>),
    /// Find out the current directory.
    Locate,
    /// Read and finalize the configuration.
    Finalize,
    /// Start the proxy with this configuration.
    StartProxy(Proxies),
    /// Start `pasta` with these arguments.
    Spawn(Vec<Vec<u8>>),
    /// Wait for the sandbox, or for a signal.
    Wait,
    /// Kill the sandbox, and go on waiting.
    Kill,
    /// Stop the proxy.
    StopProxy,
    /// Nothing; this is the result.
    Finish(Result<()>),
    /// Nothing; the answer is still to come.
    Rest,
}

/// What a [`Run`] says.
#[verifier::ext_equal]
pub struct RunView {
    pub command: Seq<u8>,
    pub args: Seq<Seq<u8>>,
    pub stage: StageView,
}

/// What a [`Stage`] says.
#[verifier::ext_equal]
pub enum StageView {
    Checking,
    Reporting,
    Locating,
    Configuring { cwd: Seq<u8> },
    Proxying { cwd: Seq<u8>, profile: ProfileView },
    Starting,
    Waiting,
    Stopping { code: Option<i32>, signal: Option<i32> },
    Ended,
}

/// What a [`RunEvent`] says.
#[verifier::ext_equal]
pub enum RunEventView {
    Checked(Seq<ResultView>),
    Aborted(ErrorView),
    Reported(std::result::Result<(), Seq<char>>),
    Located(std::result::Result<Seq<u8>, Seq<char>>),
    Finalized(Result<ProfileView, ErrorView>),
    Proxied(Result<u16, ErrorView>),
    Spawned,
    Failed { what: Seq<char>, reason: Seq<char> },
    Signalled,
    Exited { code: Option<i32>, signal: Option<i32> },
    Stopped,
}

/// What a [`RunAction`] says.
#[verifier::ext_equal]
pub enum RunActionView {
    Report(Seq<ResultView>),
    Locate,
    Finalize,
    StartProxy(ProxiesView),
    Spawn(Seq<Seq<u8>>),
    Wait,
    Kill,
    StopProxy,
    Finish(Result<(), ErrorView>),
    Rest,
}

impl View for Stage {
    type V = StageView;

    open spec fn view(&self) -> StageView {
        match self {
            Stage::Checking => StageView::Checking,
            Stage::Reporting => StageView::Reporting,
            Stage::Locating => StageView::Locating,
            Stage::Configuring { cwd } => StageView::Configuring { cwd: cwd@ },
            Stage::Proxying { cwd, profile } => StageView::Proxying {
                cwd: cwd@,
                profile: profile@,
            },
            Stage::Starting => StageView::Starting,
            Stage::Waiting => StageView::Waiting,
            Stage::Stopping { code, signal } => StageView::Stopping {
                code: *code,
                signal: *signal,
            },
            Stage::Ended => StageView::Ended,
        }
    }
}

impl View for Run {
    type V = RunView;

    open spec fn view(&self) -> RunView {
        RunView { command: self.command@, args: views(self.args@), stage: self.stage@ }
    }
}

impl View for RunEvent {
    type V = RunEventView;

    open spec fn view(&self) -> RunEventView {
        match self {
            RunEvent::Checked(results) => RunEventView::Checked(views(results@)),
            RunEvent::Aborted(e) => RunEventView::Aborted(e@),
            RunEvent::Reported(r) => RunEventView::Reported(
                match r {
                    Ok(_) => Ok(()),
                    Err(e) => Err(e@),
                },
            ),
            RunEvent::Located(r) => RunEventView::Located(
                match r {
                    Ok(cwd) => Ok(cwd@),
                    Err(e) => Err(e@),
                },
            ),
            RunEvent::Finalized(r) => RunEventView::Finalized(
                match r {
                    Ok(profile) => Ok(profile@),
                    Err(e) => Err(e@),
                },
            ),
            RunEvent::Proxied(r) => RunEventView::Proxied(
                match r {
                    Ok(port) => Ok(*port),
                    Err(e) => Err(e@),
                },
            ),
            RunEvent::Spawned => RunEventView::Spawned,
            RunEvent::Failed { what, reason } => RunEventView::Failed {
                what: what@,
                reason: reason@,
            },
            RunEvent::Signalled => RunEventView::Signalled,
            RunEvent::Exited { code, signal } => RunEventView::Exited {
                code: *code,
                signal: *signal,
            },
            RunEvent::Stopped => RunEventView::Stopped,
        }
    }
}

impl View for RunAction {
    type V = RunActionView;

    open spec fn view(&self) -> RunActionView {
        match self {
            RunAction::Report(results) => RunActionView::Report(views(results@)),
            RunAction::Locate => RunActionView::Locate,
            RunAction::Finalize => RunActionView::Finalize,
            RunAction::StartProxy(proxies) => RunActionView::StartProxy(proxies@),
            RunAction::Spawn(argv) => RunActionView::Spawn(views(argv@)),
            RunAction::Wait => RunActionView::Wait,
            RunAction::Kill => RunActionView::Kill,
            RunAction::StopProxy => RunActionView::StopProxy,
            RunAction::Finish(r) => RunActionView::Finish(unit_outcome(*r)),
            RunAction::Rest => RunActionView::Rest,
        }
    }
}

/// The name under which a run that failed its checks ends.
pub const RUN_NAME: &'static str = "redoubtful run";

impl RunView {
    /// The run in another stage.
    pub open spec fn at(self, stage: StageView) -> RunView {
        RunView { stage, ..self }
    }

    /// The run at its end.
    pub open spec fn ended(self, result: Result<(), ErrorView>) -> (RunView, RunActionView) {
        (self.at(StageView::Ended), RunActionView::Finish(result))
    }

    /// What follows from what came of the last step. What was not waited
    /// for changes nothing.
    pub open spec fn step(self, event: RunEventView) -> (RunView, RunActionView) {
        match (self.stage, event) {
            (StageView::Checking, RunEventView::Checked(results)) => if some_failed(results) {
                (self.at(StageView::Reporting), RunActionView::Report(results))
            } else {
                (self.at(StageView::Locating), RunActionView::Locate)
            },
            (StageView::Checking, RunEventView::Aborted(e)) => self.ended(Err(e)),
            (StageView::Reporting, RunEventView::Reported(r)) => self.ended(
                Err(
                    match r {
                        Ok(_) => ErrorView::Exit { command: RUN_NAME@, code: 1 },
                        Err(source) => ErrorView::CouldNotWriteStdout { source },
                    },
                ),
            ),
            (StageView::Locating, RunEventView::Located(r)) => match r {
                Ok(cwd) => (self.at(StageView::Configuring { cwd }), RunActionView::Finalize),
                Err(source) => self.ended(Err(ErrorView::CouldNotGetCwd { source })),
            },
            (StageView::Configuring { cwd }, RunEventView::Finalized(r)) => match r {
                Ok(profile) => (
                    self.at(StageView::Proxying { cwd, profile }),
                    RunActionView::StartProxy(profile.proxies),
                ),
                Err(e) => self.ended(Err(e)),
            },
            (StageView::Proxying { cwd, profile }, RunEventView::Proxied(r)) => match r {
                Ok(port) => (
                    self.at(StageView::Starting),
                    RunActionView::Spawn(
                        launch_tokens(
                            Profile::merged(profile, proxy_contribution(port)),
                            cwd,
                            self.command,
                            self.args,
                        ),
                    ),
                ),
                Err(e) => self.ended(Err(e)),
            },
            (StageView::Starting, RunEventView::Spawned) => (
                self.at(StageView::Waiting),
                RunActionView::Wait,
            ),
            (StageView::Starting, RunEventView::Failed { what, reason }) => self.ended(
                Err(ErrorView::CouldNotRun { command: what, source: reason }),
            ),
            (StageView::Waiting, RunEventView::Failed { what, reason }) => self.ended(
                Err(ErrorView::CouldNotRun { command: what, source: reason }),
            ),
            (StageView::Waiting, RunEventView::Signalled) => (self, RunActionView::Kill),
            (StageView::Waiting, RunEventView::Exited { code, signal }) => (
                self.at(StageView::Stopping { code, signal }),
                RunActionView::StopProxy,
            ),
            (StageView::Stopping { code, signal }, RunEventView::Stopped) => self.ended(
                run_result(self.command, code, signal),
            ),
            _ => (self, RunActionView::Rest),
        }
    }

    /// How far a run has come after some events.
    pub open spec fn after(self, events: Seq<RunEventView>) -> RunView
        decreases events.len(),
    {
        if events.len() == 0 {
            self
        } else {
            self.after(events.drop_last()).step(events.last()).0
        }
    }
}

impl Run {
    /// A run of a command, for which the checks are to be made first.
    pub fn new(command: Vec<u8>, args: Vec<Vec<u8>>) -> (r: Run)
        ensures
            r@ == (RunView {
                command: command@,
                args: views(args@),
                stage: StageView::Checking,
            }),
    {
        Run { command, args, stage: Stage::Checking }
    }

    /// The run at its end.
    fn end(self, result: Result<()>) -> (r: (Run, RunAction))
        ensures
            (r.0@, r.1@) == self@.ended(unit_outcome(result)),
    {
        (
            Run { command: self.command, args: self.args, stage: Stage::Ended },
            RunAction::Finish(result),
        )
    }

    /// What follows from what came of the last step.
    pub fn step(self, event: RunEvent) -> (r: (Run, RunAction))
        ensures
            (r.0@, r.1@) == self@.step(event@),
    {
        let Run { command, args, stage } = self;
        match (stage, event) {
            (Stage::Checking, RunEvent::Checked(results)) => if any_failed(&results) {
                (
                    Run { command, args, stage: Stage::Reporting },
                    RunAction::Report(results),
                )
            } else {
                (Run { command, args, stage: Stage::Locating }, RunAction::Locate)
            },
            (Stage::Checking, RunEvent::Aborted(e)) => Run {
                command,
                args,
                stage: Stage::Checking,
            }.end(Err(e)),
            (Stage::Reporting, RunEvent::Reported(r)) => {
                let e = match r {
                    Ok(_) => Error::exit(RUN_NAME, 1),
                    Err(source) => Error::could_not_write_stdout(source.as_str()),
                };
                Run { command, args, stage: Stage::Reporting }.end(Err(e))
            },
            (Stage::Locating, RunEvent::Located(r)) => match r {
                Ok(cwd) => (
                    Run { command, args, stage: Stage::Configuring { cwd } },
                    RunAction::Finalize,
                ),
                Err(source) => Run { command, args, stage: Stage::Locating }.end(
                    Err(Error::could_not_get_cwd(source.as_str())),
                ),
            },
            (Stage::Configuring { cwd }, RunEvent::Finalized(r)) => match r {
                Ok(profile) => {
                    let proxies = profile.proxies.duplicate();
                    (
                        Run { command, args, stage: Stage::Proxying { cwd, profile } },
                        RunAction::StartProxy(proxies),
                    )
                },
                Err(e) => Run { command, args, stage: Stage::Configuring { cwd } }.end(Err(e)),
            },
            (Stage::Proxying { cwd, profile }, RunEvent::Proxied(r)) => match r {
                Ok(port) => {
                    let argv = launch_argv(
                        &profile,
                        port,
                        cwd.as_slice(),
                        command.as_slice(),
                        &args,
                    );
                    (Run { command, args, stage: Stage::Starting }, RunAction::Spawn(argv))
                },
                Err(e) => Run { command, args, stage: Stage::Proxying { cwd, profile } }.end(
                    Err(e),
                ),
            },
            (Stage::Starting, RunEvent::Spawned) => (
                Run { command, args, stage: Stage::Waiting },
                RunAction::Wait,
            ),
            (Stage::Starting, RunEvent::Failed { what, reason }) => Run {
                command,
                args,
                stage: Stage::Starting,
            }.end(Err(Error::could_not_run(what.as_str(), reason.as_str()))),
            (Stage::Waiting, RunEvent::Failed { what, reason }) => Run {
                command,
                args,
                stage: Stage::Waiting,
            }.end(Err(Error::could_not_run(what.as_str(), reason.as_str()))),
            (Stage::Waiting, RunEvent::Signalled) => (
                Run { command, args, stage: Stage::Waiting },
                RunAction::Kill,
            ),
            (Stage::Waiting, RunEvent::Exited { code, signal }) => (
                Run { command, args, stage: Stage::Stopping { code, signal } },
                RunAction::StopProxy,
            ),
            (Stage::Stopping { code, signal }, RunEvent::Stopped) => {
                let result = run_outcome(command.as_slice(), code, signal);
                Run { command, args, stage: Stage::Stopping { code, signal } }.end(result)
            },
            (stage, _) => (Run { command, args, stage }, RunAction::Rest),
        }
    }
}

// ---------------------------------------------------------------------
// Laws
// ---------------------------------------------------------------------
/// Is the host known to be fine at this stage?
pub open spec fn is_cleared(stage: StageView) -> bool {
    !(stage is Checking) && !(stage is Reporting) && !(stage is Ended)
}

/// Nothing is started on a host that was not checked, or that failed a
/// check: wherever a run has come beyond the checks, there was an event
/// with results among which none failed.
pub proof fn law_nothing_starts_unchecked(start: RunView, events: Seq<RunEventView>)
    requires
        start.stage is Checking,
        is_cleared(start.after(events).stage),
    ensures
        exists|i: int|
            0 <= i < events.len() && (#[trigger] events[i] matches RunEventView::Checked(results)
                && !some_failed(results)),
    decreases events.len(),
{
    if events.len() > 0 {
        let before = start.after(events.drop_last());
        if is_cleared(before.stage) {
            law_nothing_starts_unchecked(start, events.drop_last());
            let i = choose|i: int|
                0 <= i < events.len() - 1 && (#[trigger] events.drop_last()[i] matches
                    RunEventView::Checked(results) && !some_failed(results));
            assert(events[i] == events.drop_last()[i]);
        } else {
            assert(events[events.len() - 1] == events.last());
        }
    }
}

/// What a run ends with is what became of the sandbox, and before that the
/// proxy is stopped: success means that the sandbox exited with code 0, and
/// signals that come in while it runs do nothing but kill it.
pub proof fn law_result_is_the_sandboxs(me: RunView, event: RunEventView)
    ensures
        me.step(event).1 == RunActionView::Finish(Ok(())) ==> (me.stage matches
            StageView::Stopping { code, .. } && code == Some(0i32)),
        me.step(event).1 matches RunActionView::Finish(Err(ErrorView::Exit { code, .. })) ==> {
            ||| me.stage is Reporting && code == 1
            ||| me.stage matches StageView::Stopping { code: c, .. } && (c == Some(code) || c
                is None && code == 1)
            ||| event matches RunEventView::Aborted(ErrorView::Exit { .. })
            ||| event matches RunEventView::Finalized(Err(ErrorView::Exit { .. }))
            ||| event matches RunEventView::Proxied(Err(ErrorView::Exit { .. }))
        },
        me.stage is Waiting && event is Signalled ==> me.step(event) == (me, RunActionView::Kill),
        me.step(event).0.stage is Stopping && !(me.stage is Stopping) ==> me.step(event).1
            == RunActionView::StopProxy,
{
}

/// What ended stays ended.
pub proof fn law_end_is_final(me: RunView, event: RunEventView)
    requires
        me.stage is Ended,
    ensures
        me.step(event) == (me, RunActionView::Rest),
{
}

/// A run, step by step: a host that passed its checks is asked for its
/// directory, then the configuration is finalized, the proxy is started
/// with its destinations, the sandbox is started on the proxy's port and
/// waited for, and the proxy is stopped.
pub proof fn law_steps_follow_one_another(
    me: RunView,
    results: Seq<ResultView>,
    cwd: Seq<u8>,
    profile: ProfileView,
    port: u16,
    code: Option<i32>,
    signal: Option<i32>,
)
    ensures
        me.stage is Checking && !some_failed(results) ==> me.step(RunEventView::Checked(results))
            == (me.at(StageView::Locating), RunActionView::Locate),
        me.stage is Locating ==> me.step(RunEventView::Located(Ok(cwd))) == (
            me.at(StageView::Configuring { cwd }),
            RunActionView::Finalize,
        ),
        me.stage == (StageView::Configuring { cwd }) ==> me.step(
            RunEventView::Finalized(Ok(profile)),
        ) == (
            me.at(StageView::Proxying { cwd, profile }),
            RunActionView::StartProxy(profile.proxies),
        ),
        me.stage == (StageView::Proxying { cwd, profile }) ==> me.step(
            RunEventView::Proxied(Ok(port)),
        ) == (
            me.at(StageView::Starting),
            RunActionView::Spawn(
                launch_tokens(
                    Profile::merged(profile, proxy_contribution(port)),
                    cwd,
                    me.command,
                    me.args,
                ),
            ),
        ),
        me.stage is Starting ==> me.step(RunEventView::Spawned) == (
            me.at(StageView::Waiting),
            RunActionView::Wait,
        ),
        me.stage is Waiting ==> me.step(RunEventView::Exited { code, signal }) == (
            me.at(StageView::Stopping { code, signal }),
            RunActionView::StopProxy,
        ),
        me.stage == (StageView::Stopping { code, signal }) ==> me.step(RunEventView::Stopped) == (
            me.at(StageView::Ended),
            RunActionView::Finish(run_result(me.command, code, signal)),
        ),
{
}

/// Whatever goes wrong ends the run with the error that says so. A host
/// that failed a check is reported on first, and the run then ends under
/// its own name with code 1.
pub proof fn law_what_goes_wrong_ends_the_run(
    me: RunView,
    results: Seq<ResultView>,
    e: ErrorView,
    reason: Seq<char>,
    what: Seq<char>,
)
    ensures
        me.stage is Checking && some_failed(results) ==> me.step(RunEventView::Checked(results))
            == (me.at(StageView::Reporting), RunActionView::Report(results)),
        me.stage is Checking ==> me.step(RunEventView::Aborted(e)) == (
            me.at(StageView::Ended),
            RunActionView::Finish(Err(e)),
        ),
        me.stage is Reporting ==> me.step(RunEventView::Reported(Ok(()))) == (
            me.at(StageView::Ended),
            RunActionView::Finish(Err(ErrorView::Exit { command: "redoubtful run"@, code: 1 })),
        ),
        me.stage is Reporting ==> me.step(RunEventView::Reported(Err(reason))) == (
            me.at(StageView::Ended),
            RunActionView::Finish(Err(ErrorView::CouldNotWriteStdout { source: reason })),
        ),
        me.stage is Locating ==> me.step(RunEventView::Located(Err(reason))) == (
            me.at(StageView::Ended),
            RunActionView::Finish(Err(ErrorView::CouldNotGetCwd { source: reason })),
        ),
        me.stage is Configuring ==> me.step(RunEventView::Finalized(Err(e))) == (
            me.at(StageView::Ended),
            RunActionView::Finish(Err(e)),
        ),
        me.stage is Proxying ==> me.step(RunEventView::Proxied(Err(e))) == (
            me.at(StageView::Ended),
            RunActionView::Finish(Err(e)),
        ),
        me.stage is Starting || me.stage is Waiting ==> me.step(
            RunEventView::Failed { what, reason },
        ) == (
            me.at(StageView::Ended),
            RunActionView::Finish(
                Err(ErrorView::CouldNotRun { command: what, source: reason }),
            ),
        ),
{
}

/// A run keeps its command and its arguments from beginning to end.
pub proof fn law_command_is_kept(me: RunView, event: RunEventView)
    ensures
        me.step(event).0.command == me.command,
        me.step(event).0.args == me.args,
{
}

} // verus!
