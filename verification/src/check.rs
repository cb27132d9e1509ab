//! What the host must have for a sandbox: `bwrap` and `pasta` on `$PATH`,
//! and permission to create user namespaces.
//!
//! The caller runs the programs and reads the files; what follows from
//! their answers is decided here.

use crate::argv::chained;
use crate::errors::{outcome, unit_outcome, Error, ErrorView, Result};
pub use crate::styled::{ChunkView, DocChunk, StyledDoc};
use crate::styled::{colors_enabled, doc_text, paint_line, painted};
use crate::text::{
    cat3, copy_bytes, decimal, decimal_text, first_nonblank_line, first_trimmed, law_lines,
    law_replacing, lines, lossy_text, replace_str, replaced, str_eq, trim_start, trim_str, trimmed,
    utf8_lossy, utf8_text,
};
use crate::values::{opt_view, views};
use vstd::prelude::*;
use vstd::string::*;
use vstd::utf8::{decode_utf8, valid_utf8};

verus! {

// ---------------------------------------------------------------------
// Results
// ---------------------------------------------------------------------
/// The result of one check.
pub struct CheckResult {
    /// A short name: `bwrap`, `pasta` or `userns`.
    pub name: String,
    /// What came of it.
    pub outcome: CheckOutcome,
}

/// What came of a check.
pub enum CheckOutcome {
    /// The host is fine.
    Pass {
        /// What is fine about it.
        detail: String,
    },
    /// The check could not be made.
    Skip {
        /// Why it could not.
        reason: String,
    },
    /// The host is not fine.
    Fail {
        /// What is wrong.
        message: String,
        /// What to do about it.
        remediation: StyledDoc,
    },
}

/// What a [`CheckOutcome`] says.
#[verifier::ext_equal]
pub enum OutcomeView {
    Pass { detail: Seq<char> },
    Skip { reason: Seq<char> },
    Fail { message: Seq<char>, remediation: Seq<ChunkView> },
}

/// What a [`CheckResult`] says.
#[verifier::ext_equal]
pub struct ResultView {
    pub name: Seq<char>,
    pub outcome: OutcomeView,
}

impl View for CheckOutcome {
    type V = OutcomeView;

    open spec fn view(&self) -> OutcomeView {
        match self {
            CheckOutcome::Pass { detail } => OutcomeView::Pass { detail: detail@ },
            CheckOutcome::Skip { reason } => OutcomeView::Skip { reason: reason@ },
            CheckOutcome::Fail { message, remediation } => OutcomeView::Fail {
                message: message@,
                remediation: remediation@,
            },
        }
    }
}

impl View for CheckResult {
    type V = ResultView;

    open spec fn view(&self) -> ResultView {
        ResultView { name: self.name@, outcome: self.outcome@ }
    }
}

/// How many of the checks failed. One that was skipped did not.
pub open spec fn failures(results: Seq<ResultView>) -> nat
    decreases results.len(),
{
    if results.len() == 0 {
        0
    } else {
        failures(results.drop_last()) + if results.last().outcome is Fail {
            1nat
        } else {
            0nat
        }
    }
}

/// How many of the checks failed.
fn count_failed(results: &Vec<CheckResult>) -> (n: usize)
    ensures
        n == failures(views(results@)),
{
    let ghost all = views(results@);
    let mut n: usize = 0;
    let mut i: usize = 0;
    while i < results.len()
        invariant
            i <= results@.len(),
            all == views(results@),
            n <= i,
            n == failures(all.take(i as int)),
        decreases results.len() - i,
    {
        proof {
            assert(all.take(i + 1).drop_last() =~= all.take(i as int));
            assert(all.take(i + 1).last() == results@[i as int]@);
        }
        match results[i].outcome {
            CheckOutcome::Fail { .. } => {
                n = n + 1;
            },
            _ => {},
        }
        i = i + 1;
    }
    assert(all.take(all.len() as int) =~= all);
    n
}

/// Did any check fail? One that was skipped did not.
pub open spec fn some_failed(results: Seq<ResultView>) -> bool {
    exists|i: int| 0 <= i < results.len() && (#[trigger] results[i]).outcome is Fail
}

/// Did any check fail? One that was skipped did not.
pub fn any_failed(results: &Vec<CheckResult>) -> (r: bool)
    ensures
        r == some_failed(views(results@)),
{
    let mut i: usize = 0;
    while i < results.len()
        invariant
            i <= results@.len(),
            forall|j: int|
                0 <= j < i ==> !((#[trigger] views(results@)[j]).outcome is Fail),
        decreases results.len() - i,
    {
        assert(views(results@)[i as int] == results@[i as int]@);
        match results[i].outcome {
            CheckOutcome::Fail { .. } => {
                return true;
            },
            _ => {},
        }
        i = i + 1;
    }
    false
}

/// Failures are counted where there are any.
pub proof fn law_failures_counted(results: Seq<ResultView>)
    ensures
        failures(results) <= results.len(),
        failures(results) > 0 <==> some_failed(results),
    decreases results.len(),
{
    if results.len() > 0 {
        let rest = results.drop_last();
        law_failures_counted(rest);
        assert(results.last() == results[results.len() - 1]);
        assert forall|i: int| 0 <= i < rest.len() implies #[trigger] rest[i] == results[i] by {}
        if failures(results) == 0 {
            assert forall|i: int| 0 <= i < results.len() implies !((
            #[trigger] results[i]).outcome is Fail) by {
                if i < rest.len() {
                    assert(rest[i] == results[i]);
                }
            }
        }
    }
}

/// What the exit status of a command that only checks is to be: a failure
/// where a check failed.
pub fn check_exit(command: &str, results: &Vec<CheckResult>) -> (r: Result<()>)
    ensures
        unit_outcome(r) == (if some_failed(views(results@)) {
            Err(ErrorView::Exit { command: command@, code: 1 })
        } else {
            Ok(())
        }),
{
    if any_failed(results) {
        Err(Error::exit(command, 1))
    } else {
        Ok(())
    }
}

// ---------------------------------------------------------------------
// Programs on `$PATH`
// ---------------------------------------------------------------------
/// What came of running `BINARY --version`.
pub enum ProbeOutput {
    /// There is no such program.
    NotFound,
    /// It could not be run.
    Failed {
        /// What the operating system answered.
        reason: String,
    },
    /// It ran.
    Ran {
        /// Whether it reported success.
        success: bool,
        /// What it printed.
        stdout: Vec<u8>,
    },
}

/// What a [`ProbeOutput`] says.
#[verifier::ext_equal]
pub enum ProbeView {
    NotFound,
    Failed { reason: Seq<char> },
    Ran { success: bool, stdout: Seq<u8> },
}

impl View for ProbeOutput {
    type V = ProbeView;

    open spec fn view(&self) -> ProbeView {
        match self {
            ProbeOutput::NotFound => ProbeView::NotFound,
            ProbeOutput::Failed { reason } => ProbeView::Failed { reason: reason@ },
            ProbeOutput::Ran { success, stdout } => ProbeView::Ran {
                success: *success,
                stdout: stdout@,
            },
        }
    }
}

/// The version that a program printed: the first line that is not blank.
pub open spec fn version_in(binary: Seq<char>, printed: Seq<char>) -> Result<Seq<char>, ErrorView> {
    match first_trimmed(lines(printed)) {
        Some(line) => Ok(line),
        None => Err(ErrorView::CouldNotGetVersion { command: binary }),
    }
}

/// The version that a program reported, given what `missing` it is where
/// there is no such program.
pub open spec fn version_of(binary: Seq<char>, missing: ErrorView, output: ProbeView) -> Result<
    Seq<char>,
    ErrorView,
> {
    match output {
        ProbeView::NotFound => Err(missing),
        ProbeView::Failed { reason } => Err(
            ErrorView::CouldNotRun { command: binary, source: reason },
        ),
        ProbeView::Ran { success, stdout } => if success {
            version_in(binary, utf8_lossy(stdout))
        } else {
            Err(ErrorView::CouldNotGetVersion { command: binary })
        },
    }
}

/// The version that a program printed.
pub fn find_version(binary: &str, printed: &str) -> (r: Result<String>)
    ensures
        outcome(r) == version_in(binary@, printed@),
{
    match first_nonblank_line(printed) {
        Some(line) => Ok(line),
        None => Err(Error::could_not_get_version(binary)),
    }
}

/// The version that a program reported, given what error it is where there
/// is no such program.
pub(crate) fn reported_version(binary: &str, missing: Error, output: &ProbeOutput) -> (r: Result<
    String,
>)
    ensures
        outcome(r) == version_of(binary@, missing@, output@),
{
    match output {
        ProbeOutput::NotFound => Err(missing),
        ProbeOutput::Failed { reason } => Err(Error::could_not_run(binary, reason.as_str())),
        ProbeOutput::Ran { success, stdout } => {
            if !*success {
                return Err(Error::could_not_get_version(binary));
            }
            find_version(binary, lossy_text(stdout.as_slice()).as_str())
        },
    }
}

/// The version of a program, given what came of asking it.
pub fn probe(binary: &str, output: &ProbeOutput) -> (r: Result<String>)
    ensures
        outcome(r) == version_of(
            binary@,
            ErrorView::MissingDependency { command: binary@, package: None },
            output@,
        ),
{
    reported_version(binary, Error::missing_dependency(binary), output)
}

/// What to do where a program is missing.
pub open spec fn install_advice(package: Seq<char>) -> Seq<ChunkView> {
    seq![
        ChunkView::Paragraph("Install the `"@ + package + "` package, e.g.:"@),
        ChunkView::Code("sudo apt install "@ + package),
    ]
}

/// The result of a check for a program.
pub open spec fn path_result(
    name: Seq<char>,
    package: Seq<char>,
    probed: Result<Seq<char>, ErrorView>,
) -> ResultView {
    match probed {
        Ok(version) => ResultView {
            name,
            outcome: OutcomeView::Pass { detail: name + " on $PATH ("@ + version + ")"@ },
        },
        Err(e) => ResultView {
            name,
            outcome: OutcomeView::Fail { message: e.text(), remediation: install_advice(package) },
        },
    }
}

/// What to do where a program is missing.
fn install_remediation(package: &str) -> (r: StyledDoc)
    ensures
        r@ == install_advice(package@),
{
    let mut command = "sudo apt install ".to_owned();
    command.append(package);
    let r = StyledDoc::new().paragraph(
        cat3("Install the `", package, "` package, e.g.:").as_str(),
    ).code(command.as_str());
    assert(r@ =~= install_advice(package@));
    r
}

/// The result of a check for a program.
pub fn path_check(name: &str, package: &str, probed: Result<String>) -> (r: CheckResult)
    ensures
        r@ == path_result(name@, package@, outcome(probed)),
{
    match probed {
        Ok(version) => {
            let mut detail = cat3(name, " on $PATH (", version.as_str());
            detail.append(")");
            CheckResult { name: name.to_owned(), outcome: CheckOutcome::Pass { detail } }
        },
        Err(e) => CheckResult {
            name: name.to_owned(),
            outcome: CheckOutcome::Fail {
                message: e.message(),
                remediation: install_remediation(package),
            },
        },
    }
}

/// The result of the check for `bwrap`.
pub fn check_bwrap(output: &ProbeOutput) -> (r: CheckResult)
    ensures
        r@ == path_result(
            "bwrap"@,
            "bubblewrap"@,
            version_of(
                "bwrap"@,
                ErrorView::MissingDependency { command: "bwrap"@, package: None },
                output@,
            ),
        ),
{
    path_check("bwrap", "bubblewrap", probe("bwrap", output))
}

/// The result of the check for `pasta`.
pub fn check_pasta(output: &ProbeOutput) -> (r: CheckResult)
    ensures
        r@ == path_result(
            "pasta"@,
            "passt"@,
            version_of(
                "pasta"@,
                ErrorView::MissingDependency { command: "pasta"@, package: None },
                output@,
            ),
        ),
{
    path_check("pasta", "passt", probe("pasta", output))
}

// ---------------------------------------------------------------------
// User namespaces
// ---------------------------------------------------------------------
/// The file that says whether AppArmor restricts user namespaces: `1`
/// where it does.
pub const APPARMOR_SYSCTL: &'static str =
    "/proc/sys/kernel/apparmor_restrict_unprivileged_userns";

/// What stands for the path of the running binary in the profile.
pub const PATH_PLACEHOLDER: &'static str = "{REDOUBTFUL_PATH}";

/// An AppArmor profile under which a binary may create user namespaces.
pub const PROFILE_TEMPLATE: &'static str =
    "profile redoubtful {REDOUBTFUL_PATH} flags=(unconfined) {\n  userns,\n  include if exists <local/redoubtful>\n}\n";

/// Text with a line end after it, unless it has one.
pub open spec fn line_closed(s: Seq<char>) -> Seq<char> {
    if s.len() > 0 && s.last() == '\n' {
        s
    } else {
        s + "\n"@
    }
}

/// The commands that install the profile for the binary at `exe`.
pub open spec fn profile_commands(exe: Seq<char>) -> Seq<char> {
    "sudo tee /etc/apparmor.d/redoubtful >/dev/null <<'EOF'\n"@ + line_closed(
        replaced(PROFILE_TEMPLATE@, PATH_PLACEHOLDER@, exe),
    ) + "EOF\nsudo apparmor_parser -r /etc/apparmor.d/redoubtful"@
}

/// What to do where user namespaces are restricted.
pub open spec fn userns_advice(exe: Seq<char>) -> Seq<ChunkView> {
    seq![
        ChunkView::Paragraph(
            "Ubuntu 24.04+ blocks unprivileged user namespaces by default. Install an AppArmor profile to allow redoubtful to create them:"@,
        ),
        ChunkView::Code(profile_commands(exe)),
        ChunkView::Paragraph(
            "See docs/APPARMOR_USERNS.md for more and less secure alternatives."@,
        ),
    ]
}

/// What to do where user namespaces are restricted: the commands that
/// install a profile for the binary at `exe`, all in one piece, so that
/// they can be copied at once.
pub fn build_userns_remediation(exe: &str) -> (r: StyledDoc)
    ensures
        r@ == userns_advice(exe@),
{
    proof {
        reveal_strlit("{REDOUBTFUL_PATH}");
        reveal_strlit("\n");
    }
    let mut profile = replace_str(PROFILE_TEMPLATE, PATH_PLACEHOLDER, exe);
    let n = profile.as_str().unicode_len();
    if n == 0 || profile.as_str().get_char(n - 1) != '\n' {
        profile.append("\n");
    }
    let commands = cat3(
        "sudo tee /etc/apparmor.d/redoubtful >/dev/null <<'EOF'\n",
        profile.as_str(),
        "EOF\nsudo apparmor_parser -r /etc/apparmor.d/redoubtful",
    );
    let r = StyledDoc::new().paragraph(
        "Ubuntu 24.04+ blocks unprivileged user namespaces by default. Install an AppArmor profile to allow redoubtful to create them:",
    ).code(commands.as_str()).paragraph(
        "See docs/APPARMOR_USERNS.md for more and less secure alternatives.",
    );
    assert(r@ =~= userns_advice(exe@));
    r
}

/// What has become known about user namespaces.
pub enum UsernsEvent {
    /// Whether `bwrap` is there; nothing else was looked at.
    Start {
        /// Whether it is.
        bwrap_ok: bool,
    },
    /// What the file of AppArmor holds, where it can be read.
    Sysctl {
        /// Its text.
        content: Option<String>,
    },
    /// Whether `bwrap` could create a user namespace.
    Probed {
        /// Whether it could.
        ok: bool,
    },
    /// Where the running binary is, or why that cannot be told.
    Located {
        /// Its path.
        exe: std::result::Result<Vec<u8>, String>,
    },
}

/// What to do next about user namespaces.
pub enum UsernsStep {
    /// Read [`APPARMOR_SYSCTL`].
    ReadSysctl,
    /// Have `bwrap` create a user namespace.
    ProbeBwrap,
    /// Find out where the running binary is.
    LocateExe,
    /// Nothing; this is the result.
    Done(CheckResult),
    /// Nothing; the check cannot be completed.
    Abort(Error),
}

/// What a [`UsernsEvent`] says.
#[verifier::ext_equal]
pub enum EventView {
    Start { bwrap_ok: bool },
    Sysctl { content: Option<Seq<char>> },
    Probed { ok: bool },
    Located { exe: std::result::Result<Seq<u8>, Seq<char>> },
}

/// What a [`UsernsStep`] says.
#[verifier::ext_equal]
pub enum StepView {
    ReadSysctl,
    ProbeBwrap,
    LocateExe,
    Done(ResultView),
    Abort(ErrorView),
}

impl View for UsernsEvent {
    type V = EventView;

    open spec fn view(&self) -> EventView {
        match self {
            UsernsEvent::Start { bwrap_ok } => EventView::Start { bwrap_ok: *bwrap_ok },
            UsernsEvent::Sysctl { content } => EventView::Sysctl { content: opt_view(*content) },
            UsernsEvent::Probed { ok } => EventView::Probed { ok: *ok },
            UsernsEvent::Located { exe } => EventView::Located {
                exe: match exe {
                    Ok(p) => Ok(p@),
                    Err(e) => Err(e@),
                },
            },
        }
    }
}

impl View for UsernsStep {
    type V = StepView;

    open spec fn view(&self) -> StepView {
        match self {
            UsernsStep::ReadSysctl => StepView::ReadSysctl,
            UsernsStep::ProbeBwrap => StepView::ProbeBwrap,
            UsernsStep::LocateExe => StepView::LocateExe,
            UsernsStep::Done(r) => StepView::Done(r@),
            UsernsStep::Abort(e) => StepView::Abort(e@),
        }
    }
}

/// A result of the check for user namespaces.
pub open spec fn userns_result(outcome: OutcomeView) -> ResultView {
    ResultView { name: "userns"@, outcome }
}

/// Does the file of AppArmor say that user namespaces are restricted? One
/// that cannot be read does not.
pub open spec fn restricted(content: Option<Seq<char>>) -> bool {
    content matches Some(text) && trimmed(text) == "1"@
}

/// What follows from what has become known. The file is looked at before
/// `bwrap` is run, and where the binary is matters only once a profile has
/// to be written for it.
pub open spec fn userns_step(event: EventView) -> StepView {
    match event {
        EventView::Start { bwrap_ok } => if bwrap_ok {
            StepView::ReadSysctl
        } else {
            StepView::Done(
                userns_result(
                    OutcomeView::Skip { reason: "Need bwrap to check for userns support"@ },
                ),
            )
        },
        EventView::Sysctl { content } => if restricted(content) {
            StepView::ProbeBwrap
        } else {
            StepView::Done(
                userns_result(
                    OutcomeView::Pass {
                        detail: "User namespaces work (no AppArmor restriction)"@,
                    },
                ),
            )
        },
        EventView::Probed { ok } => if ok {
            StepView::Done(
                userns_result(
                    OutcomeView::Pass {
                        detail: "User namespaces work (AppArmor profile in place)"@,
                    },
                ),
            )
        } else {
            StepView::LocateExe
        },
        EventView::Located { exe } => match exe {
            Err(source) => StepView::Abort(ErrorView::CouldNotGetCurrentExe { source }),
            Ok(path) => if valid_utf8(path) {
                StepView::Done(
                    userns_result(
                        OutcomeView::Fail {
                            message: "bwrap could not create a user namespace"@,
                            remediation: userns_advice(decode_utf8(path)),
                        },
                    ),
                )
            } else {
                StepView::Abort(ErrorView::NonUtf8ExePath { path })
            },
        },
    }
}

/// A result of the check for user namespaces.
fn done(outcome: CheckOutcome) -> (r: UsernsStep)
    ensures
        r@ == StepView::Done(userns_result(outcome@)),
{
    UsernsStep::Done(CheckResult { name: "userns".to_owned(), outcome })
}

/// What follows from what has become known about user namespaces.
pub fn check_userns(event: &UsernsEvent) -> (r: UsernsStep)
    ensures
        r@ == userns_step(event@),
{
    match event {
        UsernsEvent::Start { bwrap_ok } => {
            if *bwrap_ok {
                UsernsStep::ReadSysctl
            } else {
                done(
                    CheckOutcome::Skip {
                        reason: "Need bwrap to check for userns support".to_owned(),
                    },
                )
            }
        },
        UsernsEvent::Sysctl { content } => {
            let is_restricted = match content {
                Some(text) => str_eq(trim_str(text.as_str()).as_str(), "1"),
                None => false,
            };
            if is_restricted {
                UsernsStep::ProbeBwrap
            } else {
                done(
                    CheckOutcome::Pass {
                        detail: "User namespaces work (no AppArmor restriction)".to_owned(),
                    },
                )
            }
        },
        UsernsEvent::Probed { ok } => {
            if *ok {
                done(
                    CheckOutcome::Pass {
                        detail: "User namespaces work (AppArmor profile in place)".to_owned(),
                    },
                )
            } else {
                UsernsStep::LocateExe
            }
        },
        UsernsEvent::Located { exe } => match exe {
            Err(source) => UsernsStep::Abort(Error::could_not_get_current_exe(source.as_str())),
            Ok(path) => match utf8_text(path.as_slice()) {
                Some(exe) => done(
                    CheckOutcome::Fail {
                        message: "bwrap could not create a user namespace".to_owned(),
                        remediation: build_userns_remediation(exe.as_str()),
                    },
                ),
                None => UsernsStep::Abort(Error::non_utf8_exe_path(copy_bytes(path.as_slice()))),
            },
        },
    }
}

/// Where the check for user namespaces starts, given the result of the
/// check for `bwrap`.
pub fn userns_start(bwrap: &CheckResult) -> (r: UsernsEvent)
    ensures
        r@ == (EventView::Start { bwrap_ok: bwrap@.outcome is Pass }),
{
    let bwrap_ok = match &bwrap.outcome {
        CheckOutcome::Pass { .. } => true,
        _ => false,
    };
    UsernsEvent::Start { bwrap_ok }
}

/// What is asked for next is answered by the next event, and after at most
/// three answers there is nothing left to ask.
pub proof fn law_userns_check_ends(event: EventView)
    ensures
        userns_step(event) is ReadSysctl ==> event is Start,
        userns_step(event) is ProbeBwrap ==> event is Sysctl,
        userns_step(event) is LocateExe ==> event is Probed,
        event is Located ==> userns_step(event) is Done || userns_step(event) is Abort,
{
}

/// The check fails only where AppArmor restricts user namespaces and
/// `bwrap` cannot create one; then, and only then, a profile is proposed.
/// Without `bwrap` it is skipped, not failed.
pub proof fn law_userns_fails_last(event: EventView)
    ensures
        userns_step(event) matches StepView::Done(r) ==> (r.outcome is Fail <==> event is Located),
        userns_step(event) matches StepView::Done(r) ==> (r.outcome is Skip <==> event is Start),
{
}

// ---------------------------------------------------------------------
// All checks
// ---------------------------------------------------------------------
/// How far the checks have come: what they wait for.
pub enum CheckStage {
    /// What came of asking `bwrap` for its version.
    Bwrap,
    /// What came of asking `pasta` for its version.
    Pasta {
        /// The result for `bwrap`.
        bwrap: CheckResult,
    },
    /// What has become known about user namespaces.
    Userns {
        /// The result for `bwrap`.
        bwrap: CheckResult,
        /// The result for `pasta`.
        pasta: CheckResult,
    },
    /// Nothing any more.
    Ended,
}

/// What came of something that was to be found out.
pub enum CheckEvent {
    /// A program was asked for its version.
    Version(ProbeOutput),
    /// Something has become known about user namespaces.
    Userns(UsernsEvent),
}

/// What to find out next.
pub enum CheckAction {
    /// Ask `pasta` for its version.
    AskPasta,
    /// Read [`APPARMOR_SYSCTL`].
    ReadSysctl,
    /// Have `bwrap` create a user namespace.
    ProbeBwrap,
    /// Find out where the running binary is.
    LocateExe,
    /// Nothing; these are the results.
    Done(Vec<CheckResult>),
    /// Nothing; the checks cannot be completed.
    Abort(Error),
    /// Nothing; the answer is still to come.
    Rest,
}

/// What a [`CheckStage`] says.
#[verifier::ext_equal]
pub enum CheckStageView {
    Bwrap,
    Pasta { bwrap: ResultView },
    Userns { bwrap: ResultView, pasta: ResultView },
    Ended,
}

/// What a [`CheckEvent`] says.
#[verifier::ext_equal]
pub enum CheckEventView {
    Version(ProbeView),
    Userns(EventView),
}

/// What a [`CheckAction`] says.
#[verifier::ext_equal]
pub enum CheckActionView {
    AskPasta,
    ReadSysctl,
    ProbeBwrap,
    LocateExe,
    Done(Seq<ResultView>),
    Abort(ErrorView),
    Rest,
}

impl View for CheckStage {
    type V = CheckStageView;

    open spec fn view(&self) -> CheckStageView {
        match self {
            CheckStage::Bwrap => CheckStageView::Bwrap,
            CheckStage::Pasta { bwrap } => CheckStageView::Pasta { bwrap: bwrap@ },
            CheckStage::Userns { bwrap, pasta } => CheckStageView::Userns {
                bwrap: bwrap@,
                pasta: pasta@,
            },
            CheckStage::Ended => CheckStageView::Ended,
        }
    }
}

impl View for CheckEvent {
    type V = CheckEventView;

    open spec fn view(&self) -> CheckEventView {
        match self {
            CheckEvent::Version(output) => CheckEventView::Version(output@),
            CheckEvent::Userns(event) => CheckEventView::Userns(event@),
        }
    }
}

impl View for CheckAction {
    type V = CheckActionView;

    open spec fn view(&self) -> CheckActionView {
        match self {
            CheckAction::AskPasta => CheckActionView::AskPasta,
            CheckAction::ReadSysctl => CheckActionView::ReadSysctl,
            CheckAction::ProbeBwrap => CheckActionView::ProbeBwrap,
            CheckAction::LocateExe => CheckActionView::LocateExe,
            CheckAction::Done(results) => CheckActionView::Done(views(results@)),
            CheckAction::Abort(e) => CheckActionView::Abort(e@),
            CheckAction::Rest => CheckActionView::Rest,
        }
    }
}

/// The result of the check for a program, given what came of asking it.
pub open spec fn program_result(
    name: Seq<char>,
    package: Seq<char>,
    output: ProbeView,
) -> ResultView {
    path_result(
        name,
        package,
        version_of(
            name,
            ErrorView::MissingDependency { command: name, package: None },
            output,
        ),
    )
}

/// Where the checks are after a step of the one for user namespaces. Its
/// result comes after those for the programs.
pub open spec fn after_userns(bwrap: ResultView, pasta: ResultView, step: StepView) -> (
    CheckStageView,
    CheckActionView,
) {
    let waiting = CheckStageView::Userns { bwrap, pasta };
    match step {
        StepView::ReadSysctl => (waiting, CheckActionView::ReadSysctl),
        StepView::ProbeBwrap => (waiting, CheckActionView::ProbeBwrap),
        StepView::LocateExe => (waiting, CheckActionView::LocateExe),
        StepView::Done(userns) => (
            CheckStageView::Ended,
            CheckActionView::Done(seq![bwrap, pasta, userns]),
        ),
        StepView::Abort(e) => (CheckStageView::Ended, CheckActionView::Abort(e)),
    }
}

/// What follows from what came of the last step: `bwrap` is looked at
/// first, then `pasta`, then user namespaces, for which `bwrap` has to be
/// there. What was not waited for changes nothing.
pub open spec fn check_step(stage: CheckStageView, event: CheckEventView) -> (
    CheckStageView,
    CheckActionView,
) {
    match (stage, event) {
        (CheckStageView::Bwrap, CheckEventView::Version(output)) => (
            CheckStageView::Pasta { bwrap: program_result("bwrap"@, "bubblewrap"@, output) },
            CheckActionView::AskPasta,
        ),
        (CheckStageView::Pasta { bwrap }, CheckEventView::Version(output)) => after_userns(
            bwrap,
            program_result("pasta"@, "passt"@, output),
            userns_step(EventView::Start { bwrap_ok: bwrap.outcome is Pass }),
        ),
        (
            CheckStageView::Userns { bwrap, pasta },
            CheckEventView::Userns(event),
        ) => after_userns(bwrap, pasta, userns_step(event)),
        _ => (stage, CheckActionView::Rest),
    }
}

/// Where the checks are after a step of the one for user namespaces.
fn go_on(bwrap: CheckResult, pasta: CheckResult, step: UsernsStep) -> (r: (CheckStage, CheckAction))
    ensures
        (r.0@, r.1@) == after_userns(bwrap@, pasta@, step@),
{
    match step {
        UsernsStep::ReadSysctl => (CheckStage::Userns { bwrap, pasta }, CheckAction::ReadSysctl),
        UsernsStep::ProbeBwrap => (CheckStage::Userns { bwrap, pasta }, CheckAction::ProbeBwrap),
        UsernsStep::LocateExe => (CheckStage::Userns { bwrap, pasta }, CheckAction::LocateExe),
        UsernsStep::Done(userns) => {
            let results = vec![bwrap, pasta, userns];
            assert(views(results@) =~= seq![bwrap@, pasta@, userns@]);
            (CheckStage::Ended, CheckAction::Done(results))
        },
        UsernsStep::Abort(e) => (CheckStage::Ended, CheckAction::Abort(e)),
    }
}

/// What follows from what came of the last step of the checks. They start
/// at [`CheckStage::Bwrap`].
pub fn run_all_checks(stage: CheckStage, event: CheckEvent) -> (r: (CheckStage, CheckAction))
    ensures
        (r.0@, r.1@) == check_step(stage@, event@),
{
    match (stage, event) {
        (CheckStage::Bwrap, CheckEvent::Version(output)) => (
            CheckStage::Pasta { bwrap: check_bwrap(&output) },
            CheckAction::AskPasta,
        ),
        (CheckStage::Pasta { bwrap }, CheckEvent::Version(output)) => {
            let step = check_userns(&userns_start(&bwrap));
            go_on(bwrap, check_pasta(&output), step)
        },
        (CheckStage::Userns { bwrap, pasta }, CheckEvent::Userns(event)) => go_on(
            bwrap,
            pasta,
            check_userns(&event),
        ),
        (stage, _) => (stage, CheckAction::Rest),
    }
}

/// Without `bwrap` the check for user namespaces is skipped, not failed,
/// and nothing more is asked.
pub proof fn law_userns_needs_bwrap(bwrap: ResultView, output: ProbeView)
    requires
        !(bwrap.outcome is Pass),
    ensures
        check_step(
            CheckStageView::Pasta { bwrap },
            CheckEventView::Version(output),
        ).1 matches CheckActionView::Done(results) && results.len() == 3 && results[0] == bwrap
            && results[2].outcome is Skip,
{
}

/// Whatever is found out, the results are those for `bwrap`, for `pasta`
/// and for user namespaces, in this order.
pub proof fn law_results_in_order(stage: CheckStageView, event: CheckEventView)
    ensures
        check_step(stage, event).1 matches CheckActionView::Done(results) ==> results.len() == 3
            && results[2].name == "userns"@,
        check_step(stage, event).1 is Done ==> (stage matches CheckStageView::Userns {
            bwrap,
            pasta,
        } && check_step(stage, event).1->Done_0.take(2) == seq![bwrap, pasta]) || (
        stage matches CheckStageView::Pasta { bwrap } && check_step(stage, event).1->Done_0[0]
            == bwrap && check_step(stage, event).1->Done_0[1].name == "pasta"@),
{
    match check_step(stage, event).1 {
        CheckActionView::Done(results) => {
            match stage {
                CheckStageView::Userns { bwrap, pasta } => {
                    assert(results.take(2) =~= seq![bwrap, pasta]);
                },
                _ => {},
            }
        },
        _ => {},
    }
}

// ---------------------------------------------------------------------
// The report
// ---------------------------------------------------------------------
/// The first line of the report.
pub const REPORT_HEADER: &'static str = "Checking redoubtful prerequisites…\n";

/// The line that says what came of a check.
pub open spec fn headline(outcome: OutcomeView) -> Seq<char> {
    match outcome {
        OutcomeView::Pass { detail } => "✅ "@ + detail,
        OutcomeView::Skip { reason } => "➖ "@ + reason,
        OutcomeView::Fail { message, .. } => "❌ "@ + message,
    }
}

/// How the result of a check reads. What to do about a failure follows it
/// after a blank line, and a blank line ends it.
pub open spec fn result_text(r: ResultView, colors: bool) -> Seq<char> {
    painted("bold"@, headline(r.outcome), colors) + "\n"@ + match r.outcome {
        OutcomeView::Fail { remediation, .. } => "\n"@ + doc_text(remediation, colors),
        _ => Seq::empty(),
    } + "\n"@
}

/// The last line of the report.
pub open spec fn summary_text(failed: nat, colors: bool) -> Seq<char> {
    if failed == 0 {
        painted("green.bold"@, "All checks passed."@, colors) + "\n"@
    } else if failed == 1 {
        painted("red.bold"@, "1 check failed."@, colors) + "\n"@
    } else {
        painted("red.bold"@, decimal(failed) + " checks failed."@, colors) + "\n"@
    }
}

/// The report.
pub open spec fn report_text(results: Seq<ResultView>, colors: bool) -> Seq<char> {
    REPORT_HEADER@ + chained(results.map_values(|r: ResultView| result_text(r, colors)))
        + summary_text(failures(results), colors)
}

/// Append how the result of a check reads.
fn write_result(out: &mut String, r: &CheckResult, colors: bool)
    ensures
        final(out)@ == old(out)@ + result_text(r@, colors),
{
    let mut line = match &r.outcome {
        CheckOutcome::Pass { .. } => "✅ ".to_owned(),
        CheckOutcome::Skip { .. } => "➖ ".to_owned(),
        CheckOutcome::Fail { .. } => "❌ ".to_owned(),
    };
    match &r.outcome {
        CheckOutcome::Pass { detail } => line.append(detail.as_str()),
        CheckOutcome::Skip { reason } => line.append(reason.as_str()),
        CheckOutcome::Fail { message, .. } => line.append(message.as_str()),
    }
    paint_line(out, "bold", line.as_str(), colors);
    match &r.outcome {
        CheckOutcome::Fail { remediation, .. } => {
            out.append("\n");
            remediation.write_colored(out, colors);
        },
        _ => {},
    }
    out.append("\n");
    assert(out@ =~= old(out)@ + result_text(r@, colors));
}

/// Append the report to `out`, with colours or without.
pub fn print_report_colored(out: &mut String, results: &Vec<CheckResult>, colors: bool)
    ensures
        final(out)@ == old(out)@ + report_text(views(results@), colors),
{
    let ghost all = views(results@);
    let ghost texts = all.map_values(|r: ResultView| result_text(r, colors));
    out.append(REPORT_HEADER);
    let ghost head = out@;
    let mut i: usize = 0;
    assert(head + chained(texts.take(0)) =~= head);
    while i < results.len()
        invariant
            i <= results@.len(),
            all == views(results@),
            texts == all.map_values(|r: ResultView| result_text(r, colors)),
            out@ == head + chained(texts.take(i as int)),
        decreases results.len() - i,
    {
        write_result(out, &results[i], colors);
        proof {
            assert(all[i as int] == results@[i as int]@);
            assert(texts.take(i + 1).drop_last() =~= texts.take(i as int));
            assert(texts.take(i + 1).last() == texts[i as int]);
            assert(out@ =~= head + chained(texts.take(i + 1)));
        }
        i = i + 1;
    }
    assert(texts.take(texts.len() as int) =~= texts);
    let failed = count_failed(results);
    if failed == 0 {
        paint_line(out, "green.bold", "All checks passed.", colors);
    } else if failed == 1 {
        paint_line(out, "red.bold", "1 check failed.", colors);
    } else {
        let mut line = decimal_text(failed as u64);
        line.append(" checks failed.");
        paint_line(out, "red.bold", line.as_str(), colors);
    }
    assert(out@ =~= old(out)@ + report_text(all, colors));
}

/// Append the report to `out`, with colours where the terminal wants them.
pub fn print_report(out: &mut String, results: &Vec<CheckResult>)
    ensures
        final(out)@ == old(out)@ + report_text(views(results@), true) || final(out)@ == old(out)@
            + report_text(views(results@), false),
{
    print_report_colored(out, results, colors_enabled());
}

// ---------------------------------------------------------------------
// Laws
// ---------------------------------------------------------------------
/// The number of failures is the number of results that are failures.
pub proof fn law_failures_are_counted_one_by_one(results: Seq<ResultView>)
    ensures
        failures(results) == results.filter(|r: ResultView| r.outcome is Fail).len(),
    decreases results.len(),
{
    reveal(Seq::filter);
    if results.len() > 0 {
        law_failures_are_counted_one_by_one(results.drop_last());
    }
}

/// The report from end to end: a header, how each result reads, in order,
/// and a last line that says how many checks failed.
pub proof fn law_report_spelled_out(results: Seq<ResultView>, colors: bool)
    ensures
        ({
            let failed = results.filter(|r: ResultView| r.outcome is Fail).len();
            report_text(results, colors) == "Checking redoubtful prerequisites…\n"@ + chained(
                Seq::new(results.len(), |i: int| result_text(results[i], colors)),
            ) + (if failed == 0 {
                painted("green.bold"@, "All checks passed."@, colors)
            } else if failed == 1 {
                painted("red.bold"@, "1 check failed."@, colors)
            } else {
                painted("red.bold"@, decimal(failed) + " checks failed."@, colors)
            }) + "\n"@
        }),
{
    law_failures_are_counted_one_by_one(results);
    let texts = results.map_values(|r: ResultView| result_text(r, colors));
    assert(texts =~= Seq::new(results.len(), |i: int| result_text(results[i], colors)));
    let failed = results.filter(|r: ResultView| r.outcome is Fail).len();
    let last = if failed == 0 {
        painted("green.bold"@, "All checks passed."@, colors)
    } else if failed == 1 {
        painted("red.bold"@, "1 check failed."@, colors)
    } else {
        painted("red.bold"@, decimal(failed) + " checks failed."@, colors)
    };
    assert("Checking redoubtful prerequisites…\n"@ + chained(texts) + (last + "\n"@)
        =~= "Checking redoubtful prerequisites…\n"@ + chained(texts) + last + "\n"@);
}

/// How each result reads: a mark, what came of the check in bold, what to
/// do about it where it failed, and a blank line.
pub proof fn law_results_spelled_out(
    name: Seq<char>,
    said: Seq<char>,
    advice: Seq<ChunkView>,
    colors: bool,
)
    ensures
        result_text(ResultView { name, outcome: OutcomeView::Pass { detail: said } }, colors)
            == painted("bold"@, "✅ "@ + said, colors) + "\n"@ + "\n"@,
        result_text(ResultView { name, outcome: OutcomeView::Skip { reason: said } }, colors)
            == painted("bold"@, "➖ "@ + said, colors) + "\n"@ + "\n"@,
        result_text(
            ResultView { name, outcome: OutcomeView::Fail { message: said, remediation: advice } },
            colors,
        ) == painted("bold"@, "❌ "@ + said, colors) + "\n"@ + "\n"@ + doc_text(advice, colors)
            + "\n"@,
{
    let none = Seq::<char>::empty();
    let line = painted("bold"@, "✅ "@ + said, colors) + "\n"@;
    assert(line + none =~= line);
    let other = painted("bold"@, "➖ "@ + said, colors) + "\n"@;
    assert(other + none =~= other);
    let bad = painted("bold"@, "❌ "@ + said, colors) + "\n"@;
    assert(bad + ("\n"@ + doc_text(advice, colors)) =~= bad + "\n"@ + doc_text(advice, colors));
}

/// The version is the first line that holds more than white space, without
/// the white space around it; blank lines before it do not count, and
/// where there is no such line there is no version. Nor is there one where
/// the program is missing, cannot be run or reports a failure; each has an
/// error of its own.
pub proof fn law_version_is_the_first_line(
    binary: Seq<char>,
    line: Seq<char>,
    rest: Seq<char>,
    missing: ErrorView,
    reason: Seq<char>,
    stdout: Seq<u8>,
)
    requires
        !line.contains('\n'),
        line.len() == 0 || line.last() != '\r',
    ensures
        trimmed(line).len() > 0 ==> {
            &&& version_in(binary, line + seq!['\n'] + rest) == Ok::<Seq<char>, ErrorView>(
                trimmed(line),
            )
            &&& version_in(binary, line) == Ok::<Seq<char>, ErrorView>(trimmed(line))
        },
        trimmed(line).len() == 0 ==> {
            &&& version_in(binary, line + seq!['\n'] + rest) == version_in(binary, rest)
            &&& version_in(binary, line) == Err::<Seq<char>, ErrorView>(
                ErrorView::CouldNotGetVersion { command: binary },
            )
        },
        version_of(binary, missing, ProbeView::NotFound) == Err::<Seq<char>, ErrorView>(missing),
        version_of(binary, missing, ProbeView::Failed { reason }) == Err::<Seq<char>, ErrorView>(
            ErrorView::CouldNotRun { command: binary, source: reason },
        ),
        version_of(binary, missing, ProbeView::Ran { success: false, stdout }) == Err::<
            Seq<char>,
            ErrorView,
        >(ErrorView::CouldNotGetVersion { command: binary }),
        version_of(binary, missing, ProbeView::Ran { success: true, stdout }) == version_in(
            binary,
            utf8_lossy(stdout),
        ),
{
    law_lines(line, rest);
    let all = seq![line] + lines(rest);
    assert(all.skip(1) =~= lines(rest));
    assert(seq![line].skip(1) =~= Seq::<Seq<char>>::empty());
    reveal_with_fuel(first_trimmed, 2);
    if line.len() == 0 {
        assert(line =~= Seq::<char>::empty());
        assert(trim_start(line) == line);
    }
}

/// What the check for a program says: which version is there, or what went
/// wrong and which package to install.
pub proof fn law_program_checks_spelled_out(
    name: Seq<char>,
    package: Seq<char>,
    version: Seq<char>,
    e: ErrorView,
)
    ensures
        path_result(name, package, Ok(version)) == (ResultView {
            name,
            outcome: OutcomeView::Pass { detail: name + " on $PATH ("@ + version + ")"@ },
        }),
        path_result(name, package, Err(e)) == (ResultView {
            name,
            outcome: OutcomeView::Fail {
                message: e.text(),
                remediation: seq![
                    ChunkView::Paragraph("Install the `"@ + package + "` package, e.g.:"@),
                    ChunkView::Code("sudo apt install "@ + package),
                ],
            },
        }),
{
}

/// The template, cut in front of the placeholder and behind it.
proof fn lemma_template_parts()
    ensures
        PROFILE_TEMPLATE@ == "profile redoubtful "@ + ("{REDOUBTFUL_PATH}"@
            + " flags=(unconfined) {\n  userns,\n  include if exists <local/redoubtful>\n}\n"@),
{
    reveal_strlit("{REDOUBTFUL_PATH}");
    reveal_strlit("profile redoubtful ");
    reveal_strlit(
        " flags=(unconfined) {\n  userns,\n  include if exists <local/redoubtful>\n}\n",
    );
    reveal_strlit(
        "profile redoubtful {REDOUBTFUL_PATH} flags=(unconfined) {\n  userns,\n  include if exists <local/redoubtful>\n}\n",
    );
    assert(PROFILE_TEMPLATE@ =~= "profile redoubtful "@ + ("{REDOUBTFUL_PATH}"@
        + " flags=(unconfined) {\n  userns,\n  include if exists <local/redoubtful>\n}\n"@));
}

/// What follows the placeholder, cut at its one brace.
proof fn lemma_template_tail()
    ensures
        " flags=(unconfined) {\n  userns,\n  include if exists <local/redoubtful>\n}\n"@
            == " flags=(unconfined) "@ + (seq!['{']
            + "\n  userns,\n  include if exists <local/redoubtful>\n}\n"@),
{
    reveal_strlit(
        " flags=(unconfined) {\n  userns,\n  include if exists <local/redoubtful>\n}\n",
    );
    reveal_strlit(" flags=(unconfined) ");
    reveal_strlit("\n  userns,\n  include if exists <local/redoubtful>\n}\n");
    assert(" flags=(unconfined) {\n  userns,\n  include if exists <local/redoubtful>\n}\n"@
        =~= " flags=(unconfined) "@ + (seq!['{']
        + "\n  userns,\n  include if exists <local/redoubtful>\n}\n"@));
}

/// Only the placeholder begins with a brace that a capital follows.
proof fn lemma_template_braces()
    ensures
        !"profile redoubtful "@.contains('{'),
        !" flags=(unconfined) "@.contains('{'),
        !"\n  userns,\n  include if exists <local/redoubtful>\n}\n"@.contains('{'),
        "\n  userns,\n  include if exists <local/redoubtful>\n}\n"@.len() > 0,
        "\n  userns,\n  include if exists <local/redoubtful>\n}\n"@[0] == '\n',
        "{REDOUBTFUL_PATH}"@.len() > 1,
        "{REDOUBTFUL_PATH}"@[0] == '{',
        "{REDOUBTFUL_PATH}"@[1] == 'R',
{
    reveal_strlit("{REDOUBTFUL_PATH}");
    reveal_strlit("profile redoubtful ");
    reveal_strlit(" flags=(unconfined) ");
    reveal_strlit("\n  userns,\n  include if exists <local/redoubtful>\n}\n");
}

/// The profile is the template with the path of the binary in its one
/// place, whatever the path holds.
proof fn lemma_profile(exe: Seq<char>)
    ensures
        replaced(PROFILE_TEMPLATE@, PATH_PLACEHOLDER@, exe) == "profile redoubtful "@ + exe
            + " flags=(unconfined) {\n  userns,\n  include if exists <local/redoubtful>\n}\n"@,
{
    let pat = "{REDOUBTFUL_PATH}"@;
    let head = "profile redoubtful "@;
    let tail = " flags=(unconfined) {\n  userns,\n  include if exists <local/redoubtful>\n}\n"@;
    let before = " flags=(unconfined) "@;
    let after = "\n  userns,\n  include if exists <local/redoubtful>\n}\n"@;
    let brace = seq!['{'] + after;
    lemma_template_parts();
    lemma_template_tail();
    lemma_template_braces();
    law_replacing(head, pat + tail, pat, exe);
    law_replacing(head, tail, pat, exe);
    law_replacing(before, brace, pat, exe);
    law_replacing(after, Seq::empty(), pat, exe);
    assert(!pat.is_prefix_of(brace)) by {
        if pat.is_prefix_of(brace) {
            assert(brace.subrange(0, pat.len() as int)[1] == brace[1]);
            assert(brace[1] == after[0]);
        }
    }
    assert(brace.skip(1) =~= after);
    assert(replaced(brace, pat, exe) == brace);
    assert(replaced(tail, pat, exe) == tail);
    assert(head + (exe + tail) =~= head + exe + tail);
}

/// What to do where user namespaces are restricted: install a profile that
/// names the running binary, with commands that can be copied at once.
pub proof fn law_userns_advice_spelled_out(exe: Seq<char>)
    ensures
        userns_advice(exe) == seq![
            ChunkView::Paragraph(
                "Ubuntu 24.04+ blocks unprivileged user namespaces by default. Install an AppArmor profile to allow redoubtful to create them:"@,
            ),
            ChunkView::Code(
                "sudo tee /etc/apparmor.d/redoubtful >/dev/null <<'EOF'\n"@ + (
                "profile redoubtful "@ + exe
                    + " flags=(unconfined) {\n  userns,\n  include if exists <local/redoubtful>\n}\n"@)
                    + "EOF\nsudo apparmor_parser -r /etc/apparmor.d/redoubtful"@,
            ),
            ChunkView::Paragraph(
                "See docs/APPARMOR_USERNS.md for more and less secure alternatives."@,
            ),
        ],
{
    lemma_profile(exe);
    let tail = " flags=(unconfined) {\n  userns,\n  include if exists <local/redoubtful>\n}\n"@;
    reveal_strlit(
        " flags=(unconfined) {\n  userns,\n  include if exists <local/redoubtful>\n}\n",
    );
    assert(tail.last() == '\n');
    assert(("profile redoubtful "@ + exe + tail).last() == '\n');
}

/// The check for user namespaces, answer by answer: without `bwrap` it is
/// skipped; where AppArmor's file does not hold `1` between white space
/// they work; where it does, they work if `bwrap` can create one; and where
/// it cannot, the advice names the running binary, whose path must be
/// UTF-8.
pub proof fn law_userns_check_spelled_out(
    content: Option<Seq<char>>,
    path: Seq<u8>,
    source: Seq<char>,
)
    ensures
        userns_step(EventView::Start { bwrap_ok: true }) == StepView::ReadSysctl,
        userns_step(EventView::Start { bwrap_ok: false }) == StepView::Done(
            ResultView {
                name: "userns"@,
                outcome: OutcomeView::Skip { reason: "Need bwrap to check for userns support"@ },
            },
        ),
        content matches Some(text) && trimmed(text) == seq!['1'] ==> userns_step(
            EventView::Sysctl { content },
        ) == StepView::ProbeBwrap,
        content is None || trimmed(content->0) != seq!['1'] ==> userns_step(
            EventView::Sysctl { content },
        ) == StepView::Done(
            ResultView {
                name: "userns"@,
                outcome: OutcomeView::Pass {
                    detail: "User namespaces work (no AppArmor restriction)"@,
                },
            },
        ),
        userns_step(EventView::Probed { ok: true }) == StepView::Done(
            ResultView {
                name: "userns"@,
                outcome: OutcomeView::Pass {
                    detail: "User namespaces work (AppArmor profile in place)"@,
                },
            },
        ),
        userns_step(EventView::Probed { ok: false }) == StepView::LocateExe,
        userns_step(EventView::Located { exe: Err(source) }) == StepView::Abort(
            ErrorView::CouldNotGetCurrentExe { source },
        ),
        valid_utf8(path) ==> userns_step(EventView::Located { exe: Ok(path) }) == StepView::Done(
            ResultView {
                name: "userns"@,
                outcome: OutcomeView::Fail {
                    message: "bwrap could not create a user namespace"@,
                    remediation: userns_advice(decode_utf8(path)),
                },
            },
        ),
        !valid_utf8(path) ==> userns_step(EventView::Located { exe: Ok(path) }) == StepView::Abort(
            ErrorView::NonUtf8ExePath { path },
        ),
{
    reveal_strlit("1");
    assert("1"@ =~= seq!['1']);
}

/// The checks, one after the other: `bwrap`, which the package
/// `bubblewrap` ships, then `pasta`, which `passt` ships, then user
/// namespaces. What is not waited for changes nothing and asks for
/// nothing.
pub proof fn law_checks_go_in_order(
    stage: CheckStageView,
    event: CheckEventView,
    output: ProbeView,
    bwrap: ResultView,
    pasta: ResultView,
    said: EventView,
)
    ensures
        ({
            let (next, action) = check_step(CheckStageView::Bwrap, CheckEventView::Version(output));
            &&& action == CheckActionView::AskPasta
            &&& next == (CheckStageView::Pasta {
                bwrap: path_result(
                    "bwrap"@,
                    "bubblewrap"@,
                    version_of(
                        "bwrap"@,
                        ErrorView::MissingDependency { command: "bwrap"@, package: None },
                        output,
                    ),
                ),
            })
        }),
        bwrap.outcome is Pass ==> check_step(
            CheckStageView::Pasta { bwrap },
            CheckEventView::Version(output),
        ) == (
            CheckStageView::Userns {
                bwrap,
                pasta: path_result(
                    "pasta"@,
                    "passt"@,
                    version_of(
                        "pasta"@,
                        ErrorView::MissingDependency { command: "pasta"@, package: None },
                        output,
                    ),
                ),
            },
            CheckActionView::ReadSysctl,
        ),
        ({
            let waiting = CheckStageView::Userns { bwrap, pasta };
            let (next, action) = check_step(waiting, CheckEventView::Userns(said));
            match userns_step(said) {
                StepView::ReadSysctl => next == waiting && action == CheckActionView::ReadSysctl,
                StepView::ProbeBwrap => next == waiting && action == CheckActionView::ProbeBwrap,
                StepView::LocateExe => next == waiting && action == CheckActionView::LocateExe,
                StepView::Done(userns) => next == CheckStageView::Ended && action
                    == CheckActionView::Done(seq![bwrap, pasta, userns]),
                StepView::Abort(e) => next == CheckStageView::Ended && action
                    == CheckActionView::Abort(e),
            }
        }),
        stage is Ended || (stage is Userns && event is Version) || ((stage is Bwrap
            || stage is Pasta) && event is Userns) ==> check_step(stage, event) == (
            stage,
            CheckActionView::Rest,
        ),
{
}

} // verus!
