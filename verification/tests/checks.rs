//! Prerequisites of the host, and the report on them.

use redoubtful::check::{
    any_failed, build_userns_remediation, check_bwrap, check_exit, check_pasta, check_userns,
    find_version, print_report, print_report_colored, probe, run_all_checks, userns_start,
    CheckAction, CheckEvent, CheckOutcome, CheckResult, CheckStage, ProbeOutput, StyledDoc, UsernsEvent, UsernsStep, PATH_PLACEHOLDER,
    PROFILE_TEMPLATE,
};
use redoubtful::deps;
use redoubtful::errors::Error;
use redoubtful::styled::paint_line;
use redoubtful::text::replace_str;

fn ran(success: bool, stdout: &str) -> ProbeOutput {
    ProbeOutput::Ran { success, stdout: stdout.as_bytes().to_vec() }
}

fn render(doc: &StyledDoc) -> String {
    console::set_colors_enabled_stderr(false);
    let mut buf = String::new();
    doc.write_to(&mut buf);
    buf
}

fn report(results: &Vec<CheckResult>) -> String {
    console::set_colors_enabled_stderr(false);
    let mut buf = String::new();
    print_report(&mut buf, results);
    buf
}

fn pass(detail: &str) -> CheckResult {
    CheckResult {
        name: "bwrap".to_owned(),
        outcome: CheckOutcome::Pass { detail: detail.to_owned() },
    }
}

fn fail(message: &str) -> CheckResult {
    CheckResult {
        name: "bwrap".to_owned(),
        outcome: CheckOutcome::Fail {
            message: message.to_owned(),
            remediation: StyledDoc::new(),
        },
    }
}

// ===== Asking programs for their version =====

#[test]
fn missing_binary_names_the_binary() {
    let err = probe("redoubtful-definitely-not-a-real-binary-xyz", &ProbeOutput::NotFound)
        .unwrap_err();
    let msg = format!("{err:?}");
    assert!(msg.contains("redoubtful-definitely-not-a-real-binary-xyz"), "{msg}");
}

#[test]
fn missing_binary_names_the_package() {
    let err = deps::probe(
        "redoubtful-definitely-not-a-real-binary-xyz",
        "phantom-pkg",
        &ProbeOutput::NotFound,
    )
    .unwrap_err();
    let msg = format!("{err:?}");
    assert!(msg.contains("redoubtful-definitely-not-a-real-binary-xyz"), "{msg}");
    assert!(msg.contains("phantom-pkg"), "{msg}");
}

#[test]
fn the_first_line_that_is_not_blank_is_the_version() {
    assert_eq!(probe("b", &ran(true, "\n  \n  b 1.0 \nmore\n")).unwrap(), "b 1.0");
    assert_eq!(find_version("b", "b 2\r\n").unwrap(), "b 2");
    assert!(matches!(find_version("b", " \n\t\n"), Err(Error::CouldNotGetVersion { .. })));
    assert!(matches!(probe("b", &ran(false, "b 1")), Err(Error::CouldNotGetVersion { .. })));
    assert!(matches!(
        probe("b", &ProbeOutput::Failed { reason: "denied".to_owned() }),
        Err(Error::CouldNotRun { command, source }) if command == "b" && source == "denied"
    ));
    let odd = ProbeOutput::Ran { success: true, stdout: b"v\xff1\n".to_vec() };
    assert_eq!(probe("b", &odd).unwrap(), "v\u{FFFD}1");
}

#[test]
fn both_programs_are_required() {
    let versions = match deps::probe_required(&ran(true, "bubblewrap 0.9.0"), &ran(true, "pasta 1")) {
        Ok(v) => v,
        Err(e) => panic!("both are there: {e:?}"),
    };
    assert_eq!(versions.bwrap, "bubblewrap 0.9.0");
    assert_eq!(versions.pasta, "pasta 1");
    assert!(matches!(
        deps::probe_required(&ProbeOutput::NotFound, &ProbeOutput::NotFound),
        Err(Error::MissingDependency { command, package })
            if command == "bwrap" && package.as_deref() == Some("bubblewrap")
    ));
    assert!(matches!(
        deps::probe_required(&ran(true, "b"), &ProbeOutput::NotFound),
        Err(Error::MissingDependency { command, package })
            if command == "pasta" && package.as_deref() == Some("passt")
    ));
}

// ===== User namespaces =====

#[test]
fn profile_template_substitutes_path() {
    let profile = replace_str(PROFILE_TEMPLATE, PATH_PLACEHOLDER, "/usr/local/bin/redoubtful");
    assert_eq!(
        profile,
        PROFILE_TEMPLATE.replace("{REDOUBTFUL_PATH}", "/usr/local/bin/redoubtful"),
    );
    assert!(!profile.contains("{REDOUBTFUL_PATH}"), "{profile}");
    assert!(profile.contains("/usr/local/bin/redoubtful"), "{profile}");
    assert!(profile.contains("flags=(unconfined)"), "{profile}");
    assert!(profile.contains("userns,"), "{profile}");
}

#[test]
fn build_userns_remediation_includes_path_and_commands() {
    let doc = build_userns_remediation("/home/test/.cargo/bin/redoubtful");
    let r = render(&doc);
    assert!(r.contains("/home/test/.cargo/bin/redoubtful"), "{r}");
    assert!(r.contains("sudo tee /etc/apparmor.d/redoubtful"), "{r}");
    assert!(r.contains("sudo apparmor_parser -r"), "{r}");
    assert!(r.contains("docs/APPARMOR_USERNS.md"), "{r}");
}

#[test]
fn userns_check_asks_for_one_thing_after_another() {
    let step = |event: UsernsEvent| check_userns(&event);
    assert!(matches!(step(UsernsEvent::Start { bwrap_ok: true }), UsernsStep::ReadSysctl));
    let content = |s: &str| Some(s.to_owned());
    assert!(matches!(
        step(UsernsEvent::Sysctl { content: content("1\n") }),
        UsernsStep::ProbeBwrap
    ));
    for other in [content("0\n"), content("11"), None] {
        assert!(matches!(
            step(UsernsEvent::Sysctl { content: other }),
            UsernsStep::Done(CheckResult { outcome: CheckOutcome::Pass { .. }, .. })
        ));
    }
    assert!(matches!(
        step(UsernsEvent::Probed { ok: true }),
        UsernsStep::Done(CheckResult { outcome: CheckOutcome::Pass { .. }, .. })
    ));
    assert!(matches!(step(UsernsEvent::Probed { ok: false }), UsernsStep::LocateExe));
    assert!(matches!(
        step(UsernsEvent::Located { exe: Ok(b"/bin/redoubtful".to_vec()) }),
        UsernsStep::Done(CheckResult { outcome: CheckOutcome::Fail { .. }, .. })
    ));
    assert!(matches!(
        step(UsernsEvent::Located { exe: Ok(b"/bin/\xff".to_vec()) }),
        UsernsStep::Abort(Error::NonUtf8ExePath { path }) if path == b"/bin/\xff"
    ));
    assert!(matches!(
        step(UsernsEvent::Located { exe: Err("gone".to_owned()) }),
        UsernsStep::Abort(Error::CouldNotGetCurrentExe { source }) if source == "gone"
    ));
}

// ===== All checks =====

fn step(stage: CheckStage, event: CheckEvent) -> (CheckStage, CheckAction) {
    run_all_checks(stage, event)
}

#[test]
fn checks_are_made_in_order() {
    let version = |text: &str| CheckEvent::Version(ran(true, text));
    let (stage, action) = step(CheckStage::Bwrap, version("bubblewrap 1"));
    assert!(matches!(action, CheckAction::AskPasta));
    let (stage, action) = step(stage, version("pasta 2"));
    assert!(matches!(action, CheckAction::ReadSysctl));
    // A version was not asked for.
    let (stage, action) = step(stage, version("other"));
    assert!(matches!(action, CheckAction::Rest));
    let sysctl = UsernsEvent::Sysctl { content: Some("1\n".to_owned()) };
    let (stage, action) = step(stage, CheckEvent::Userns(sysctl));
    assert!(matches!(action, CheckAction::ProbeBwrap));
    let (stage, action) = step(stage, CheckEvent::Userns(UsernsEvent::Probed { ok: true }));
    match action {
        CheckAction::Done(results) => {
            let names: Vec<&str> = results.iter().map(|r| r.name.as_str()).collect();
            assert_eq!(names, vec!["bwrap", "pasta", "userns"]);
            assert!(!any_failed(&results));
        }
        _ => panic!("nothing more to ask"),
    }
    assert!(matches!(stage, CheckStage::Ended));
}

#[test]
fn checks_without_bwrap_ask_nothing_about_userns() {
    let missing = || CheckEvent::Version(ProbeOutput::NotFound);
    let (stage, _) = step(CheckStage::Bwrap, missing());
    match step(stage, missing()).1 {
        CheckAction::Done(results) => {
            assert!(matches!(results[2].outcome, CheckOutcome::Skip { .. }));
        }
        _ => panic!("nothing more to ask"),
    }
}

#[test]
fn checks_end_where_the_binary_is_not_found() {
    let (stage, _) = step(CheckStage::Bwrap, CheckEvent::Version(ran(true, "b")));
    let (stage, _) = step(stage, CheckEvent::Version(ran(true, "p")));
    let lost = UsernsEvent::Located { exe: Err("gone".to_owned()) };
    assert!(matches!(
        step(stage, CheckEvent::Userns(lost)).1,
        CheckAction::Abort(Error::CouldNotGetCurrentExe { source }) if source == "gone"
    ));
}

// ===== The report =====

#[test]
fn print_report_pass_only() {
    let s = report(&vec![pass("bwrap on $PATH (bubblewrap 0.9.0)")]);
    assert!(s.contains("✅ bwrap on $PATH"), "{s}");
    assert!(s.contains("bubblewrap 0.9.0"), "{s}");
    assert!(s.contains("All checks passed."), "{s}");
}

#[test]
fn print_report_failure_includes_remediation_verbatim() {
    let results = vec![CheckResult {
        name: "userns".to_owned(),
        outcome: CheckOutcome::Fail {
            message: "bwrap could not create a user namespace".to_owned(),
            remediation: StyledDoc::new()
                .paragraph("explanation paragraph")
                .code("sudo do-the-thing"),
        },
    }];
    let s = report(&results);
    assert!(s.contains("❌ bwrap could not create"), "{s}");
    assert!(s.contains("explanation paragraph"), "{s}");
    assert!(s.contains("\nsudo do-the-thing\n"), "{s}");
    assert!(s.contains("1 check failed."), "{s}");
}

#[test]
fn any_failed_distinguishes_skip_from_fail() {
    let only_skip = vec![CheckResult {
        name: "userns".to_owned(),
        outcome: CheckOutcome::Skip { reason: "bwrap missing".to_owned() },
    }];
    assert!(!any_failed(&only_skip));
    let with_fail = vec![fail("x")];
    assert!(any_failed(&with_fail));
    assert!(check_exit("check", &only_skip).is_ok());
    assert!(matches!(
        check_exit("check", &with_fail),
        Err(Error::Exit { command, code: 1 }) if command == "check"
    ));
}

fn userns(bwrap: &CheckResult) -> CheckResult {
    match check_userns(&userns_start(bwrap)) {
        UsernsStep::Done(r) => r,
        _ => panic!("nothing more to ask"),
    }
}

#[test]
fn check_check_on_healthy_host_passes() {
    let healthy = match check_userns(&UsernsEvent::Sysctl { content: None }) {
        UsernsStep::Done(r) => r,
        _ => panic!("nothing more to ask"),
    };
    let s = report(&vec![
        check_bwrap(&ran(true, "bubblewrap 0.9.0\n")),
        check_pasta(&ran(true, "pasta 2024\n")),
        healthy,
    ]);
    assert!(s.contains("✅ bwrap"), "{s}");
    assert!(s.contains("All checks passed."), "{s}");
}

#[test]
fn check_check_with_bwrap_missing_fails_and_skips_userns() {
    let bwrap = check_bwrap(&ProbeOutput::NotFound);
    let skipped = userns(&bwrap);
    let results = vec![bwrap, check_pasta(&ProbeOutput::NotFound), skipped];
    assert!(any_failed(&results));
    let s = report(&results);
    assert!(s.contains("not found on $PATH"), "{s}");
    assert!(s.contains("➖"), "{s}");
    assert!(s.contains("bwrap to check"), "{s}");
    assert!(s.contains("checks failed."), "{s}");
}

#[test]
fn run_run_emits_preflight_report_to_stderr_on_failure() {
    let s = report(&vec![check_bwrap(&ProbeOutput::NotFound)]);
    assert!(s.contains("❌") && s.contains("not found on $PATH"), "{s}");
    assert!(s.starts_with("Checking redoubtful prerequisites"), "{s}");
    assert!(s.contains("sudo apt install bubblewrap"), "{s}");
}

#[test]
fn failures_are_counted() {
    let s = report(&vec![fail("a"), pass("b"), fail("c")]);
    assert!(s.contains("2 checks failed."), "{s}");
    assert!(!s.contains("All checks passed."), "{s}");
}

#[test]
fn the_report_follows_what_was_written_before() {
    let mut buf = "before\n".to_owned();
    print_report_colored(&mut buf, &vec![], false);
    assert!(buf.starts_with("before\nChecking redoubtful prerequisites…\n"), "{buf}");
}

// ===== Colours =====

#[test]
fn colours_stand_between_escape_sequences() {
    let line = |style: &str, colors: bool| {
        let mut out = String::new();
        paint_line(&mut out, style, "text", colors);
        out
    };
    assert_eq!(line("cyan", false), "text\n");
    assert_eq!(line("cyan", true), "\u{1b}[36mtext\u{1b}[0m\n");
    assert_eq!(line("bold", true), "\u{1b}[1mtext\u{1b}[0m\n");
    assert_eq!(line("green.bold", true), "\u{1b}[32m\u{1b}[1mtext\u{1b}[0m\n");
    assert_eq!(line("red.bold", true), "\u{1b}[31m\u{1b}[1mtext\u{1b}[0m\n");
}

#[test]
fn code_is_coloured_line_by_line() {
    let doc = StyledDoc::new().paragraph("p").code("a\nb");
    let mut colored = String::new();
    doc.write_colored(&mut colored, true);
    assert!(colored.contains("\u{1b}[36ma\u{1b}[0m\n\u{1b}[36mb\u{1b}[0m\n"), "{colored}");
    let mut plain = String::new();
    doc.write_colored(&mut plain, false);
    assert_eq!(plain, render(&doc));
    assert_eq!(
        colored.replace("\u{1b}[36m", "").replace("\u{1b}[0m", ""),
        plain,
    );
}
