//! What a sandbox that the command line alone describes looks like from the
//! inside, read off the command line that starts it.

use redoubtful::bwrap::bwrap_argv;
use redoubtful::env::{EnvList, EnvOpts, EnvSpec};
use redoubtful::errors::Error;
use redoubtful::forward::{ForwardList, ForwardOpts, ForwardSpec};
use redoubtful::host::{Host, HostVar, Unreadable};
use redoubtful::mounts::{MountOpts, MountSpec};

const HOME: &str = "/home/u";
const CWD: &str = "/home/u/proj";

fn b(s: &str) -> Vec<u8> {
    s.as_bytes().to_vec()
}

fn host(vars: &[(&str, &str)]) -> Host {
    let mut host = Host::empty();
    host.vars.push(HostVar { name: b("HOME"), value: b(HOME) });
    for (name, value) in vars {
        host.vars.push(HostVar { name: b(name), value: b(value) });
    }
    host
}

struct Cli {
    mounts: MountOpts,
    env: EnvOpts,
}

fn cli() -> Cli {
    Cli {
        mounts: MountOpts { mount: vec![], readonly: false },
        env: EnvOpts { env: vec![], path: None, path_add: vec![] },
    }
}

fn with_env(specs: &[&str]) -> Cli {
    let mut cli = cli();
    cli.env.env = specs.iter().map(|s| EnvSpec::from_str(s).expect("parses")).collect();
    cli
}

fn with_path(path: Option<&str>, add: &[&str]) -> Cli {
    let mut cli = cli();
    cli.env.path = path.map(|p| p.to_owned());
    cli.env.path_add = add.iter().map(|p| (*p).to_owned()).collect();
    cli
}

fn with_mount(spec: &str) -> Cli {
    let mut cli = cli();
    cli.mounts.mount.push(MountSpec::from_str(spec).expect("parses"));
    cli
}

fn run(cli: &Cli, host: &Host) -> Vec<Vec<u8>> {
    let mounts = match cli.mounts.inventory(host, &Ok(b(CWD))) {
        Ok(list) => list,
        Err(e) => panic!("lists: {e:?}"),
    };
    let mut env = EnvList::default_baseline(
        HOME.as_bytes(),
        cli.env.path.as_deref(),
        &cli.env.path_add,
        host,
    );
    cli.env.apply(&mut env, host);
    bwrap_argv(&mounts, &env, CWD.as_bytes(), "sh", &vec![])
}

fn environment(argv: &[Vec<u8>], name: &str) -> Option<String> {
    let at = (0..argv.len()).find(|i| argv[*i] == b"--setenv" && argv[*i + 1] == name.as_bytes())?;
    Some(String::from_utf8(argv[at + 2].clone()).expect("UTF-8"))
}

fn bound(argv: &[Vec<u8>], sandbox: &str) -> Option<String> {
    let at = (0..argv.len().saturating_sub(2)).rev().find(|i| {
        (argv[*i] == b"--bind" || argv[*i] == b"--ro-bind") && argv[*i + 2] == sandbox.as_bytes()
    })?;
    Some(String::from_utf8(argv[at].clone()).expect("UTF-8"))
}

#[test]
fn cli_run_clears_host_credentials() {
    let argv = run(&cli(), &host(&[("FAKE_API_KEY", "leaked-xyz-do-not-let-me-survive")]));
    assert!(argv.contains(&b("--clearenv")));
    assert!(argv.iter().all(|t| !String::from_utf8_lossy(t).contains("leaked-xyz")));
}

#[test]
fn cli_run_e_literal_sets_value() {
    let argv = run(&with_env(&["FOO=bar"]), &host(&[]));
    assert_eq!(environment(&argv, "FOO").as_deref(), Some("bar"));
}

#[test]
fn cli_run_e_empty_value_is_literal_empty_string() {
    let argv = run(&with_env(&["FOO="]), &host(&[]));
    assert_eq!(environment(&argv, "FOO").as_deref(), Some(""));
}

#[test]
fn cli_run_e_passthrough_forwards_when_host_var_set() {
    let argv = run(&with_env(&["MY_VAR"]), &host(&[("MY_VAR", "yes-from-host")]));
    assert_eq!(environment(&argv, "MY_VAR").as_deref(), Some("yes-from-host"));
}

#[test]
fn cli_run_e_passthrough_drops_when_host_var_unset() {
    let argv = run(&with_env(&["MY_VAR"]), &host(&[]));
    assert_eq!(environment(&argv, "MY_VAR"), None);
}

#[test]
fn cli_run_default_path_is_canonical() {
    let argv = run(&cli(), &host(&[]));
    assert_eq!(
        environment(&argv, "PATH").as_deref(),
        Some("/usr/local/sbin:/usr/local/bin:/usr/sbin:/usr/bin:/sbin:/bin"),
    );
}

#[test]
fn cli_run_path_override_replaces_baseline_path() {
    let argv = run(&with_path(Some("/custom:/another"), &[]), &host(&[]));
    assert_eq!(environment(&argv, "PATH").as_deref(), Some("/custom:/another"));
}

#[test]
fn cli_run_path_add_prepends_to_canonical() {
    let argv = run(&with_path(None, &["/opt/agent/bin"]), &host(&[]));
    assert_eq!(
        environment(&argv, "PATH").as_deref(),
        Some("/opt/agent/bin:/usr/local/sbin:/usr/local/bin:/usr/sbin:/usr/bin:/sbin:/bin"),
    );
}

#[test]
fn run_path_add_repeatable_prepends_in_order() {
    let argv = run(&with_path(None, &["/first/bin", "/second/bin"]), &host(&[]));
    assert_eq!(
        environment(&argv, "PATH").as_deref(),
        Some(
            "/first/bin:/second/bin:/usr/local/sbin:/usr/local/bin:/usr/sbin:/usr/bin:/sbin:/bin",
        ),
    );
}

#[test]
fn cli_run_path_add_prepends_to_path_override() {
    let argv = run(&with_path(Some("/only/this"), &["/extra"]), &host(&[]));
    assert_eq!(environment(&argv, "PATH").as_deref(), Some("/extra:/only/this"));
}

#[test]
fn cli_run_term_passthrough_forwards_value() {
    let argv = run(&cli(), &host(&[("TERM", "xterm-256color")]));
    assert_eq!(environment(&argv, "TERM").as_deref(), Some("xterm-256color"));
}

#[test]
fn cli_run_e_literal_overrides_baseline_path() {
    let argv = run(&with_env(&["PATH=/only/this"]), &host(&[]));
    assert_eq!(environment(&argv, "PATH").as_deref(), Some("/only/this"));
}

#[test]
fn cli_run_keeps_cwd_visible() {
    let argv = run(&cli(), &host(&[]));
    assert_eq!(bound(&argv, CWD).as_deref(), Some("--bind"));
}

#[test]
fn cli_run_hides_unexpected_paths_in_home() {
    let argv = run(&cli(), &host(&[]));
    assert!((0..argv.len()).any(|i| argv[i] == b"--tmpfs" && argv[i + 1] == HOME.as_bytes()));
    assert_eq!(bound(&argv, HOME), None);
}

#[test]
fn cli_mount_exposes_host_path_readonly() {
    let argv = run(&with_mount("/host/marker:/work/marker"), &host(&[]));
    assert_eq!(bound(&argv, "/work/marker").as_deref(), Some("--ro-bind"));
}

#[test]
fn cli_mount_rw_allows_writes_to_host_path() {
    let argv = run(&with_mount("/host/marker:/work/marker:rw"), &host(&[]));
    assert_eq!(bound(&argv, "/work/marker").as_deref(), Some("--bind"));
}

#[test]
fn cli_cwd_readonly_blocks_writes_with_flag() {
    let mut cli = cli();
    cli.mounts.readonly = true;
    let argv = run(&cli, &host(&[]));
    assert_eq!(bound(&argv, CWD).as_deref(), Some("--ro-bind"));
}

#[test]
fn cli_run_reports_missing_mount_host() {
    let mut host = host(&[]);
    host.unreadable = vec![Unreadable {
        path: b("/no/such/path/redoubtful-test"),
        reason: "No such file or directory (os error 2)".to_owned(),
    }];
    let cli = with_mount("/no/such/path/redoubtful-test");
    match cli.mounts.inventory(&host, &Ok(b(CWD))) {
        Err(e @ Error::MissingMountHost { .. }) => {
            assert!(e.message().contains("/no/such/path/redoubtful-test"))
        }
        _ => panic!("a missing host path must be refused"),
    }
}

#[test]
fn cli_forward_makes_host_port_reachable_from_sandbox() {
    let opts = ForwardOpts { forward: vec![ForwardSpec::from_str("8080").expect("parses")] };
    let mut list = ForwardList::new();
    opts.apply(&mut list);
    assert_eq!(list.format_for_pasta(), "8080");
}
