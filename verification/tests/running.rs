//! What a run of the sandbox looks like from the inside, read off the
//! command line that starts it.

use redoubtful::config::config_file::ConfigFile;
use redoubtful::config::env_var::EnvVarDecl;
use redoubtful::config::forward::ForwardDecl;
use redoubtful::config::mount::MountDecl;
use redoubtful::config::profile::{Profile, ProfileDecl};
use redoubtful::config::proxy::{ProxyAction, ProxyDecl};
use redoubtful::config::resolve_context::ResolveContext;
use redoubtful::errors::Error;
use redoubtful::host::{Host, HostVar, Unreadable};
use redoubtful::sandbox::launch::launch_argv;
use redoubtful::sandbox::proxy::{handle_request, Routing};

const HOME: &str = "/home/test";
const CWD: &str = "/home/test/project";
const PORT: u16 = 43210;
const CANONICAL: &str = "/usr/local/sbin:/usr/local/bin:/usr/sbin:/usr/bin:/sbin:/bin";

fn context(host: Host) -> ResolveContext {
    match ResolveContext::new(host, b"/c/secrets.toml", String::new()) {
        Ok(ctx) => ctx,
        Err(e) => panic!("no secrets are fine: {e:?}"),
    }
}

fn b(s: &str) -> Vec<u8> {
    s.as_bytes().to_vec()
}

fn host(vars: &[(&str, &str)]) -> Host {
    let mut host = Host::empty();
    host.vars.push(HostVar { name: b("HOME"), value: b(HOME) });
    host.home = Some(b(HOME));
    host.cwd = Some(b(CWD));
    for (name, value) in vars {
        host.vars.push(HostVar { name: b(name), value: b(value) });
    }
    host
}

fn finalized(cli: &ProfileDecl, host: Host) -> Result<Profile, Error> {
    let ctx = context(host);
    ConfigFile::default().finalize_config_with_cli(cli, b"/c/config.toml", &ctx)
}

fn run(cli: &ProfileDecl, host: Host) -> Vec<Vec<u8>> {
    match finalized(cli, host) {
        Ok(profile) => launch_argv(&profile, PORT, CWD.as_bytes(), b"sh", &vec![]),
        Err(e) => panic!("runs: {e:?}"),
    }
}

fn environment(argv: &[Vec<u8>], name: &str) -> Option<String> {
    let at = (0..argv.len()).find(|i| argv[*i] == b"--setenv" && argv[*i + 1] == name.as_bytes())?;
    Some(String::from_utf8(argv[at + 2].clone()).expect("UTF-8"))
}

/// The flag and the host path under which a path of the sandbox is bound.
fn bound(argv: &[Vec<u8>], sandbox: &str) -> Option<(String, String)> {
    let at = (0..argv.len().saturating_sub(2)).rev().find(|i| {
        (argv[*i] == b"--bind" || argv[*i] == b"--ro-bind") && argv[*i + 2] == sandbox.as_bytes()
    })?;
    let text = |v: &Vec<u8>| String::from_utf8(v.clone()).expect("UTF-8");
    Some((text(&argv[at]), text(&argv[at + 1])))
}

fn tcp_ns(argv: &[Vec<u8>]) -> Vec<u8> {
    let at = argv.iter().position(|t| t == b"-T").expect("-T");
    argv[at + 1].clone()
}

fn with_env(specs: &[&str]) -> ProfileDecl {
    let mut cli = ProfileDecl::default();
    for spec in specs {
        cli.env_decls.env.push(EnvVarDecl::from_str(spec).expect("parses"));
    }
    cli
}

fn with_path(path: Option<&str>, add: &[&str]) -> ProfileDecl {
    let mut cli = ProfileDecl::default();
    cli.env_decls.path = path.map(b);
    cli.env_decls.path_add = add.iter().map(|p| b(p)).collect();
    cli
}

fn with_mount(spec: &str) -> ProfileDecl {
    let mut cli = ProfileDecl::default();
    cli.mount_decls.mounts.push(MountDecl::from_str(spec).expect("parses"));
    cli
}

// ===== Environment =====

#[test]
fn environment_run_clears_host_credentials() {
    let argv = run(
        &ProfileDecl::default(),
        host(&[("FAKE_API_KEY", "leaked-xyz-do-not-let-me-survive")]),
    );
    assert!(argv.contains(&b("--clearenv")));
    assert_eq!(environment(&argv, "FAKE_API_KEY"), None);
    assert!(argv.iter().all(|t| !String::from_utf8_lossy(t).contains("leaked-xyz")));
}

#[test]
fn environment_run_e_literal_sets_value() {
    let argv = run(&with_env(&["FOO=bar"]), host(&[]));
    assert_eq!(environment(&argv, "FOO").as_deref(), Some("bar"));
}

#[test]
fn environment_run_e_empty_value_is_literal_empty_string() {
    let argv = run(&with_env(&["FOO="]), host(&[("FOO", "host")]));
    assert_eq!(environment(&argv, "FOO").as_deref(), Some(""));
}

#[test]
fn environment_run_e_passthrough_forwards_when_host_var_set() {
    let argv = run(&with_env(&["MY_VAR"]), host(&[("MY_VAR", "yes-from-host")]));
    assert_eq!(environment(&argv, "MY_VAR").as_deref(), Some("yes-from-host"));
}

#[test]
fn environment_run_e_passthrough_drops_when_host_var_unset() {
    let argv = run(&with_env(&["MY_VAR"]), host(&[]));
    assert_eq!(environment(&argv, "MY_VAR"), None);
}

#[test]
fn environment_run_default_path_is_canonical() {
    let argv = run(&ProfileDecl::default(), host(&[("PATH", "/elsewhere")]));
    assert_eq!(
        environment(&argv, "PATH").as_deref(),
        Some("/usr/local/sbin:/usr/local/bin:/usr/sbin:/usr/bin:/sbin:/bin"),
    );
}

#[test]
fn environment_run_path_override_replaces_baseline_path() {
    let argv = run(&with_path(Some("/custom:/another"), &[]), host(&[]));
    assert_eq!(environment(&argv, "PATH").as_deref(), Some("/custom:/another"));
}

#[test]
fn environment_run_path_add_prepends_to_canonical() {
    let argv = run(&with_path(None, &["/opt/agent/bin"]), host(&[]));
    let path = environment(&argv, "PATH").expect("PATH");
    assert_eq!(path, format!("/opt/agent/bin:{CANONICAL}"));
}

#[test]
fn run_path_add_repeatable_prepends_in_reverse_order() {
    let argv = run(&with_path(None, &["/first/bin", "/second/bin"]), host(&[]));
    assert_eq!(
        environment(&argv, "PATH").as_deref(),
        Some(
            "/second/bin:/first/bin:/usr/local/sbin:/usr/local/bin:/usr/sbin:/usr/bin:/sbin:/bin",
        ),
    );
}

#[test]
fn environment_run_path_add_prepends_to_path_override() {
    let argv = run(&with_path(Some("/only/this"), &["/extra"]), host(&[]));
    assert_eq!(environment(&argv, "PATH").as_deref(), Some("/extra:/only/this"));
}

#[test]
fn environment_run_term_passthrough_forwards_value() {
    let argv = run(&ProfileDecl::default(), host(&[("TERM", "xterm-256color")]));
    assert_eq!(environment(&argv, "TERM").as_deref(), Some("xterm-256color"));
}

#[test]
fn environment_run_e_literal_overrides_baseline_path() {
    let argv = run(&with_env(&["PATH=/only/this"]), host(&[]));
    assert_eq!(environment(&argv, "PATH").as_deref(), Some("/only/this"));
    let set = (0..argv.len()).filter(|i| argv[*i] == b"--setenv" && argv[*i + 1] == b"PATH");
    assert_eq!(set.count(), 1);
}

// ===== Files =====

#[test]
fn filesystem_run_keeps_cwd_visible() {
    let argv = run(&ProfileDecl::default(), host(&[]));
    assert_eq!(bound(&argv, CWD), Some(("--bind".to_owned(), CWD.to_owned())));
    let chdir = argv.iter().position(|t| t == b"--chdir").expect("--chdir");
    assert_eq!(argv[chdir + 1], b(CWD));
}

#[test]
fn filesystem_run_hides_unexpected_paths_in_home() {
    let argv = run(&ProfileDecl::default(), host(&[]));
    let tmpfs = (0..argv.len())
        .find(|i| argv[*i] == b"--tmpfs" && argv[*i + 1] == HOME.as_bytes())
        .expect("an empty home");
    let cwd = (0..argv.len())
        .find(|i| argv[*i] == b"--bind" && argv[*i + 2] == CWD.as_bytes())
        .expect("the working directory");
    assert!(tmpfs < cwd);
    assert_eq!(bound(&argv, HOME), None);
}

#[test]
fn network_mount_exposes_host_path_readonly() {
    let argv = run(&with_mount("/host/marker:/work/marker"), host(&[]));
    assert_eq!(
        bound(&argv, "/work/marker"),
        Some(("--ro-bind".to_owned(), "/host/marker".to_owned())),
    );
}

#[test]
fn network_mount_rw_allows_writes_to_host_path() {
    let argv = run(&with_mount("/host/marker:/work/marker:rw"), host(&[]));
    assert_eq!(
        bound(&argv, "/work/marker"),
        Some(("--bind".to_owned(), "/host/marker".to_owned())),
    );
}

#[test]
fn network_cwd_readonly_blocks_writes_with_flag() {
    let mut cli = ProfileDecl::default();
    cli.mount_decls.readonly = Some(true);
    let argv = run(&cli, host(&[]));
    assert_eq!(bound(&argv, CWD), Some(("--ro-bind".to_owned(), CWD.to_owned())));
}

#[test]
fn network_run_reports_missing_mount_host() {
    let mut host = host(&[]);
    host.unreadable = vec![Unreadable {
        path: b("/no/such/path/redoubtful-test"),
        reason: "No such file or directory (os error 2)".to_owned(),
    }];
    match finalized(&with_mount("/no/such/path/redoubtful-test"), host) {
        Ok(_) => panic!("a missing host path must be refused"),
        Err(e) => assert!(e.message().contains("/no/such/path/redoubtful-test")),
    }
}

// ===== Network =====

#[test]
fn network_host_loopback_is_unreachable_from_sandbox() {
    // Nothing of the host is forwarded but the proxy.
    let argv = run(&ProfileDecl::default(), host(&[]));
    assert_eq!(tcp_ns(&argv), b("43210"));
}

#[test]
fn network_forward_makes_host_port_reachable_from_sandbox() {
    let mut cli = ProfileDecl::default();
    cli.forward_decls.forwards.push(ForwardDecl::from_str("8080").expect("parses"));
    let argv = run(&cli, host(&[]));
    assert_eq!(tcp_ns(&argv), b("8080,43210"));
}

#[test]
fn proxy_env_var_is_set_in_sandbox() {
    let argv = run(&ProfileDecl::default(), host(&[]));
    let line = environment(&argv, "HTTPS_PROXY").expect("HTTPS_PROXY");
    let port_str = line.strip_prefix("http://127.0.0.1:").expect("expected form");
    let port: u16 = port_str.parse().expect("a port");
    assert!(port > 0);
}

#[test]
fn the_proxy_settings_win_over_the_users() {
    let argv = run(&with_env(&["HTTPS_PROXY=http://elsewhere"]), host(&[]));
    assert_eq!(
        environment(&argv, "HTTPS_PROXY").as_deref(),
        Some("http://127.0.0.1:43210"),
    );
}

fn with_public_web(action: &str) -> ProfileDecl {
    let mut cli = ProfileDecl::default();
    cli.proxy_decls.public_web = Some(ProxyAction::from_str(action).expect("parses"));
    cli
}

#[test]
fn proxy_public_web_deny_flag_is_accepted() {
    let profile = finalized(&with_public_web("deny"), host(&[])).ok().expect("accepted");
    assert_eq!(profile.proxies.public_web, Some(ProxyAction::Deny));
}

#[test]
fn proxy_flag_accepts_compact_syntax() {
    let mut cli = ProfileDecl::default();
    cli.proxy_decls.proxies.push(ProxyDecl::from_str("example.net:80=deny").expect("parses"));
    let profile = finalized(&cli, host(&[])).ok().expect("accepted");
    let proxy = profile.proxies.get("example.net").expect("declared");
    assert_eq!(proxy.port, 80);
    assert_eq!(proxy.action, ProxyAction::Deny);
}

#[test]
fn proxy_flag_rejects_invalid_syntax() {
    let text = ProxyDecl::from_str("bad=host=action").expect_err("refused").message();
    assert!(text.contains("invalid") || text.contains("multiple `=` separators"), "{text}");
}

fn routing(cli: &ProfileDecl, connect: bool) -> Routing {
    let profile = finalized(cli, host(&[])).ok().expect("finalizes");
    handle_request(&profile.proxies, Some("127.0.1.1"), connect)
}

#[test]
fn http_through_proxy_reaches_upstream_when_allowed() {
    assert!(matches!(routing(&ProfileDecl::default(), false), Routing::Forward));
}

#[test]
fn http_through_proxy_is_403_when_denied() {
    match routing(&with_public_web("deny"), false) {
        Routing::Deny(answer) => {
            assert_eq!(answer.status, 403);
            assert!(answer.body.contains("denied by redoubtful proxy configuration"));
        }
        _ => panic!("expected a refusal"),
    }
}

#[test]
fn https_through_proxy_reaches_upstream_when_allowed() {
    assert!(matches!(routing(&ProfileDecl::default(), true), Routing::Forward));
}

#[test]
fn https_through_proxy_is_403_when_denied() {
    assert!(matches!(
        routing(&with_public_web("deny"), true),
        Routing::Deny(answer) if answer.status == 403
    ));
}
