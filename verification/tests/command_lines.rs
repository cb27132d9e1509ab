//! The command lines of `bwrap` and `pasta`.

use redoubtful::argv::ArgvBuilder;
use redoubtful::bwrap;
use redoubtful::config::env_vars::EnvVars;
use redoubtful::config::forwards::Forwards;
use redoubtful::config::mount::{Mount, MountAccess, MountKind};
use redoubtful::config::mounts::Mounts;
use redoubtful::config::profile::Profile;
use redoubtful::config::proxies::Proxies;
use redoubtful::env::{EnvList, EnvSource};
use redoubtful::errors::Error;
use redoubtful::host::Host;
use redoubtful::mounts::MountList;
use redoubtful::name_map::NameMap;
use redoubtful::sandbox;
use redoubtful::sandbox::launch::{exit_code, launch_argv, run_outcome};
use redoubtful::sandbox::pasta::pasta_argv;

const HOME: &[u8] = b"/home/u";
const CWD: &[u8] = b"/home/u/proj";

fn os(s: &str) -> Vec<u8> {
    s.as_bytes().to_vec()
}

fn position(argv: &[Vec<u8>], token: &str) -> Option<usize> {
    argv.iter().position(|a| a == token.as_bytes())
}

fn find_pair(argv: &[Vec<u8>], flag: &str) -> Option<(Vec<u8>, Vec<u8>)> {
    let pos = position(argv, flag)?;
    Some((argv.get(pos + 1)?.clone(), argv.get(pos + 2)?.clone()))
}

fn baseline() -> MountList {
    MountList::default_baseline(HOME, CWD, MountAccess::Rw)
}

fn baseline_env() -> EnvList {
    EnvList::default_baseline(HOME, None, &vec![], &Host::empty())
}

fn argv(command: &str, args: &[&str]) -> Vec<Vec<u8>> {
    let args: Vec<String> = args.iter().map(|a| (*a).to_owned()).collect();
    bwrap::bwrap_argv(&baseline(), &baseline_env(), CWD, command, &args)
}

fn bare_argv(command: &str, args: &[&str]) -> Vec<Vec<u8>> {
    let args: Vec<String> = args.iter().map(|a| (*a).to_owned()).collect();
    sandbox::bwrap_argv(&baseline().0, CWD, command, &args)
}

fn with_vars(vars: &[(&str, &[u8])]) -> EnvVars {
    let mut map = NameMap::new();
    for (name, value) in vars {
        map.set((*name).to_owned(), value.to_vec());
    }
    EnvVars { vars: map, path: None, path_add: vec![] }
}

fn forwards(pairs: &[(u16, u16)]) -> Forwards {
    let mut list = Forwards::default();
    for (host, inside) in pairs {
        list.forward(*host, *inside);
    }
    list
}

// ===== bwrap =====

#[test]
fn bwrap_argv_starts_with_unshare_all_share_net() {
    let argv = argv("true", &[]);
    assert_eq!(argv.first(), Some(&os("--unshare-all")));
    assert_eq!(argv.get(1), Some(&os("--share-net")));
}

#[test]
fn bwrap_argv_includes_die_with_parent_and_new_session() {
    let argv = argv("true", &[]);
    assert!(argv.contains(&os("--die-with-parent")));
    assert!(argv.contains(&os("--new-session")));
}

#[test]
fn bwrap_argv_translates_default_mounts() {
    let argv = argv("true", &[]);
    assert_eq!(find_pair(&argv, "--ro-bind"), Some((os("/usr"), os("/usr"))));
    assert_eq!(find_pair(&argv, "--symlink"), Some((os("usr/bin"), os("/bin"))));
    assert_eq!(find_pair(&argv, "--bind"), Some((os("/home/u/proj"), os("/home/u/proj"))));
}

#[test]
fn argv_emits_clearenv_before_setenvs() {
    let mut env = EnvList::new();
    env.set("FOO", "bar".to_owned(), EnvSource::Default);
    let argv = bwrap::bwrap_argv(&baseline(), &env, CWD, "true", &vec![]);
    let clear_idx = position(&argv, "--clearenv").expect("--clearenv emitted");
    let setenv_idx = position(&argv, "--setenv").expect("--setenv emitted");
    assert!(clear_idx < setenv_idx);
}

#[test]
fn argv_emits_setenv_per_entry_in_order() {
    let mut env = EnvList::new();
    env.set("ALPHA", "1".to_owned(), EnvSource::Default);
    env.set("BETA", "2".to_owned(), EnvSource::Default);
    let argv = bwrap::bwrap_argv(&baseline(), &env, CWD, "true", &vec![]);
    let first = position(&argv, "--setenv").expect("--setenv emitted");
    assert_eq!(argv.get(first + 1), Some(&os("ALPHA")));
    assert_eq!(argv.get(first + 2), Some(&os("1")));
    assert_eq!(argv.get(first + 3), Some(&os("--setenv")));
    assert_eq!(argv.get(first + 4), Some(&os("BETA")));
    assert_eq!(argv.get(first + 5), Some(&os("2")));
}

#[test]
fn bwrap_command_and_args_appear_after_double_dash() {
    let argv = argv("echo", &["hello", "world"]);
    let dash = position(&argv, "--").expect("-- separator present");
    assert_eq!(argv.get(dash + 1), Some(&os("echo")));
    assert_eq!(argv.get(dash + 2), Some(&os("hello")));
    assert_eq!(argv.get(dash + 3), Some(&os("world")));
}

#[test]
fn sandbox_argv_starts_with_unshare_all_share_net() {
    let argv = bare_argv("true", &[]);
    assert_eq!(argv.first(), Some(&os("--unshare-all")));
    assert_eq!(argv.get(1), Some(&os("--share-net")));
}

#[test]
fn sandbox_argv_includes_die_with_parent_and_new_session() {
    let argv = bare_argv("true", &[]);
    assert!(argv.contains(&os("--die-with-parent")));
    assert!(argv.contains(&os("--new-session")));
    assert!(!argv.contains(&os("--clearenv")));
}

#[test]
fn sandbox_argv_translates_default_mounts() {
    let argv = bare_argv("true", &[]);
    assert_eq!(find_pair(&argv, "--ro-bind"), Some((os("/usr"), os("/usr"))));
    assert_eq!(find_pair(&argv, "--symlink"), Some((os("usr/bin"), os("/bin"))));
    assert_eq!(find_pair(&argv, "--bind"), Some((os("/home/u/proj"), os("/home/u/proj"))));
}

#[test]
fn sandbox_command_and_args_appear_after_double_dash() {
    let argv = bare_argv("echo", &["hello", "world"]);
    let dash = position(&argv, "--").expect("-- separator present");
    assert_eq!(argv.get(dash + 1), Some(&os("echo")));
    assert_eq!(argv.get(dash + 2), Some(&os("hello")));
    assert_eq!(argv.get(dash + 3), Some(&os("world")));
}

#[test]
fn environment_is_emptied_before_it_is_filled() {
    let mounts = Mounts { mounts: vec![], readonly: None };
    let env = with_vars(&[("B", b"2"), ("A", b"\xff")]);
    let argv = sandbox::bwrap::bwrap_argv(&mounts, &env, b"/w", b"cmd\xfe", &vec![os("-x")]);
    let mut expected = vec![
        os("--unshare-all"),
        os("--share-net"),
        os("--die-with-parent"),
        os("--new-session"),
        os("--clearenv"),
        os("--setenv"),
        os("A"),
        b"\xff".to_vec(),
        os("--setenv"),
        os("B"),
        os("2"),
        os("--chdir"),
        os("/w"),
        os("--"),
        b"cmd\xfe".to_vec(),
        os("-x"),
    ];
    assert_eq!(argv, expected);
    // A different variable changes nothing else.
    let argv = sandbox::bwrap::bwrap_argv(
        &mounts,
        &with_vars(&[("B", b"3"), ("A", b"\xff")]),
        b"/w",
        b"cmd\xfe",
        &vec![os("-x")],
    );
    expected[10] = os("3");
    assert_eq!(argv, expected);
}

#[test]
fn each_mount_kind_has_its_flag() {
    let of = |kind: MountKind| {
        let mounts =
            Mounts { mounts: vec![Mount { sandbox: os("/s"), kind }], readonly: None };
        let argv = sandbox::bwrap::bwrap_argv(&mounts, &with_vars(&[]), b"/", b"c", &vec![]);
        let chdir = position(&argv, "--chdir").expect("--chdir");
        argv[5..chdir].to_vec()
    };
    let host = || os("/h");
    assert_eq!(
        of(MountKind::Mount { host: host(), access: MountAccess::Ro }),
        vec![os("--ro-bind"), os("/h"), os("/s")],
    );
    assert_eq!(
        of(MountKind::Mount { host: host(), access: MountAccess::Rw }),
        vec![os("--bind"), os("/h"), os("/s")],
    );
    assert_eq!(
        of(MountKind::Symlink { target: "t".to_owned() }),
        vec![os("--symlink"), os("t"), os("/s")],
    );
    assert_eq!(of(MountKind::Tmpfs), vec![os("--tmpfs"), os("/s")]);
    assert_eq!(of(MountKind::Dev), vec![os("--dev"), os("/s")]);
    assert_eq!(of(MountKind::Proc), vec![os("--proc"), os("/s")]);
}

#[test]
fn builder_appends_tokens() {
    let mut a = ArgvBuilder::default();
    a.flag("--f");
    a.single_path("--p", b"/p\xff");
    a.pair_path("--q", b"/a", b"/b");
    a.pair_str_path("--r", "t", b"/c");
    a.pair_str("--s", "v");
    a.triple_str("--t", "n", "w");
    a.extend_os(vec![os("x")]);
    a.extend_args(&vec!["y".to_owned()]);
    assert_eq!(
        a.into_vec(),
        vec![
            os("--f"),
            os("--p"),
            b"/p\xff".to_vec(),
            os("--q"),
            os("/a"),
            os("/b"),
            os("--r"),
            os("t"),
            os("/c"),
            os("--s"),
            os("v"),
            os("--t"),
            os("n"),
            os("w"),
            os("x"),
            os("y"),
        ],
    );
}

// ===== pasta =====

#[test]
fn argv_includes_required_network_flags() {
    let argv = pasta_argv(&Forwards::default(), vec![]);
    assert!(argv.contains(&os("--config-net")));
    assert!(argv.contains(&os("--no-map-gw")));
    assert!(argv.contains(&os("--no-dhcp")));
    assert!(argv.contains(&os("--no-dhcpv6")));
    assert!(argv.contains(&os("--no-ra")));
    assert!(argv.contains(&os("--foreground")));
}

#[test]
fn argv_disables_namespace_to_host_forwarding() {
    let argv = pasta_argv(&Forwards::default(), vec![]);
    let t_pos = position(&argv, "-t").expect("-t flag present");
    assert_eq!(argv.get(t_pos + 1), Some(&os("none")));
}

#[test]
fn argv_uses_t_capital_none_when_no_forwards() {
    let argv = pasta_argv(&Forwards::default(), vec![]);
    let t_pos = position(&argv, "-T").expect("-T flag present");
    assert_eq!(argv.get(t_pos + 1), Some(&os("none")));
}

#[test]
fn argv_uses_t_capital_list_when_forwards_present() {
    let argv = pasta_argv(&forwards(&[(8080, 8080), (5432, 9999)]), vec![]);
    let t_pos = position(&argv, "-T").expect("-T flag present");
    assert_eq!(argv.get(t_pos + 1), Some(&os("8080,5432:9999")));
}

#[test]
fn argv_includes_proxy_port_as_a_forward() {
    let argv = pasta_argv(&forwards(&[(43210, 43210), (8080, 8080), (5432, 9999)]), vec![]);
    let t_pos = position(&argv, "-T").expect("-T flag present");
    assert_eq!(argv.get(t_pos + 1), Some(&os("43210,8080,5432:9999")));
}

#[test]
fn child_argv_appears_after_double_dash() {
    let argv = pasta_argv(&Forwards::default(), vec![os("bwrap"), os("--share-net")]);
    let dash = position(&argv, "--").expect("-- separator present");
    assert_eq!(argv.get(dash + 1), Some(&os("bwrap")));
    assert_eq!(argv.get(dash + 2), Some(&os("--share-net")));
}

// ===== The whole =====

#[test]
fn run_preserves_non_utf8_argv_bytes() {
    let profile = Profile {
        mounts: Mounts { mounts: vec![], readonly: None },
        forwards: Forwards::default(),
        env: with_vars(&[]),
        proxies: Proxies::default(),
    };
    let odd = vec![b'a', 0xff, b'b'];
    let argv = launch_argv(&profile, 4000, CWD, b"printf", &vec![os("%s"), odd.clone()]);
    assert_eq!(argv.last(), Some(&odd));
    assert_eq!(argv[argv.len() - 3], os("printf"));
    let first = position(&argv, "--").expect("-- separator present");
    assert_eq!(argv[first + 1], os("bwrap"));
    assert_eq!(argv[9], os("4000"));
}

fn exit(code: Option<i32>, signal: Option<i32>) -> Result<(), Error> {
    run_outcome(b"sh", code, signal)
}

#[test]
fn cli_run_propagates_child_exit_code() {
    let err = exit(Some(42), None).expect_err("a failing command");
    assert_eq!(exit_code(&err), 42);
    assert_eq!(err.message(), "`pasta bwrap sh` exited with code 42");
}

#[test]
fn run_run_propagates_child_exit_code() {
    let err = exit(Some(42), None).expect_err("a failing command");
    assert_eq!(exit_code(&err), 42);
    assert!(exit(Some(0), None).is_ok());
}

#[test]
fn a_signal_is_an_error_of_its_own() {
    let err = exit(None, Some(9)).expect_err("a killed command");
    assert!(matches!(err, Error::Signal { signal: 9, .. }));
    assert_eq!(exit_code(&err), 1);
    let err = exit(None, None).expect_err("an end that is not known");
    assert!(matches!(err, Error::Exit { code: 1, .. }));
}
