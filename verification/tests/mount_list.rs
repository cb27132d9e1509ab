//! Mounts as the command line alone describes them.

use redoubtful::errors::Error;
use redoubtful::host::{Host, HostVar, Unreadable};
use redoubtful::mounts::{
    MountAccess, MountKind, MountList, MountOpts, MountSource, MountSpec,
};

const HOME: &[u8] = b"/home/u";
const CWD: &[u8] = b"/home/u/proj";

fn parse(s: &str) -> Result<MountSpec, String> {
    MountSpec::from_str(s)
}

#[test]
fn default_list_orders_home_tmpfs_before_cwd_bind() {
    let mounts = MountList::default_baseline(HOME, CWD, MountAccess::Rw);
    let home_idx = mounts
        .iter()
        .position(|m| m.sandbox == HOME && matches!(m.kind, MountKind::Tmpfs))
        .expect("home tmpfs entry");
    let cwd_idx = mounts
        .iter()
        .position(|m| {
            m.sandbox == CWD
                && matches!(m.kind, MountKind::Mount { access: MountAccess::Rw, .. })
        })
        .expect("cwd bind entry");
    assert!(home_idx < cwd_idx);
    assert_eq!(mounts.len(), 10);
}

#[test]
fn default_baseline_honors_cwd_access_ro() {
    let mounts = MountList::default_baseline(HOME, CWD, MountAccess::Ro);
    let cwd = mounts
        .iter()
        .find(|m| matches!(m.source, MountSource::Cwd))
        .expect("cwd entry");
    assert!(matches!(cwd.kind, MountKind::Mount { access: MountAccess::Ro, .. }));
}

#[test]
fn cli_mounts_appended_after_default_home_tmpfs() {
    let mut mounts = MountList::default_baseline(HOME, CWD, MountAccess::Rw);
    let opts = MountOpts {
        mount: vec![MountSpec {
            host: b"/home/u/.gitconfig".to_vec(),
            sandbox: b"/home/u/.gitconfig".to_vec(),
            access: MountAccess::Ro,
        }],
        readonly: false,
    };
    opts.apply(&mut mounts);
    let tmpfs_idx = mounts
        .iter()
        .position(|m| m.sandbox == HOME && matches!(m.kind, MountKind::Tmpfs))
        .expect("home tmpfs");
    let cli_idx = mounts
        .iter()
        .position(|m| matches!(m.source, MountSource::Cli))
        .expect("cli mount appended");
    assert!(tmpfs_idx < cli_idx);
}

#[test]
fn cwd_access_reflects_readonly_flag() {
    let mut opts = MountOpts::default();
    assert_eq!(opts.cwd_access(), MountAccess::Rw);
    opts.readonly = true;
    assert_eq!(opts.cwd_access(), MountAccess::Ro);
}

#[test]
fn mount_opts_validate_names_the_missing_path() {
    let mut host = Host::empty();
    host.unreadable =
        vec![Unreadable { path: b"/gone".to_vec(), reason: "No such file".to_owned() }];
    let opts = MountOpts {
        mount: vec![parse("/there").unwrap(), parse("/gone").unwrap()],
        readonly: false,
    };
    match opts.validate(&host).expect_err("missing host path") {
        Error::MissingMountHost { path, .. } => assert_eq!(path, b"/gone".to_vec()),
        other => panic!("expected MissingMountHost, got {other:?}"),
    }
    assert!(opts.validate(&Host::empty()).is_ok());
}

#[test]
fn mount_spec_accepts_single_path() {
    let spec = parse("/home/u/.gitconfig").expect("parses");
    assert_eq!(spec.host, b"/home/u/.gitconfig".to_vec());
    assert_eq!(spec.sandbox, b"/home/u/.gitconfig".to_vec());
    assert_eq!(spec.access, MountAccess::Ro);
}

#[test]
fn mount_spec_accepts_host_colon_sandbox() {
    let spec = parse("/host/x:/sandbox/y").expect("parses");
    assert_eq!(spec.host, b"/host/x".to_vec());
    assert_eq!(spec.sandbox, b"/sandbox/y".to_vec());
    assert_eq!(spec.access, MountAccess::Ro);
}

#[test]
fn mount_spec_accepts_explicit_rw_and_ro_suffix() {
    let rw = parse("/host/x:/sandbox/y:rw").expect("parses :rw");
    assert_eq!(rw.access, MountAccess::Rw);
    let ro = parse("/host/x:/sandbox/y:ro").expect("parses :ro");
    assert_eq!(ro.access, MountAccess::Ro);
}

#[test]
fn mount_spec_rejects_invalid_access_token() {
    let err =
        parse("/host/x:/sandbox/y:wat").expect_err("bogus access token should be rejected");
    assert!(err.contains("\"wat\""), "{err}");
    assert!(err.contains("ro") && err.contains("rw"), "{err}");
}

#[test]
fn mount_spec_rejects_too_many_colons() {
    let err = parse("/host/x:/sandbox/y:rw:extra")
        .expect_err("four-segment spec should be rejected");
    assert!(err.contains("more than two `:`"), "{err}");
}

#[test]
fn mount_spec_rejects_relative_paths() {
    assert!(parse("relative/path").is_err());
    assert!(parse("/abs:relative").is_err());
    assert!(parse("relative:/abs").is_err());
}

#[test]
fn mount_spec_complains_about_empty_paths_first() {
    // Here an empty sandbox path is the complaint before a relative host
    // path.
    assert_eq!(parse("a:").unwrap_err(), "mount spec \"a:\" has empty sandbox path");
    assert_eq!(parse(":b").unwrap_err(), "mount spec \":b\" has empty host path");
}

#[test]
fn the_inventory_is_the_baseline_and_what_was_asked_for() {
    let mut host = Host::empty();
    let cwd = Ok(CWD.to_vec());
    let opts = MountOpts { mount: vec![parse("/m:/n:rw").unwrap()], readonly: true };
    assert!(matches!(
        opts.inventory(&host, &cwd),
        Err(Error::MissingEnvVar { name }) if name == "HOME"
    ));
    host.vars.push(HostVar { name: b"HOME".to_vec(), value: HOME.to_vec() });
    assert!(matches!(
        opts.inventory(&host, &Err("gone".to_owned())),
        Err(Error::CouldNotGetCwd { source }) if source == "gone"
    ));
    let list = opts.inventory(&host, &cwd).ok().expect("lists");
    assert_eq!(list.len(), 11);
    assert!(matches!(list.0[9].kind, MountKind::Mount { access: MountAccess::Ro, .. }));
    assert_eq!(list.0[10].sandbox, b"/n".to_vec());
    assert!(matches!(list.0[10].kind, MountKind::Mount { access: MountAccess::Rw, .. }));
    host.unreadable = vec![Unreadable { path: b"/m".to_vec(), reason: "no".to_owned() }];
    assert!(matches!(opts.inventory(&host, &cwd), Err(Error::MissingMountHost { .. })));
}
