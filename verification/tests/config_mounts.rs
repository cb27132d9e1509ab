//! Mounts and paths of profiles.

use redoubtful::config::mount::{Mount, MountAccess, MountDecl, MountKind};
use redoubtful::config::mounts::{MountDecls, Mounts};
use redoubtful::config::resolve_context::ResolveContext;
use redoubtful::config::spanned::Spanned;
use redoubtful::config::{expand_tilde, Decl, Finalize, Merge, NormalizeConfigPaths};
use redoubtful::errors::Error;
use redoubtful::host::{Host, Unreadable};

fn b(s: &str) -> Vec<u8> {
    s.as_bytes().to_vec()
}

fn at(s: &str) -> Spanned<Vec<u8>> {
    Spanned::new(0, 0, b(s))
}

fn parse(s: &str) -> Result<MountDecl, String> {
    MountDecl::from_str(s)
}

fn host() -> Host {
    let mut host = Host::empty();
    host.home = Some(b("/home/test"));
    host.cwd = Some(b("/home/test/project"));
    host
}

// ===== Paths =====

#[test]
fn expand_tilde_handles_supported_forms() {
    let h = b("/home/test");
    assert_eq!(expand_tilde(b"~", &h).unwrap(), h);
    assert_eq!(expand_tilde(b"~/foo", &h).unwrap(), b("/home/test/foo"));
    assert_eq!(expand_tilde(b"/already/abs", &h).unwrap(), b("/already/abs"));
}

#[test]
fn expand_tilde_rejects_unhandled_patterns() {
    let h = b("/home/test");
    let err = expand_tilde(b"~bob/foo", &h).expect_err("~user/ is unsupported");
    assert!(matches!(err, Error::ConfigInvalidPath { .. }));
    let err = expand_tilde(b"relative/path", &h).expect_err("relative path is unsupported");
    assert!(matches!(err, Error::ConfigInvalidPath { .. }));
    assert!(expand_tilde(b"", &h).is_err());
    assert!(expand_tilde(b"~+", &h).is_err());
}

#[test]
fn expand_tilde_preserves_non_utf8_absolute_path() {
    let raw: Vec<u8> = b"/\xff/foo".to_vec();
    let got = expand_tilde(&raw, b"/home/test").expect("absolute non-UTF-8 path is fine");
    assert_eq!(got, raw);
}

#[test]
fn expand_tilde_preserves_non_utf8_under_home() {
    let got = expand_tilde(b"~/\xff/bin", b"/home/test").expect("~/non-UTF-8 should expand");
    assert_eq!(got, b"/home/test/\xff/bin".to_vec());
}

#[test]
fn expand_tilde_error_preserves_non_utf8_bytes() {
    let raw: Vec<u8> = b"\xffrelative".to_vec();
    match expand_tilde(&raw, b"/home/test").expect_err("non-UTF-8 relative is unhandled") {
        Error::ConfigInvalidPath { path, .. } => assert_eq!(path, raw),
        other => panic!("expected ConfigInvalidPath, got {other:?}"),
    }
}

#[test]
fn expand_tilde_stays_beneath_home() {
    // What follows `~/` is beneath the home directory, even where it
    // starts with another slash.
    assert_eq!(expand_tilde(b"~//etc", b"/home/test").unwrap(), b("/home/test//etc"));
    assert_eq!(expand_tilde(b"~/", b"/home/test").unwrap(), b("/home/test/"));
    assert_eq!(expand_tilde(b"~/x", b"/").unwrap(), b("/x"));
}

#[test]
fn expand_tilde_twice_is_once() {
    let once = expand_tilde(b"~/a/b", b"/home/test").unwrap();
    assert_eq!(expand_tilde(&once, b"/home/test").unwrap(), once);
}

// ===== Declarations =====

#[test]
fn mount_decl_accepts_single_path() {
    let spec = parse("/home/u/.gitconfig").expect("parses");
    assert_eq!(spec.host.get_ref(), &b("/home/u/.gitconfig"));
    assert!(spec.sandbox.is_none());
    assert_eq!(spec.sandbox_path(), b"/home/u/.gitconfig");
    assert_eq!(spec.access_mode(), MountAccess::Ro);
}

#[test]
fn mount_decl_accepts_host_colon_sandbox() {
    let spec = parse("/host/x:/sandbox/y").expect("parses");
    assert_eq!(spec.host.get_ref(), &b("/host/x"));
    assert_eq!(spec.sandbox_path(), b"/sandbox/y");
    assert_eq!(spec.access_mode(), MountAccess::Ro);
}

#[test]
fn mount_decl_accepts_explicit_rw_and_ro_suffix() {
    let rw = parse("/host/x:/sandbox/y:rw").expect("parses :rw");
    assert_eq!(rw.access_mode(), MountAccess::Rw);
    let ro = parse("/host/x:/sandbox/y:ro").expect("parses :ro");
    assert_eq!(ro.access_mode(), MountAccess::Ro);
}

#[test]
fn mount_decl_rejects_invalid_access_token() {
    let err =
        parse("/host/x:/sandbox/y:wat").expect_err("bogus access token should be rejected");
    assert!(err.contains("\"wat\""), "{err}");
    assert!(err.contains("ro") && err.contains("rw"), "{err}");
    assert_eq!(err, "mount access \"wat\" must be `ro` or `rw`");
}

#[test]
fn mount_decl_rejects_too_many_colons() {
    let err = parse("/host/x:/sandbox/y:rw:extra")
        .expect_err("four-segment spec should be rejected");
    assert!(err.contains("more than two `:`"), "{err}");
    assert_eq!(
        err,
        "mount spec \"/host/x:/sandbox/y:rw:extra\" contains more than two `:`; additional colons are reserved for future use",
    );
}

#[test]
fn mount_decl_rejects_relative_paths() {
    assert!(parse("relative/path").is_err());
    assert!(parse("/abs:relative").is_err());
    assert!(parse("relative:/abs").is_err());
}

#[test]
fn mount_decl_complaints_in_order() {
    assert_eq!(parse("").unwrap_err(), "mount spec \"\" has empty host path");
    assert_eq!(parse(":").unwrap_err(), "mount spec \":\" has empty host path");
    assert_eq!(parse("/a:").unwrap_err(), "mount spec \"/a:\" has empty sandbox path");
    // A relative host path is the complaint before an empty sandbox path.
    assert_eq!(
        parse("a:").unwrap_err(),
        "mount host path \"a\" must be absolute (start with `/`)",
    );
    assert_eq!(
        parse("/a:b:ro").unwrap_err(),
        "mount sandbox path \"b\" must be absolute (start with `/`)",
    );
    // The access is the complaint before the paths.
    assert_eq!(parse("a:b:").unwrap_err(), "mount access \"\" must be `ro` or `rw`");
    assert_eq!(
        parse("/a:b:").unwrap_err(),
        "mount access \"\" must be `ro` or `rw`",
    );
}

#[test]
fn mount_decl_resolve_yields_mount() {
    let ctx = ResolveContext::empty();
    let single = parse("/etc/gitconfig").unwrap().resolve(&ctx).expect("resolves");
    assert_eq!(single.sandbox, b("/etc/gitconfig"));
    match single.kind {
        MountKind::Mount { host, access } => {
            assert_eq!(host, b("/etc/gitconfig"));
            assert_eq!(access, MountAccess::Ro);
        }
        other => panic!("expected MountKind::Mount, got {other:?}"),
    }
    let remap = parse("/host/x:/sandbox/y:rw").unwrap().resolve(&ctx).expect("resolves");
    assert_eq!(remap.sandbox, b("/sandbox/y"));
    match remap.kind {
        MountKind::Mount { host, access } => {
            assert_eq!(host, b("/host/x"));
            assert_eq!(access, MountAccess::Rw);
        }
        other => panic!("expected MountKind::Mount, got {other:?}"),
    }
}

#[test]
fn cli_constructed_mount_decl_uses_zero_span() {
    let spec = parse("/etc/gitconfig").expect("parses");
    assert_eq!(spec.host.span(), (0, 0));
}

#[test]
fn mount_decl_validate_reports_inaccessible_host() {
    let mut h = host();
    h.unreadable = vec![Unreadable { path: b("/missing"), reason: "No such file".to_owned() }];
    assert!(parse("/present").unwrap().validate(&h).is_ok());
    match parse("/missing:/x").unwrap().validate(&h).expect_err("host path is missing") {
        Error::MissingMountHost { path, source } => {
            assert_eq!(path, b("/missing"));
            assert_eq!(source, "No such file");
        }
        other => panic!("expected MissingMountHost, got {other:?}"),
    }
}

#[test]
fn normalize_config_paths_expands_host_and_sandbox() {
    let mut spec = MountDecl {
        host: Spanned::new(7, 21, b("~/.gitconfig")),
        sandbox: Some(at("~/sandbox/.gitconfig")),
        access: None,
    };
    spec.normalize_config_paths(b"/home/test").expect("normalizes");
    assert_eq!(spec.host.get_ref(), &b("/home/test/.gitconfig"));
    assert_eq!(
        spec.sandbox.as_ref().unwrap().get_ref(),
        &b("/home/test/sandbox/.gitconfig"),
    );
    // The place in the file survives.
    assert_eq!(spec.host.span(), (7, 21));
}

#[test]
fn normalize_config_paths_propagates_invalid_host() {
    let mut spec = MountDecl { host: at("relative/path"), sandbox: None, access: None };
    let err = spec.normalize_config_paths(b"/home/test").expect_err("relative path must error");
    assert!(matches!(err, Error::ConfigInvalidPath { .. }));
}

#[test]
fn cwd_access_from_readonly_resolves_all_three_states() {
    assert_eq!(MountAccess::from_readonly(None), MountAccess::Rw);
    assert_eq!(MountAccess::from_readonly(Some(true)), MountAccess::Ro);
    assert_eq!(MountAccess::from_readonly(Some(false)), MountAccess::Rw);
}

// ===== Baseline =====

#[test]
fn base_config_includes_system_mounts_in_order() {
    let base = Mounts::default().base_config(&host());
    let kinds: Vec<&str> = base
        .iter()
        .map(|m| match &m.kind {
            MountKind::Mount { .. } => "mount",
            MountKind::Symlink { .. } => "symlink",
            MountKind::Tmpfs => "tmpfs",
            MountKind::Dev => "dev",
            MountKind::Proc => "proc",
        })
        .collect();
    assert_eq!(
        &kinds[..9],
        &["mount", "symlink", "symlink", "symlink", "symlink", "mount", "dev", "proc", "tmpfs"],
        "system baseline ordering (got: {kinds:?})",
    );
    assert_eq!(base.len(), 11);
}

#[test]
fn base_config_exposes_etc_read_only() {
    let base = Mounts::default().base_config(&host());
    let etc = base.iter().find(|m| m.sandbox == b("/etc")).expect("/etc baseline mount present");
    match &etc.kind {
        MountKind::Mount { host, access } => {
            assert_eq!(host, &b("/etc"), "/etc binds at host path");
            assert_eq!(*access, MountAccess::Ro, "/etc must be read-only");
        }
        other => panic!("/etc must be a Mount, got {other:?}"),
    }
}

#[test]
fn base_config_honors_readonly_extra() {
    let mounts = Mounts { readonly: Some(true), ..Mounts::default() };
    let base = mounts.base_config(&host());
    let cwd = base
        .iter()
        .find(|m| m.sandbox == b("/home/test/project"))
        .expect("cwd bind present");
    assert!(matches!(cwd.kind, MountKind::Mount { access: MountAccess::Ro, .. }));
}

#[test]
fn base_config_defaults_cwd_to_rw_when_readonly_unset() {
    let base = Mounts::default().base_config(&host());
    let cwd = base
        .iter()
        .find(|m| m.sandbox == b("/home/test/project"))
        .expect("cwd bind present");
    assert!(matches!(cwd.kind, MountKind::Mount { access: MountAccess::Rw, .. }));
}

#[test]
fn base_config_emits_home_tmpfs_from_host_env() {
    let base = Mounts::default().base_config(&host());
    let blank = base
        .iter()
        .position(|m| m.sandbox == b("/home/test") && matches!(m.kind, MountKind::Tmpfs))
        .expect("home is blanked out");
    let cwd = base
        .iter()
        .position(|m| m.sandbox == b("/home/test/project"))
        .expect("cwd bind present");
    assert!(blank < cwd, "the working directory must show through");
    let bare = Mounts::default().base_config(&Host::empty());
    assert_eq!(bare.len(), 9);
    assert!(bare
        .iter()
        .all(|m| !matches!(m.kind, MountKind::Tmpfs) || m.sandbox == b("/tmp")));
}

// ===== Merging =====

#[test]
fn merge_right_biased_appends_user_mounts_after_base() {
    let mut left = Mounts::default();
    left.mount(b("/baseline"), b("/baseline"), MountAccess::Ro);
    let mut right = Mounts::default();
    right.mount(b("/user"), b("/user"), MountAccess::Rw);
    let merged = left.merge_right_biased(&right);
    let sandboxes: Vec<Vec<u8>> = merged.iter().map(|m| m.sandbox.clone()).collect();
    assert_eq!(sandboxes, vec![b("/baseline"), b("/user")]);
}

#[test]
fn merge_right_biased_readonly_is_right_or_left() {
    let left = Mounts { readonly: Some(true), ..Mounts::default() };
    let right_explicit = Mounts { readonly: Some(false), ..Mounts::default() };
    assert_eq!(left.merge_right_biased(&right_explicit).readonly, Some(false));
    let right_absent = Mounts::default();
    assert_eq!(left.merge_right_biased(&right_absent).readonly, Some(true));
}

#[test]
fn merge_of_mounts_may_be_bracketed_anyhow() {
    let layer = |name: &str, readonly: Option<bool>| {
        let mut m = Mounts { readonly, ..Mounts::default() };
        m.mount(b(name), b(name), MountAccess::Ro);
        m
    };
    let (x, y, z) = (layer("/x", Some(true)), layer("/y", None), layer("/z", Some(false)));
    let left = x.merge_right_biased(&y).merge_right_biased(&z);
    let right = x.merge_right_biased(&y.merge_right_biased(&z));
    let names = |m: &Mounts| m.iter().map(|m| m.sandbox.clone()).collect::<Vec<_>>();
    assert_eq!(names(&left), vec![b("/x"), b("/y"), b("/z")]);
    assert_eq!(names(&left), names(&right));
    assert_eq!(left.readonly, Some(false));
    assert_eq!(right.readonly, Some(false));
}

#[test]
fn clear_extra_fields_zeros_readonly() {
    let mut m = Mounts { readonly: Some(true), ..Mounts::default() };
    m.clear_extra_fields();
    assert!(m.readonly.is_none());
}

#[test]
fn finalize_clears_readonly_and_keeps_user_mounts_after_baseline() {
    let user = Mounts {
        readonly: Some(true),
        mounts: vec![Mount {
            sandbox: b("/user"),
            kind: MountKind::Mount { host: b("/user"), access: MountAccess::Rw },
        }],
    };
    let finalized = user.finalize(&host());
    assert!(finalized.readonly.is_none(), "readonly must be cleared");
    let user_idx = finalized
        .iter()
        .position(|m| m.sandbox == b("/user"))
        .expect("user mount survives finalize");
    assert!(user_idx > 0, "user mount must come after baseline");
    assert_eq!(user_idx, finalized.len() - 1);
}

#[test]
fn normalize_config_paths_iterates_each_decl() {
    let mut decls = MountDecls {
        mounts: vec![
            MountDecl {
                host: at("~/.gitconfig"),
                sandbox: Some(at("~/.gitconfig")),
                access: None,
            },
            MountDecl { host: at("/etc/gitconfig"), sandbox: None, access: None },
        ],
        readonly: None,
    };
    decls.normalize_config_paths(b"/home/test").expect("normalizes");
    assert_eq!(decls.mounts[0].host.get_ref(), &b("/home/test/.gitconfig"));
    assert_eq!(
        decls.mounts[0].sandbox.as_ref().unwrap().get_ref(),
        &b("/home/test/.gitconfig"),
    );
    assert_eq!(decls.mounts[1].host.get_ref(), &b("/etc/gitconfig"));
}

#[test]
fn decl_resolve_propagates_readonly() {
    let decls = MountDecls { mounts: vec![], readonly: Some(true) };
    let resolved = decls.resolve(&ResolveContext::empty()).expect("resolves");
    assert_eq!(resolved.readonly, Some(true));
    assert_eq!(resolved.iter().count(), 0);
}

#[test]
fn decl_resolve_yields_mount_per_decl() {
    let decls = MountDecls {
        mounts: vec![
            MountDecl { host: at("/a"), sandbox: None, access: None },
            MountDecl { host: at("/b"), sandbox: Some(at("/c")), access: Some(MountAccess::Rw) },
        ],
        readonly: None,
    };
    let resolved = decls.resolve(&ResolveContext::empty()).expect("resolves");
    let entries: Vec<(Vec<u8>, MountAccess)> = resolved
        .iter()
        .filter_map(|m| match &m.kind {
            MountKind::Mount { access, .. } => Some((m.sandbox.clone(), *access)),
            _ => None,
        })
        .collect();
    assert_eq!(entries, vec![(b("/a"), MountAccess::Ro), (b("/c"), MountAccess::Rw)]);
}
