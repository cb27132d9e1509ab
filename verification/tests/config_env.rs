//! Environment variables of profiles.

use redoubtful::config::env_var::{EnvVar, EnvVarDecl};
use redoubtful::config::env_vars::{expand_path_list, EnvVarDecls, EnvVars, CANONICAL_PATH};
use redoubtful::config::resolve_context::ResolveContext;
use redoubtful::config::spanned::Spanned;
use redoubtful::config::{Decl, Finalize, Merge, NormalizeConfigPaths};
use redoubtful::errors::Error;
use redoubtful::host::{Host, HostVar};

fn context(host: Host) -> ResolveContext {
    match ResolveContext::new(host, b"/c/secrets.toml", String::new()) {
        Ok(ctx) => ctx,
        Err(e) => panic!("no secrets are fine: {e:?}"),
    }
}

fn b(s: &str) -> Vec<u8> {
    s.as_bytes().to_vec()
}

fn parse(s: &str) -> EnvVarDecl {
    EnvVarDecl::from_str(s).expect("parses")
}

fn host_with(vars: &[(&str, &str)]) -> Host {
    let mut host = Host::empty();
    for (name, value) in vars {
        host.vars.push(HostVar { name: b(name), value: b(value) });
    }
    host
}

fn entry(env: &EnvVars, name: &str) -> EnvVar {
    env.iter()
        .into_iter()
        .find(|e| e.name == name)
        .unwrap_or_else(|| panic!("{name} entry expected"))
}

// ===== A single variable =====

#[test]
fn env_var_decl_literal_parses() {
    let decl = parse("FOO=bar");
    assert_eq!(decl.name.get_ref(), "FOO");
    assert_eq!(decl.value.as_deref(), Some("bar"));
}

#[test]
fn env_var_decl_literal_empty_value() {
    assert_eq!(parse("FOO=").value.as_deref(), Some(""));
}

#[test]
fn env_var_decl_passthrough_when_no_equals() {
    assert!(parse("FOO").value.is_none(), "`FOO` should be passthrough");
}

#[test]
fn env_var_decl_value_with_embedded_equals() {
    assert_eq!(parse("KEY=a=b=c").value.as_deref(), Some("a=b=c"));
}

#[test]
fn env_var_decl_validate_rejects_empty_name() {
    let host = Host::empty();
    assert!(parse("").validate(&host).is_err());
    assert!(parse("=value").validate(&host).is_err());
    assert!(parse("FOO").validate(&host).is_ok());
    assert!(parse("FOO=bar").validate(&host).is_ok());
    match parse("A\0B=1").validate(&host).expect_err("NUL in name") {
        Error::InvalidEnvName { name, reason } => {
            assert_eq!(name, "A\0B");
            assert_eq!(reason, "name contains NUL");
        }
        other => panic!("expected InvalidEnvName, got {other:?}"),
    }
}

#[test]
fn env_var_decl_resolve_literal_yields_os_string_value() {
    let resolved = parse("FOO=bar").resolve(&ResolveContext::empty()).unwrap();
    let var = resolved.var.expect("literal resolves");
    assert_eq!(var.name, "FOO");
    assert_eq!(var.value, b("bar"));
}

#[test]
fn env_var_decl_resolve_passthrough_unset_yields_none() {
    let decl = parse("REDOUBTFUL_DEFINITELY_NOT_SET_4f7a8b");
    let resolved = decl.resolve(&ResolveContext::empty()).unwrap();
    assert!(resolved.var.is_none(), "unset passthrough must resolve to None");
}

#[test]
fn env_var_decl_passthrough_keeps_bytes() {
    let mut host = Host::empty();
    host.vars.push(HostVar { name: b("FOO"), value: vec![b'a', 0xff, b'b'] });
    let ctx = context(host);
    let var = parse("FOO").resolve(&ctx).unwrap().var.expect("set on the host");
    assert_eq!(var.value, vec![b'a', 0xff, b'b']);
}

#[test]
fn env_var_serialize_value_renders_lossy_for_non_utf8() {
    let var = EnvVar { name: "X".to_owned(), value: vec![b'a', 0xff, b'b'] };
    let shown = var.value_lossy();
    assert!(shown.contains('\u{FFFD}'), "expected U+FFFD substitution in {shown}");
    assert_eq!(shown, "a\u{FFFD}b");
    let plain = EnvVar { name: "X".to_owned(), value: b("grün") };
    assert_eq!(plain.value_lossy(), "grün");
}

// ===== The inventory =====

#[test]
fn env_vars_set_appends_then_upserts() {
    let mut env = EnvVars::default();
    env.set("A", b("1"));
    env.set("B", b("2"));
    assert_eq!(env.len(), 2);
    env.set("A", b("1b"));
    assert_eq!(env.len(), 2);
    assert_eq!(entry(&env, "A").value, b("1b"));
    let names: Vec<String> = env.iter().into_iter().map(|e| e.name).collect();
    assert_eq!(names, vec!["A", "B"]);
}

#[test]
fn env_vars_set_accepts_str_string_and_os_string() {
    let mut env = EnvVars::default();
    env.set("A", b("literal"));
    env.set("B", String::from("owned-string").into_bytes());
    env.set("C", vec![b'o', b's', 0xff]);
    assert_eq!(entry(&env, "A").value, b("literal"));
    assert_eq!(entry(&env, "B").value, b("owned-string"));
    assert_eq!(entry(&env, "C").value, vec![b'o', b's', 0xff]);
}

#[test]
fn env_vars_are_walked_alphabetically_whatever_the_order() {
    let mut one = EnvVars::default();
    let mut two = EnvVars::default();
    for name in ["b", "_", "B", "A", "é", "a"] {
        one.set(name, b("x"));
    }
    for name in ["a", "é", "A", "B", "_", "b"] {
        two.set(name, b("x"));
    }
    let names = |e: &EnvVars| e.iter().into_iter().map(|v| v.name).collect::<Vec<_>>();
    assert_eq!(names(&one), vec!["A", "B", "_", "a", "b", "é"]);
    assert_eq!(names(&one), names(&two));
}

// ===== Baseline =====

#[test]
fn base_config_uses_canonical_path_when_path_unset() {
    let base = EnvVars::default().base_config(&Host::empty());
    assert_eq!(entry(&base, "PATH").value, b(CANONICAL_PATH));
    assert_eq!(
        CANONICAL_PATH,
        "/usr/local/sbin:/usr/local/bin:/usr/sbin:/usr/bin:/sbin:/bin",
    );
}

#[test]
fn base_config_respects_path_override() {
    let env = EnvVars { path: Some(b("/only/this:/and/this")), ..EnvVars::default() };
    let base = env.base_config(&Host::empty());
    assert_eq!(entry(&base, "PATH").value, b("/only/this:/and/this"));
}

#[test]
fn base_config_prepends_path_additions_in_reverse_to_canonical() {
    let env = EnvVars {
        path_add: vec![b("/opt/agent/bin"), b("/home/me/.cargo/bin")],
        ..EnvVars::default()
    };
    let base = env.base_config(&Host::empty());
    assert_eq!(
        entry(&base, "PATH").value,
        b(&format!("/home/me/.cargo/bin:/opt/agent/bin:{CANONICAL_PATH}")),
    );
}

#[test]
fn base_config_prepends_path_additions_in_reverse_to_override() {
    let env = EnvVars {
        path: Some(b("/only/this")),
        path_add: vec![b("/extra-first"), b("/extra-second")],
        ..EnvVars::default()
    };
    let base = env.base_config(&Host::empty());
    assert_eq!(entry(&base, "PATH").value, b("/extra-second:/extra-first:/only/this"));
}

#[test]
fn base_config_emits_home_from_host_env() {
    let base = EnvVars::default().base_config(&host_with(&[("HOME", "/home/test")]));
    assert_eq!(entry(&base, "HOME").value, b("/home/test"));
    let bare = EnvVars::default().base_config(&Host::empty());
    assert!(bare.iter().iter().all(|e| e.name != "HOME"));
    assert_eq!(bare.len(), 1);
}

#[test]
fn base_config_passes_through_only_what_is_listed() {
    let host = host_with(&[
        ("TERM", "xterm-256color"),
        ("LANG", "C.UTF-8"),
        ("LC_TIME", "de_DE"),
        ("LC_", "odd"),
        ("GITHUB_TOKEN", "do-not-leak"),
        ("SSH_AUTH_SOCK", "/run/agent"),
        ("PATH", "/host/bin"),
    ]);
    let base = EnvVars::default().base_config(&host);
    let names: Vec<String> = base.iter().into_iter().map(|e| e.name).collect();
    assert_eq!(names, vec!["LANG", "LC_", "LC_TIME", "PATH", "TERM"]);
    assert_eq!(entry(&base, "PATH").value, b(CANONICAL_PATH));
    assert_eq!(entry(&base, "LC_TIME").value, b("de_DE"));
}

#[test]
fn base_config_skips_locale_names_that_are_not_utf8() {
    let mut host = Host::empty();
    host.vars.push(HostVar { name: b"LC_\xff".to_vec(), value: b("x") });
    host.vars.push(HostVar { name: b("LC_ALL"), value: vec![0xfe] });
    let base = EnvVars::default().base_config(&host);
    let names: Vec<String> = base.iter().into_iter().map(|e| e.name).collect();
    assert_eq!(names, vec!["LC_ALL", "PATH"]);
    assert_eq!(entry(&base, "LC_ALL").value, vec![0xfe]);
}

#[test]
fn finalize_clears_path_and_path_add() {
    let env = EnvVars {
        path: Some(b("/only/this")),
        path_add: vec![b("/extra")],
        ..EnvVars::default()
    };
    let env = env.finalize(&Host::empty());
    assert!(env.path.is_none());
    assert!(env.path_add.is_empty());
    assert_eq!(entry(&env, "PATH").value, b("/extra:/only/this"));
}

#[test]
fn env_var_decls_resolve_then_finalize_user_var_overrides_baseline() {
    let decls = EnvVarDecls {
        env: vec![EnvVarDecl {
            name: Spanned::new(0, 0, "PATH".to_owned()),
            value: Some("/only/this".to_owned()),
        }],
        path: None,
        path_add: Vec::new(),
    };
    let env = decls.resolve(&ResolveContext::empty()).expect("resolves").finalize(&Host::empty());
    assert_eq!(entry(&env, "PATH").value, b("/only/this"));
    assert_eq!(env.iter().iter().filter(|e| e.name == "PATH").count(), 1);
}

#[test]
fn env_vars_merge_right_biased_layers_two_resolved_decls() {
    let mut left = EnvVars::default();
    left.set("A", b("from-left"));
    left.set("SHARED", b("left-wins-when-alone"));
    left.path = Some(b("/left"));
    left.path_add = vec![b("/left/bin")];

    let mut right = EnvVars::default();
    right.set("B", b("from-right"));
    right.set("SHARED", b("right-wins"));
    right.path = Some(b("/right"));
    right.path_add = vec![b("/right/bin")];

    let merged = left.merge_right_biased(&right);
    assert_eq!(entry(&merged, "A").value, b("from-left"));
    assert_eq!(entry(&merged, "B").value, b("from-right"));
    assert_eq!(entry(&merged, "SHARED").value, b("right-wins"));
    assert_eq!(merged.path, Some(b("/right")));
    assert_eq!(merged.path_add, vec![b("/left/bin"), b("/right/bin")]);
}

#[test]
fn env_vars_merge_with_nothing_changes_nothing() {
    let mut env = EnvVars::default();
    env.set("A", b("1"));
    env.path = Some(b("/p"));
    for merged in [
        env.merge_right_biased(&EnvVars::default()),
        EnvVars::default().merge_right_biased(&env),
    ] {
        assert_eq!(merged.len(), 1);
        assert_eq!(entry(&merged, "A").value, b("1"));
        assert_eq!(merged.path, Some(b("/p")));
    }
}

// ===== Paths =====

fn decls(path: Option<Vec<u8>>, path_add: Vec<Vec<u8>>) -> EnvVarDecls {
    EnvVarDecls { env: Vec::new(), path, path_add }
}

#[test]
fn normalize_config_paths_expands_path_segments() {
    let mut d = decls(Some(b("~/.cargo/bin:/usr/local/bin:~/bin")), Vec::new());
    d.normalize_config_paths(b"/home/test").expect("normalizes");
    assert_eq!(d.path, Some(b("/home/test/.cargo/bin:/usr/local/bin:/home/test/bin")));
}

#[test]
fn normalize_config_paths_expands_path_add_entries() {
    let mut d = decls(None, vec![b("~/.opencode/bin"), b("/opt/bin")]);
    d.normalize_config_paths(b"/home/test").expect("normalizes");
    assert_eq!(d.path_add, vec![b("/home/test/.opencode/bin"), b("/opt/bin")]);
}

#[test]
fn normalize_config_paths_propagates_invalid_path_add_entry() {
    let mut d = decls(None, vec![b("relative/dir")]);
    let err = d
        .normalize_config_paths(b"/home/test")
        .expect_err("relative path_add entry must error");
    assert!(matches!(err, Error::ConfigInvalidPath { .. }));
}

#[test]
fn normalize_config_paths_leaves_env_values_untouched() {
    let mut d = EnvVarDecls {
        env: vec![EnvVarDecl {
            name: Spanned::new(0, 0, "FOO".to_owned()),
            value: Some("~/literal".to_owned()),
        }],
        path: None,
        path_add: Vec::new(),
    };
    d.normalize_config_paths(b"/home/test").expect("normalizes");
    assert_eq!(d.env[0].value.as_deref(), Some("~/literal"));
}

#[test]
fn expand_path_list_preserves_non_utf8_segment() {
    let raw: Vec<u8> = b"/\xff/bin:/usr/bin".to_vec();
    let got = expand_path_list(&raw, b"/home/test").expect("non-UTF-8 segment is allowed");
    assert_eq!(got, raw);
}

#[test]
fn expand_path_list_tilde_against_non_utf8_home_preserves_bytes() {
    let got =
        expand_path_list(b"~/bin:~/.cargo/bin", b"/home/\xff").expect("~/ expansion is fine");
    assert_eq!(got, b"/home/\xff/bin:/home/\xff/.cargo/bin".to_vec());
}

#[test]
fn expand_path_list_rejects_an_empty_entry() {
    assert!(expand_path_list(b"/a::/b", b"/home/test").is_err());
    assert!(expand_path_list(b"", b"/home/test").is_err());
}

#[test]
fn env_var_decls_path_add_with_non_utf8_lands_in_path_byte_for_byte() {
    let raw: Vec<u8> = b"/\xff/bin".to_vec();
    let d = decls(None, vec![raw.clone()]);
    let env = d.resolve(&ResolveContext::empty()).expect("resolves").finalize(&Host::empty());
    let mut expected = raw;
    expected.extend_from_slice(format!(":{CANONICAL_PATH}").as_bytes());
    assert_eq!(entry(&env, "PATH").value, expected);
}
