//! Profiles, and the configuration that holds them.

use redoubtful::config::config_file::{resolve_uses, ConfigFile};
use redoubtful::config::env_var::EnvVarDecl;
use redoubtful::config::env_vars::{EnvVarDecls, EnvVars};
use redoubtful::config::forward::ForwardDecl;
use redoubtful::config::forwards::{ForwardDecls, Forwards};
use redoubtful::config::mount::{MountAccess, MountDecl, MountKind};
use redoubtful::config::mounts::{MountDecls, Mounts};
use redoubtful::config::profile::{Profile, ProfileBlock, ProfileDecl};
use redoubtful::config::proxies::{Proxies, ProxyDecls};
use redoubtful::config::proxy::{ProxyAction, ProxyDecl};
use redoubtful::config::resolve_context::ResolveContext;
use redoubtful::config::secret::Template;
use redoubtful::config::spanned::Spanned;
use redoubtful::config::{Decl, Finalize, Merge, NormalizeConfigPaths};
use redoubtful::errors::Error;
use redoubtful::host::{Host, HostVar, Unreadable};
use redoubtful::name_map::NameMap;

fn context(host: Host) -> ResolveContext {
    match ResolveContext::new(host, b"/c/secrets.toml", String::new()) {
        Ok(ctx) => ctx,
        Err(e) => panic!("no secrets are fine: {e:?}"),
    }
}

fn b(s: &str) -> Vec<u8> {
    s.as_bytes().to_vec()
}

fn host() -> Host {
    let mut host = Host::empty();
    host.vars.push(HostVar { name: b("HOME"), value: b("/home/test") });
    host.home = Some(b("/home/test"));
    host.cwd = Some(b("/home/test/project"));
    host
}

fn ctx() -> ResolveContext {
    context(host())
}

fn mount_decl(path: &str) -> MountDecl {
    MountDecl { host: Spanned::new(0, 0, b(path)), sandbox: None, access: None }
}

fn forward_decl(port: u16) -> ForwardDecl {
    ForwardDecl { host_port: Spanned::new(0, 0, port), sandbox_port: None }
}

fn env_decl(name: &str, value: Option<&str>) -> EnvVarDecl {
    EnvVarDecl {
        name: Spanned::new(0, 0, name.to_owned()),
        value: value.map(|v| v.to_owned()),
    }
}

fn resolved_mounts(path: &str, readonly: Option<bool>) -> Mounts {
    MountDecls { mounts: vec![mount_decl(path)], readonly }
        .resolve(&ctx())
        .ok()
        .expect("resolves")
}

fn resolved_forwards(port: u16) -> Forwards {
    ForwardDecls { forwards: vec![forward_decl(port)] }.resolve(&ctx()).ok().expect("resolves")
}

fn value(env: &EnvVars, name: &str) -> Option<String> {
    env.iter()
        .into_iter()
        .find(|e| e.name == name)
        .map(|e| String::from_utf8(e.value).expect("UTF-8"))
}

fn resolve(decl: &ProfileDecl, ctx: &ResolveContext) -> Profile {
    match decl.resolve(ctx) {
        Ok(p) => p,
        Err(e) => panic!("resolves: {e:?}"),
    }
}

/// A configuration from the names of its profiles and what each uses.
fn cfg(profiles: &[(&str, &[&str])]) -> ConfigFile {
    let mut config = ConfigFile::default();
    for (name, uses) in profiles {
        let decl = ProfileDecl {
            uses: uses.iter().map(|u| (*u).to_owned()).collect(),
            ..ProfileDecl::default()
        };
        config.profile_decls.set((*name).to_owned(), decl);
    }
    config
}

fn names(list: &[&str]) -> Vec<String> {
    list.iter().map(|s| (*s).to_owned()).collect()
}

fn resolved_names(config: &ConfigFile, requested: &[&str]) -> Vec<String> {
    match resolve_uses(config, &names(requested), b"test.toml") {
        Ok(order) => order.into_iter().map(|(n, _)| n).collect(),
        Err(e) => panic!("resolves: {e:?}"),
    }
}

fn resolution_error(config: &ConfigFile, requested: &[&str]) -> Error {
    match resolve_uses(config, &names(requested), b"test.toml") {
        Ok(_) => panic!("{requested:?} must be refused"),
        Err(e) => e,
    }
}

// ===== Which profiles, in which order =====

#[test]
fn resolve_single_profile_with_no_uses() {
    let c = cfg(&[("rust", &[])]);
    assert_eq!(resolved_names(&c, &["rust"]), vec!["rust"]);
}

#[test]
fn resolve_walks_uses_depth_first_deps_before_self() {
    let c = cfg(&[("full", &["a", "b"]), ("a", &["c"]), ("b", &[]), ("c", &[])]);
    assert_eq!(resolved_names(&c, &["full"]), vec!["c", "a", "b", "full"]);
}

#[test]
fn resolve_goes_from_left_to_right() {
    let c = cfg(&[("z", &["d", "a"]), ("a", &[]), ("d", &[]), ("m", &[]), ("b", &["c"]), ("c", &[])]);
    assert_eq!(resolved_names(&c, &["z", "m", "b"]), vec!["d", "a", "z", "m", "c", "b"]);
}

#[test]
fn resolve_unknown_profile_errors() {
    let c = cfg(&[("x", &[])]);
    let err = resolution_error(&c, &["does-not-exist"]);
    assert!(matches!(err, Error::UnknownProfile { .. }));
    assert!(err.message().contains("does-not-exist"));
}

#[test]
fn resolve_unknown_uses_dep_errors() {
    let c = cfg(&[("bad", &["nope"])]);
    assert!(matches!(resolution_error(&c, &["bad"]), Error::UnknownProfile { .. }));
}

#[test]
fn resolve_repeated_via_cli_errors() {
    let c = cfg(&[("x", &[])]);
    assert!(matches!(resolution_error(&c, &["x", "x"]), Error::RepeatedProfile { .. }));
}

#[test]
fn resolve_repeated_via_diamond_errors() {
    let c = cfg(&[("a", &["c"]), ("b", &["c"]), ("c", &[])]);
    assert!(matches!(resolution_error(&c, &["a", "b"]), Error::RepeatedProfile { .. }));
}

#[test]
fn resolve_self_cycle_is_repeated_error() {
    let c = cfg(&[("a", &["a"])]);
    assert!(matches!(resolution_error(&c, &["a"]), Error::RepeatedProfile { .. }));
    let c = cfg(&[("a", &["b"]), ("b", &["a"])]);
    assert!(matches!(resolution_error(&c, &["a"]), Error::RepeatedProfile { .. }));
}

#[test]
fn resolve_empty_request_is_empty_order() {
    let c = cfg(&[("x", &[])]);
    assert!(resolved_names(&c, &[]).is_empty());
}

#[test]
fn resolve_names_the_first_culprit() {
    let c = cfg(&[("a", &["nope"]), ("b", &["a"])]);
    match resolution_error(&c, &["b", "b"]) {
        Error::UnknownProfile { name, .. } => assert_eq!(name, "nope"),
        other => panic!("expected UnknownProfile, got {other:?}"),
    }
}

// ===== A profile as a whole =====

#[test]
fn profile_decl_resolve_yields_profile_with_each_subdomain() {
    let decl = ProfileDecl {
        uses: Vec::new(),
        mount_decls: MountDecls {
            mounts: vec![mount_decl("/etc/gitconfig")],
            readonly: Some(true),
        },
        forward_decls: ForwardDecls { forwards: vec![forward_decl(8080)] },
        env_decls: EnvVarDecls {
            env: vec![env_decl("FOO", Some("bar"))],
            path: Some(b("/only/this")),
            path_add: vec![b("/extra")],
        },
        proxy_decls: ProxyDecls::default(),
    };
    let resolved = resolve(&decl, &ctx());
    assert_eq!(resolved.mounts.iter().count(), 1);
    assert_eq!(resolved.mounts.iter().next().unwrap().sandbox, b("/etc/gitconfig"));
    assert_eq!(resolved.forwards.iter().count(), 1);
    assert_eq!(resolved.env.iter().len(), 1);
    assert_eq!(resolved.env.iter()[0].name, "FOO");
}

#[test]
fn profile_finalize_merge_right_biased_delegates_to_each_subdomain() {
    let mut left_env = EnvVars::default();
    left_env.set("SHARED", b("left-wins-when-alone"));
    left_env.set("ONLY_LEFT", b("L"));
    let left = Profile {
        mounts: resolved_mounts("/left", Some(true)),
        forwards: resolved_forwards(8080),
        env: left_env,
        proxies: Proxies::default(),
    };
    let mut right_env = EnvVars::default();
    right_env.set("SHARED", b("right-wins"));
    right_env.set("ONLY_RIGHT", b("R"));
    let right = Profile {
        mounts: resolved_mounts("/right", Some(false)),
        forwards: resolved_forwards(9090),
        env: right_env,
        proxies: Proxies::default(),
    };

    let merged = left.merge_right_biased(&right);

    let sandboxes: Vec<Vec<u8>> = merged.mounts.iter().map(|m| m.sandbox.clone()).collect();
    assert_eq!(sandboxes, vec![b("/left"), b("/right")]);
    assert_eq!(merged.forwards.format_for_pasta(), "8080,9090");
    assert_eq!(value(&merged.env, "SHARED").as_deref(), Some("right-wins"));
    assert!(value(&merged.env, "ONLY_LEFT").is_some());
    assert!(value(&merged.env, "ONLY_RIGHT").is_some());
}

#[test]
fn profile_finalize_base_config_includes_subdomain_baselines() {
    let base = Profile::default().base_config(&host());
    assert!(base.mounts.iter().any(|m| m.sandbox == b"/usr"));
    assert!(base.mounts.iter().any(|m| matches!(m.kind, MountKind::Proc)));
    assert!(base.forwards.is_empty());
    let path = value(&base.env, "PATH").expect("PATH present in env baseline");
    assert!(path.contains("/usr/bin"), "{path}");
}

#[test]
fn profile_finalize_clear_extra_fields_clears_each_subdomain() {
    let mounts = MountDecls { mounts: Vec::new(), readonly: Some(true) }
        .resolve(&ctx())
        .ok()
        .expect("resolves");
    let env = EnvVarDecls {
        env: Vec::new(),
        path: Some(b("/only/this")),
        path_add: vec![b("/extra")],
    }
    .resolve(&ctx())
    .ok()
    .expect("resolves");
    let mut profile =
        Profile { mounts, forwards: Forwards::default(), env, proxies: Proxies::default() };

    profile.clear_extra_fields();

    let mounts_done = profile.mounts.finalize(&host());
    let cwd_entry = mounts_done
        .iter()
        .find(|m| m.sandbox == b"/home/test/project")
        .expect("the working directory");
    assert!(matches!(cwd_entry.kind, MountKind::Mount { access: MountAccess::Rw, .. }));
    let env_done = profile.env.finalize(&host());
    let path = value(&env_done, "PATH").expect("PATH present");
    assert!(!path.contains("/extra"), "{path}");
    assert!(!path.contains("/only/this"), "{path}");
}

#[test]
fn profile_decl_resolve_then_finalize_layers_baseline_under_user() {
    let decl = ProfileDecl {
        mount_decls: MountDecls { mounts: vec![mount_decl("/etc/gitconfig")], readonly: None },
        env_decls: EnvVarDecls {
            env: vec![env_decl("MY_VAR", Some("hello"))],
            path: None,
            path_add: Vec::new(),
        },
        ..ProfileDecl::default()
    };
    let done = resolve(&decl, &ctx()).finalize(&host());
    let usr_idx = done
        .mounts
        .iter()
        .position(|m| m.sandbox == b"/usr")
        .expect("/usr from baseline");
    let user_idx = done
        .mounts
        .iter()
        .position(|m| m.sandbox == b"/etc/gitconfig")
        .expect("user mount survives finalize");
    assert!(usr_idx < user_idx);
    assert!(value(&done.env, "PATH").is_some());
    assert_eq!(value(&done.env, "MY_VAR").as_deref(), Some("hello"));
}

#[test]
fn a_block_is_repacked_field_by_field() {
    let block = ProfileBlock {
        uses: names(&["a", "b"]),
        mounts: vec![mount_decl("/m")],
        readonly: Some(true),
        forwards: vec![forward_decl(1)],
        env: vec![env_decl("E", None)],
        path: Some("/p".to_owned()),
        path_add: names(&["/q", "/r"]),
        public_web: Some(ProxyAction::Deny),
        proxies: vec![ProxyDecl::from_str("h").expect("parses")],
    };
    let decl = ProfileDecl::from_block(block);
    assert_eq!(decl.uses, names(&["a", "b"]));
    assert_eq!(decl.mount_hosts(), vec![b("/m")]);
    assert_eq!(decl.mount_decls.readonly, Some(true));
    assert_eq!(*decl.forward_decls.forwards[0].host_port.get_ref(), 1);
    assert_eq!(decl.env_decls.env[0].name.get_ref(), "E");
    assert_eq!(decl.env_decls.path, Some(b("/p")));
    assert_eq!(decl.env_decls.path_add, vec![b("/q"), b("/r")]);
    assert_eq!(decl.proxy_decls.public_web, Some(ProxyAction::Deny));
    assert_eq!(decl.proxy_decls.proxies[0].host, "h");
}

#[test]
fn path_add_round_trips() {
    let decl = ProfileDecl::from_block(ProfileBlock {
        uses: vec![],
        mounts: vec![],
        readonly: None,
        forwards: vec![],
        env: vec![],
        path: None,
        path_add: names(&["/opt/cargo/bin"]),
        public_web: None,
        proxies: vec![],
    });
    assert_eq!(decl.env_decls.path_add, vec![b("/opt/cargo/bin")]);
}

#[test]
fn normalizing_a_profile_reaches_mounts_and_path() {
    let mut decl = ProfileDecl {
        mount_decls: MountDecls { mounts: vec![mount_decl("~/.gitconfig")], readonly: None },
        env_decls: EnvVarDecls {
            env: vec![],
            path: None,
            path_add: vec![b("~/.cargo/bin")],
        },
        ..ProfileDecl::default()
    };
    decl.normalize_config_paths(b"/home/test").expect("normalizes");
    assert_eq!(decl.mount_hosts(), vec![b("/home/test/.gitconfig")]);
    assert_eq!(decl.env_decls.path_add, vec![b("/home/test/.cargo/bin")]);
}

// ===== Finalizing a configuration =====

fn with_env(uses: &[&str], name: &str, value: &str) -> ProfileDecl {
    ProfileDecl {
        uses: names(uses),
        env_decls: EnvVarDecls {
            env: vec![env_decl(name, Some(value))],
            path: None,
            path_add: vec![],
        },
        ..ProfileDecl::default()
    }
}

fn one(name: &str, decl: ProfileDecl) -> ConfigFile {
    let mut profile_decls = NameMap::new();
    profile_decls.set(name.to_owned(), decl);
    ConfigFile { profile_decls }
}

fn finalize(config: ConfigFile, cli: &ProfileDecl, ctx: &ResolveContext) -> Profile {
    match config.finalize_config_with_cli(cli, b"/c/config.toml", ctx) {
        Ok(p) => p,
        Err(e) => panic!("finalizes: {e:?}"),
    }
}

fn refusal(config: ConfigFile, cli: &ProfileDecl, ctx: &ResolveContext) -> Error {
    match config.finalize_config_with_cli(cli, b"/c/config.toml", ctx) {
        Ok(_) => panic!("must be refused"),
        Err(e) => e,
    }
}

fn using(uses: &[&str]) -> ProfileDecl {
    ProfileDecl { uses: names(uses), ..ProfileDecl::default() }
}

#[test]
fn run_profile_unknown_errors_with_path() {
    let err = refusal(cfg(&[("x", &[])]), &using(&["does-not-exist"]), &ctx());
    let text = err.message();
    assert!(text.contains("unknown profile") && text.contains("does-not-exist"), "{text}");
    match err {
        Error::UnknownProfile { config_path, .. } => assert_eq!(config_path, b("/c/config.toml")),
        other => panic!("expected UnknownProfile, got {other:?}"),
    }
}

#[test]
fn run_profile_repeated_errors() {
    let text = refusal(cfg(&[("x", &[])]), &using(&["x", "x"]), &ctx()).message();
    assert!(text.contains("already included") && text.contains("`x`"), "{text}");
}

#[test]
fn run_profile_diamond_via_uses_errors() {
    let config = cfg(&[("a", &["c"]), ("b", &["c"]), ("c", &[])]);
    let text = refusal(config, &using(&["a", "b"]), &ctx()).message();
    assert!(text.contains("already included") && text.contains("`c`"), "{text}");
}

#[test]
fn show_profile_emits_profile_mounts() {
    let mut decl = mount_decl("/host/marker");
    decl.sandbox = Some(Spanned::new(0, 0, b("/work/marker")));
    let config = one(
        "opencode",
        ProfileDecl {
            mount_decls: MountDecls { mounts: vec![decl], readonly: None },
            ..ProfileDecl::default()
        },
    );
    let done = finalize(config, &using(&["opencode"]), &ctx());
    assert!(done.mounts.iter().any(|m| m.sandbox == b"/work/marker"));
}

#[test]
fn run_profile_path_add_prepends_to_path() {
    let config = one(
        "bin",
        ProfileDecl {
            env_decls: EnvVarDecls {
                env: vec![],
                path: None,
                path_add: vec![b("/opt/profile/bin")],
            },
            ..ProfileDecl::default()
        },
    );
    let done = finalize(config, &using(&["bin"]), &ctx());
    assert_eq!(
        value(&done.env, "PATH").as_deref(),
        Some("/opt/profile/bin:/usr/local/sbin:/usr/local/bin:/usr/sbin:/usr/bin:/sbin:/bin"),
    );
}

#[test]
fn run_profile_env_passthrough_resolves_against_host() {
    let config = one(
        "passthru",
        ProfileDecl {
            env_decls: EnvVarDecls {
                env: vec![env_decl("MY_VAR", None)],
                path: None,
                path_add: vec![],
            },
            ..ProfileDecl::default()
        },
    );
    let mut host = host();
    host.vars.push(HostVar { name: b("MY_VAR"), value: b("yes-from-host") });
    let ctx = context(host);
    let done = finalize(config, &using(&["passthru"]), &ctx);
    assert_eq!(value(&done.env, "MY_VAR").as_deref(), Some("yes-from-host"));
}

#[test]
fn run_profile_env_literal_lands_in_sandbox() {
    let config = one("lit", with_env(&[], "FOO", "bar-from-profile"));
    let done = finalize(config, &using(&["lit"]), &ctx());
    assert_eq!(value(&done.env, "FOO").as_deref(), Some("bar-from-profile"));
}

#[test]
fn run_cli_env_overrides_profile_env() {
    let config = one("lit", with_env(&[], "FOO", "from-profile"));
    let done = finalize(config, &with_env(&["lit"], "FOO", "from-cli"), &ctx());
    assert_eq!(value(&done.env, "FOO").as_deref(), Some("from-cli"));
}

#[test]
fn run_profile_bad_path_errors_with_friendly_message() {
    let config = one(
        "bad",
        ProfileDecl {
            env_decls: EnvVarDecls {
                env: vec![],
                path: None,
                path_add: vec![b("relative/dir")],
            },
            ..ProfileDecl::default()
        },
    );
    let text = refusal(config, &using(&["bad"]), &ctx()).message();
    assert!(text.contains("relative paths are not supported"), "{text}");
}

#[test]
fn a_later_profile_lies_over_an_earlier_one() {
    let mut config = one("a", with_env(&[], "X", "1"));
    config.profile_decls.set("b".to_owned(), with_env(&["a"], "X", "2"));
    let done = finalize(config, &using(&["b"]), &ctx());
    assert_eq!(value(&done.env, "X").as_deref(), Some("2"));
}

#[test]
fn the_command_line_is_not_expanded() {
    let cli = ProfileDecl {
        env_decls: EnvVarDecls { env: vec![], path: None, path_add: vec![b("~/bin")] },
        ..ProfileDecl::default()
    };
    let layers = ConfigFile::default()
        .layers(&cli, b"/home/test", b"/c/config.toml")
        .ok()
        .expect("layers");
    assert_eq!(layers.len(), 1);
    assert_eq!(layers[0].env_decls.path_add, vec![b("~/bin")]);
}

#[test]
fn nothing_asked_for_gives_the_baseline() {
    let config = one("unused", with_env(&[], "X", "1"));
    let done = finalize(config, &ProfileDecl::default(), &ctx());
    let base = Profile::default().finalize(&host());
    assert_eq!(done.env.iter().len(), base.env.iter().len());
    assert!(value(&done.env, "X").is_none());
    assert_eq!(done.proxies.public_web, Some(ProxyAction::Allow));
}

#[test]
fn finalizing_needs_a_home() {
    let nowhere = context(Host::empty());
    assert!(matches!(
        refusal(ConfigFile::default(), &ProfileDecl::default(), &nowhere),
        Error::MissingEnvVar { .. },
    ));
}

fn with_unknown_secret() -> ProfileDecl {
    let mut proxy = ProxyDecl::from_str("h").expect("parses");
    proxy.headers.set("X".to_owned(), Template("{{secrets.none}}".to_owned()));
    ProfileDecl {
        proxy_decls: ProxyDecls { public_web: None, proxies: vec![proxy] },
        ..ProfileDecl::default()
    }
}

#[test]
fn validation_comes_before_resolution() {
    let err = refusal(one("a", with_unknown_secret()), &using(&["a"]), &ctx());
    assert!(matches!(err, Error::TemplateRender { .. }));

    // A later profile's mount that cannot be read is the first complaint.
    let mut config = one("a", with_unknown_secret());
    config.profile_decls.set(
        "b".to_owned(),
        ProfileDecl {
            mount_decls: MountDecls { mounts: vec![mount_decl("/gone")], readonly: None },
            ..ProfileDecl::default()
        },
    );
    let mut host = host();
    host.unreadable = vec![Unreadable { path: b("/gone"), reason: "not there".to_owned() }];
    let ctx = context(host);
    let err = refusal(config, &using(&["a", "b"]), &ctx);
    assert!(matches!(err, Error::MissingMountHost { .. }));
}
