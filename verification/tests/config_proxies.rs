//! Destinations of the proxy.

use redoubtful::config::proxies::{Proxies, ProxyDecls};
use redoubtful::config::proxy::{Proxy, ProxyAction, ProxyAuth, ProxyAuthDecl, ProxyDecl};
use redoubtful::config::resolve_context::{ResolveContext, RECURSIVE_TEMPLATE};
use redoubtful::config::secret::{Secret, Template};
use redoubtful::config::template::could_recurse;
use redoubtful::config::{Decl, Finalize, Merge};
use redoubtful::errors::Error;
use redoubtful::host::Host;
use redoubtful::name_map::NameMap;

fn parse(s: &str) -> Result<ProxyDecl, Error> {
    ProxyDecl::from_str(s)
}

fn templates(pairs: &[(&str, &str)]) -> NameMap<Template> {
    let mut map = NameMap::new();
    for (name, text) in pairs {
        map.set((*name).to_owned(), Template((*text).to_owned()));
    }
    map
}

fn decl(host: &str) -> ProxyDecl {
    ProxyDecl {
        host: host.to_owned(),
        port: 443,
        action: ProxyAction::Allow,
        headers: NameMap::new(),
        params: NameMap::new(),
        auth: None,
    }
}

fn proxy(host: &str, port: u16, action: ProxyAction) -> Proxy {
    Proxy {
        host: host.to_owned(),
        port,
        action,
        headers: NameMap::new(),
        params: NameMap::new(),
        auth: None,
    }
}

fn secrets(source: &str) -> ResolveContext {
    match ResolveContext::new(Host::empty(), b"/c/secrets.toml", source.to_owned()) {
        Ok(ctx) => ctx,
        Err(e) => panic!("reads: {e:?}"),
    }
}

fn template_error(decl: &ProxyDecl, ctx: &ResolveContext) -> String {
    match decl.resolve(ctx) {
        Err(Error::TemplateRender { message }) => message,
        Err(other) => panic!("expected TemplateRender, got {other:?}"),
        Ok(_) => panic!("expected TemplateRender"),
    }
}

// ===== The compact form =====

#[test]
fn proxy_decl_fromstr_host_only() {
    let decl = parse("example.net").expect("parses");
    assert_eq!(decl.host, "example.net");
    assert_eq!(decl.port, 443);
    assert_eq!(decl.action, ProxyAction::Allow);
    assert!(decl.headers.is_empty());
    assert!(decl.params.is_empty());
    assert!(decl.auth.is_none());
}

#[test]
fn proxy_decl_fromstr_host_port() {
    let decl = parse("example.net:80").expect("parses");
    assert_eq!(decl.host, "example.net");
    assert_eq!(decl.port, 80);
    assert_eq!(decl.action, ProxyAction::Allow);
}

#[test]
fn proxy_decl_fromstr_host_action() {
    let decl = parse("example.net=deny").expect("parses");
    assert_eq!(decl.host, "example.net");
    assert_eq!(decl.port, 443);
    assert_eq!(decl.action, ProxyAction::Deny);
}

#[test]
fn proxy_decl_fromstr_full() {
    let decl = parse("example.net:80=deny").expect("parses");
    assert_eq!(decl.host, "example.net");
    assert_eq!(decl.port, 80);
    assert_eq!(decl.action, ProxyAction::Deny);
}

#[test]
fn proxy_decl_fromstr_action_case_insensitive() {
    assert_eq!(parse("example.net=ALLOW").expect("parses").action, ProxyAction::Allow);
    assert_eq!(parse("example.net=Deny").expect("parses").action, ProxyAction::Deny);
    assert_eq!(parse("example.net=Allow").expect("parses").action, ProxyAction::Allow);
}

#[test]
fn proxy_decl_fromstr_rejects_empty_host() {
    let err = parse(":80").expect_err("empty host must error");
    assert!(matches!(err, Error::ProxyEmptyHost));
}

#[test]
fn proxy_decl_fromstr_rejects_bad_port() {
    let err = parse("example.net:abc").expect_err("bad port must error");
    assert!(matches!(err, Error::ProxyInvalidPort { .. }));
    assert_eq!(err.message(), "proxy port `abc` is not a valid port number");
}

#[test]
fn proxy_decl_fromstr_rejects_bad_action() {
    let err = parse("example.net=wat").expect_err("bad action must error");
    assert!(matches!(err, Error::ProxyInvalidAction { .. }));
    let err = parse("example.net=WAT").expect_err("bad action must error");
    assert_eq!(err.message(), "proxy action `wat` is invalid (expected `allow` or `deny`)");
}

#[test]
fn proxy_decl_fromstr_rejects_multiple_equals() {
    let err = parse("a=b=c").expect_err("multiple = must error");
    assert!(matches!(err, Error::ProxyInvalidSyntax { .. }));
}

#[test]
fn proxy_decl_fromstr_rejects_multiple_colons() {
    let err = parse("a:b:c").expect_err("multiple : must error");
    assert!(matches!(err, Error::ProxyInvalidSyntax { .. }));
}

#[test]
fn proxy_decl_fromstr_complaints_in_order() {
    // Too many `=`, too many `:`, the host, the port, the action.
    assert!(matches!(parse("a:b:c=d=e"), Err(Error::ProxyInvalidSyntax { reason, .. })
        if reason == "multiple `=` separators are not supported"));
    assert!(matches!(parse("::=wat"), Err(Error::ProxyInvalidSyntax { reason, .. })
        if reason == "multiple `:` separators are not supported"));
    assert!(matches!(parse(":x=wat"), Err(Error::ProxyEmptyHost)));
    assert!(matches!(parse("h:x=wat"), Err(Error::ProxyInvalidPort { .. })));
    assert!(matches!(parse("h:1=wat"), Err(Error::ProxyInvalidAction { .. })));
}

#[test]
fn proxy_decl_validate_rejects_empty_host() {
    assert!(decl("example.net").validate(&Host::empty()).is_ok());
    assert!(matches!(decl("").validate(&Host::empty()), Err(Error::ProxyEmptyHost)));
}

// ===== Resolution =====

#[test]
fn proxy_decl_resolve_no_templates() {
    let proxy = match decl("example.net").resolve(&ResolveContext::empty()) {
        Ok(p) => p,
        Err(e) => panic!("resolves: {e:?}"),
    };
    assert_eq!(proxy.host, "example.net");
    assert_eq!(proxy.port, 443);
    assert_eq!(proxy.action, ProxyAction::Allow);
    assert!(proxy.headers.is_empty());
    assert!(proxy.params.is_empty());
    assert!(proxy.auth.is_none());
}

#[test]
fn proxy_decl_resolve_renders_header_templates() {
    let d = ProxyDecl {
        headers: templates(&[("X-Api-Key", "{{secrets.example.api-key}}")]),
        ..decl("example.net")
    };
    template_error(&d, &ResolveContext::empty());
    let ctx = secrets("[example]\napi-key = \"k-123\"\n");
    let p = d.resolve(&ctx).ok().expect("resolves");
    assert_eq!(p.headers.get("X-Api-Key").expect("header").0, "k-123");
}

#[test]
fn proxy_decl_resolve_renders_auth_basic() {
    let d = ProxyDecl {
        auth: Some(ProxyAuthDecl::Basic {
            username: Template("{{secrets.example.username}}".to_owned()),
            password: Template("{{secrets.example.password}}".to_owned()),
        }),
        ..decl("example.net")
    };
    template_error(&d, &ResolveContext::empty());
    let ctx = secrets("[example]\nusername = \"u\"\npassword = \"p\"\n");
    match d.resolve(&ctx).ok().expect("resolves").auth {
        Some(ProxyAuth::Basic { username, password }) => {
            assert_eq!(username.0, "u");
            assert_eq!(password.0, "p");
        }
        _ => panic!("expected Basic"),
    }
}

#[test]
fn proxy_decl_resolve_renders_auth_bearer() {
    let d = ProxyDecl {
        auth: Some(ProxyAuthDecl::Bearer {
            token: Template("{{secrets.example.token}}".to_owned()),
        }),
        ..decl("example.net")
    };
    template_error(&d, &ResolveContext::empty());
    let ctx = secrets("example = { token = \"t\" }\n");
    match d.resolve(&ctx).ok().expect("resolves").auth {
        Some(ProxyAuth::Bearer { token }) => assert_eq!(token.0, "t"),
        _ => panic!("expected Bearer"),
    }
}

#[test]
fn proxy_decl_resolve_missing_secret_errors() {
    let d = ProxyDecl {
        params: templates(&[("api_key", "{{secrets.nonexistent.key}}")]),
        ..decl("example.net")
    };
    template_error(&d, &ResolveContext::empty());
}

#[test]
fn proxy_decl_resolve_normalizes_host_case() {
    let p = decl("Example.Net").resolve(&ResolveContext::empty()).ok().expect("resolves");
    assert_eq!(p.host, "example.net");
}

#[test]
fn proxy_decl_resolve_keeps_text_without_tags() {
    let d = ProxyDecl {
        headers: templates(&[("Accept", "*/* ; a>b"), ("X", "  spaced \\ {x} ")]),
        params: templates(&[("empty", "")]),
        ..decl("h")
    };
    let p = d.resolve(&ResolveContext::empty()).ok().expect("resolves");
    assert_eq!(p.headers.get("Accept").expect("header").0, "*/* ; a>b");
    assert_eq!(p.headers.get("X").expect("header").0, "  spaced \\ {x} ");
    assert_eq!(p.params.get("empty").expect("param").0, "");
}

#[test]
fn proxy_decl_resolve_refuses_partials_that_could_recurse() {
    let looping = "{{#*inline \"a\"}}{{> a}}{{/inline}}{{> a}}";
    let d = ProxyDecl { headers: templates(&[("X", looping)]), ..decl("h") };
    assert_eq!(template_error(&d, &ResolveContext::empty()), RECURSIVE_TEMPLATE);
    // Each of these comes to an end.
    let fine = [
        ("{{#*inline \"a\"}}v{{/inline}}{{> a}}", "v"),
        ("{{#*inline \"p\"}}x{{/inline}}{{> p}}{{#if true}}y{{/if}}", "xy"),
        ("{{#*inline \"a\"}}x{{/inline}}{{#*inline \"b\"}}{{> a}}y{{/inline}}{{> b}}", "xy"),
        ("{{#*inline \"b\"}}{{> a}}y{{/inline}}{{#*inline \"a\"}}x{{/inline}}{{> b}}", "xy"),
        ("{{~#*inline \"a\"}}{{#if true}}x{{/if}}{{/inline}}{{> a}}{{#if true}}{{/if}}", "x"),
        ("{{#*inline \"a\"}}x{{/inline}}{{> a}}\\{{/", "x{{/"),
        ("{{#*inline \"a\"}}\\{{> a}}{{/inline}}{{> a}}", "{{> a}}"),
        ("{{#*inline \"a\"}}x{{!-- {{> a}} --}}{{/inline}}{{> a}}", "x"),
        ("{{#*inline \"a\"}}{{> a}}{{/inline}}never asked for", "never asked for"),
        ("{{#*inline \"a\"}}[{{> @partial-block}}]{{/inline}}{{#> a}}x{{/a}}", "[x]"),
    ];
    for (text, expected) in fine {
        assert!(!could_recurse(text), "{text}");
        let d = ProxyDecl { headers: templates(&[("X", text)]), ..decl("h") };
        let p = d.resolve(&ResolveContext::empty()).ok().expect("resolves");
        assert_eq!(p.headers.get("X").expect("header").0, expected, "{text}");
    }
    // Each of these might not.
    for text in [
        looping,
        "{{#*inline \"a\"}}{{> b}}{{/inline}}{{#*inline \"b\"}}{{> a}}{{/inline}}{{> a}}",
        "{{#*inline \"a\"}}{{> b}}{{/inline}}{{#*inline \"b\"}}{{> b}}{{/inline}}{{> a}}",
        "{{#*inline \"a\"}}{{#if true}}{{> a}}{{/if}}{{/inline}}{{> a}}",
        "{{#*inline \"a\"}}{{#if false}}{{else}}{{> a}}{{/if}}{{/inline}}{{> a}}",
        "{{#*inline \"a\"}}{{> (lookup secrets \"b\")}}{{/inline}}{{> a}}",
        "{{#*inline \"a\"}}{{#> a}}{{/a}}{{/inline}}{{> a}}",
        "{{#*inline \"a\"}}{{#> none}}{{> a}}{{/none}}{{/inline}}{{#if true}}{{> a}}{{/if}}",
        "{{# *inline \"a\"}}{{!-- {{/inline}} --}}{{> a}}{{/inline}}{{> a}}",
        "{{#*inline \"a\"}}\\{{/inline}}{{> a}}{{/inline}}{{> a}}",
    ] {
        assert!(could_recurse(text), "{text}");
    }
    // What is no template is for the engine to refuse.
    assert!(!could_recurse("{{#*inline \"a\"}}{{> a}}"));
    // What looks like one outside a tag is text.
    let text = "{{! a }}* > / #*inline";
    let d = ProxyDecl { headers: templates(&[("X", text)]), ..decl("h") };
    let p = d.resolve(&ResolveContext::empty()).ok().expect("resolves");
    assert_eq!(p.headers.get("X").expect("header").0, "* > / #*inline");
}

#[test]
fn proxy_decl_resolve_reports_the_first_template_that_fails() {
    let d = ProxyDecl {
        headers: templates(&[("b", "{{secrets.second}}"), ("a", "{{secrets.first}}")]),
        ..decl("h")
    };
    assert!(template_error(&d, &ResolveContext::empty()).contains("first"));
    let d = ProxyDecl {
        params: templates(&[("a", "{{secrets.param}}")]),
        auth: Some(ProxyAuthDecl::Bearer { token: Template("{{secrets.token}}".to_owned()) }),
        ..decl("h")
    };
    assert!(template_error(&d, &ResolveContext::empty()).contains("param"));
}

#[test]
fn proxy_decl_assembles_rendered_templates_in_order() {
    let d = ProxyDecl {
        headers: templates(&[("h1", "x"), ("h2", "y")]),
        params: templates(&[("p", "z")]),
        auth: Some(ProxyAuthDecl::Basic {
            username: Template("u".to_owned()),
            password: Template("w".to_owned()),
        }),
        ..decl("Host")
    };
    assert_eq!(d.templates(), vec!["x", "y", "z", "u", "w"]);
    let ok = |s: &str| Ok(s.to_owned());
    let results = vec![ok("1"), ok("2"), ok("3"), ok("4"), ok("5")];
    let p = d.assemble("key".to_owned(), results).ok().expect("assembles");
    assert_eq!(p.host, "key");
    assert_eq!(p.headers.get("h1").expect("h1").0, "1");
    assert_eq!(p.headers.get("h2").expect("h2").0, "2");
    assert_eq!(p.params.get("p").expect("p").0, "3");
    assert!(matches!(p.auth, Some(ProxyAuth::Basic { username, password })
        if username.0 == "4" && password.0 == "5"));
    let results = vec![ok("1"), Err("no".to_owned()), ok("3"), Err("nor".to_owned()), ok("5")];
    assert!(matches!(d.assemble("key".to_owned(), results),
        Err(Error::TemplateRender { message }) if message == "no"));
}

#[test]
fn templates_are_rendered_with_html_escapes() {
    let ctx = secrets("a = \"x&y\"\n");
    assert_eq!(ctx.render_template("[{{secrets.a}}]").expect("renders"), "[x&amp;y]");
    assert_eq!(ctx.render_template("[{{{secrets.a}}}]").expect("renders"), "[x&y]");
}

#[test]
fn numbers_are_rendered_as_they_were_read() {
    for number in ["0.1", "1.7976931348623157e308", "5e-324", "123456789.12345679", "42"] {
        let ctx = secrets(&format!("n = {number}\n"));
        let rendered = ctx.render_template("{{secrets.n}}").expect("renders");
        let expected: f64 = number.parse().expect("a number");
        assert_eq!(rendered.parse::<f64>().expect("a number"), expected);
    }
}

#[test]
fn secrets_have_to_be_toml() {
    match ResolveContext::new(Host::empty(), b"/s.toml", "a = = 1".to_owned()) {
        Err(Error::CouldNotParseSecrets { path, source }) => {
            assert_eq!(path, b"/s.toml".to_vec());
            assert!(source.contains("TOML parse error"), "{source}");
        }
        _ => panic!("expected CouldNotParseSecrets"),
    }
    let given = |checked: Result<(), String>| {
        ResolveContext::with_checked(Host::empty(), b"/s", "x".to_owned(), checked)
    };
    assert!(matches!(given(Ok(())), Ok(ctx) if ctx.secrets == "x"));
    assert!(matches!(given(Err("why".to_owned())),
        Err(Error::CouldNotParseSecrets { source, .. }) if source == "why"));
}

#[test]
fn a_conclusion_keeps_what_was_answered() {
    assert!(matches!(ResolveContext::conclude(Ok("t".to_owned())), Ok(t) if t == "t"));
    assert!(matches!(ResolveContext::conclude(Err("why".to_owned())),
        Err(Error::TemplateRender { message }) if message == "why"));
}

// ===== Redaction =====

#[test]
fn secret_debug_redacts() {
    let s = Secret("my-secret-value".to_owned());
    let debug = s.redacted();
    assert!(!debug.contains("my-secret-value"), "must not leak secret value: {debug}");
    assert!(debug.contains("***"), "should show '***': {debug}");
}

#[test]
fn secret_display_redacts() {
    let s = Secret("my-secret-value".to_owned());
    let display = s.redacted();
    assert!(!display.contains("my-secret-value"), "must not leak secret value: {display}");
    assert_eq!(display, "***");
}

// ===== The inventory =====

#[test]
fn proxy_decls_default_is_empty() {
    let decls = ProxyDecls::default();
    assert!(decls.public_web.is_none());
    assert!(decls.proxies.is_empty());
}

#[test]
fn proxy_decls_resolve_yields_proxies() {
    let decls = ProxyDecls {
        public_web: Some(ProxyAction::Deny),
        proxies: vec![decl("example.net")],
    };
    let proxies = decls.resolve(&ResolveContext::empty()).ok().expect("resolves");
    assert_eq!(proxies.public_web().unwrap(), ProxyAction::Deny);
    assert!(!proxies.is_empty());
    assert_eq!(proxies.iter()[0].host, "example.net");
}

#[test]
fn proxies_base_config_defaults_public_web_allow() {
    let base = Proxies::default().base_config(&Host::empty());
    assert_eq!(base.public_web().unwrap(), ProxyAction::Allow);
    assert!(base.is_empty());
}

#[test]
fn proxies_merge_right_biased_deduplicates_by_host() {
    let mut left = Proxies::default();
    left.proxies.set("example.net".to_owned(), proxy("example.net", 443, ProxyAction::Allow));
    let mut right = Proxies { public_web: Some(ProxyAction::Deny), proxies: NameMap::new() };
    right.proxies.set("example.net".to_owned(), proxy("example.net", 80, ProxyAction::Deny));

    let merged = left.merge_right_biased(&right);
    assert_eq!(merged.public_web().unwrap(), ProxyAction::Deny);
    assert_eq!(merged.proxies.len(), 1);
    let p = merged.proxies.get("example.net").unwrap();
    assert_eq!(p.action, ProxyAction::Deny);
    assert_eq!(p.port, 80);
}

#[test]
fn proxies_merge_right_biased_concatenates_different_hosts() {
    let mut left = Proxies::default();
    left.proxies.set("left.net".to_owned(), proxy("left.net", 443, ProxyAction::Allow));
    let mut right = Proxies::default();
    right.proxies.set("right.net".to_owned(), proxy("right.net", 443, ProxyAction::Allow));
    let merged = left.merge_right_biased(&right);
    assert_eq!(merged.proxies.len(), 2);
    assert!(merged.proxies.get("left.net").is_some());
    assert!(merged.proxies.get("right.net").is_some());
}

#[test]
fn proxies_merge_keeps_an_earlier_rule_where_the_later_has_none() {
    let left = Proxies { public_web: Some(ProxyAction::Deny), proxies: NameMap::new() };
    let merged = left.merge_right_biased(&Proxies::default());
    assert_eq!(merged.public_web, Some(ProxyAction::Deny));
}

#[test]
fn proxies_finalize_always_has_a_rule() {
    let host = Host::empty();
    assert_eq!(Proxies::default().finalize(&host).public_web, Some(ProxyAction::Allow));
    let deny = Proxies { public_web: Some(ProxyAction::Deny), proxies: NameMap::new() };
    assert_eq!(deny.finalize(&host).public_web, Some(ProxyAction::Deny));
}

#[test]
fn proxies_get_existing_host() {
    let mut proxies = Proxies::default();
    proxies.proxies.set("example.net".to_owned(), proxy("example.net", 443, ProxyAction::Allow));
    assert!(proxies.get("example.net").is_some());
}

#[test]
fn proxies_get_missing_host() {
    let proxies = Proxies::default();
    assert!(proxies.get("unknown.net").is_none());
}

#[test]
fn proxies_get_case_sensitive() {
    let mut proxies = Proxies::default();
    proxies.proxies.set("example.net".to_owned(), proxy("example.net", 443, ProxyAction::Allow));
    assert!(proxies.get("Example.Net").is_none());
}

#[test]
fn is_proxy_server_needed_public_web_allow_returns_true() {
    let proxies = Proxies { public_web: Some(ProxyAction::Allow), proxies: NameMap::new() };
    assert!(proxies.is_proxy_server_needed().unwrap());
}

#[test]
fn is_proxy_server_needed_public_web_deny_no_proxies_returns_false() {
    let proxies = Proxies { public_web: Some(ProxyAction::Deny), proxies: NameMap::new() };
    assert!(!proxies.is_proxy_server_needed().unwrap());
}

#[test]
fn is_proxy_server_needed_public_web_deny_with_allowed_proxy_returns_true() {
    let mut proxies = Proxies { public_web: Some(ProxyAction::Deny), proxies: NameMap::new() };
    proxies.proxies.set("allowed.net".to_owned(), proxy("allowed.net", 443, ProxyAction::Allow));
    assert!(proxies.is_proxy_server_needed().unwrap());
}

#[test]
fn is_proxy_server_needed_public_web_deny_all_deny_returns_false() {
    let mut proxies = Proxies { public_web: Some(ProxyAction::Deny), proxies: NameMap::new() };
    proxies.proxies.set("denied.net".to_owned(), proxy("denied.net", 443, ProxyAction::Deny));
    assert!(!proxies.is_proxy_server_needed().unwrap());
}

#[test]
fn routing_summary_shows_no_secrets() {
    let mut p = proxy("b.net", 80, ProxyAction::Deny);
    p.headers.set("X".to_owned(), Secret("hidden".to_owned()));
    let proxies = Proxies::with_entries(
        Some(ProxyAction::Allow),
        vec![p, proxy("a.net", 443, ProxyAction::Allow)],
    );
    let (rule, routes) = proxies.routing_summary();
    assert_eq!(rule, Some(ProxyAction::Allow));
    assert_eq!(
        routes,
        vec![
            ("a.net".to_owned(), 443, ProxyAction::Allow),
            ("b.net".to_owned(), 80, ProxyAction::Deny),
        ],
    );
}

// ===== Routing =====

#[test]
fn should_allow_explicit_allow() {
    let proxies = Proxies::with_entries(
        Some(ProxyAction::Deny),
        vec![proxy("example.net", 443, ProxyAction::Allow)],
    );
    assert!(proxies.should_allow("example.net"));
}

#[test]
fn should_deny_explicit_deny() {
    let proxies = Proxies::with_entries(
        Some(ProxyAction::Allow),
        vec![proxy("example.net", 443, ProxyAction::Deny)],
    );
    assert!(!proxies.should_allow("example.net"));
}

#[test]
fn should_allow_unknown_when_public_allow() {
    let proxies = Proxies::with_entries(Some(ProxyAction::Allow), vec![]);
    assert!(proxies.should_allow("unknown.net"));
}

#[test]
fn should_deny_unknown_when_public_deny() {
    let proxies = Proxies::with_entries(Some(ProxyAction::Deny), vec![]);
    assert!(!proxies.should_allow("unknown.net"));
}

#[test]
fn should_deny_when_public_web_none() {
    let proxies = Proxies::with_entries(None, vec![]);
    assert!(!proxies.should_allow("anything.net"));
}
