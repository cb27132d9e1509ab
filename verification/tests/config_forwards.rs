//! Forwards of profiles.

use redoubtful::config::forward::ForwardDecl;
use redoubtful::config::forwards::{ForwardDecls, Forwards};
use redoubtful::config::resolve_context::ResolveContext;
use redoubtful::config::spanned::Spanned;
use redoubtful::config::{Decl, Finalize, Merge};
use redoubtful::errors::Error;
use redoubtful::host::Host;

fn parse(s: &str) -> Result<ForwardDecl, String> {
    ForwardDecl::from_str(s)
}

#[test]
fn forward_decl_accepts_single_port() {
    let spec = parse("8080").expect("parses");
    assert_eq!(*spec.host_port.get_ref(), 8080);
    assert!(spec.sandbox_port.is_none());
    assert_eq!(spec.sandbox_port(), 8080);
}

#[test]
fn forward_decl_accepts_host_colon_sandbox() {
    let spec = parse("8080:9090").expect("parses");
    assert_eq!(*spec.host_port.get_ref(), 8080);
    assert_eq!(spec.sandbox_port(), 9090);
}

#[test]
fn forward_decl_rejects_multiple_colons() {
    let err = parse("127.0.0.1:8080:9090").expect_err("multi-colon should be rejected");
    assert!(err.contains("more than one `:`"), "{err}");
}

#[test]
fn forward_decl_validate_rejects_zero_port() {
    let host = Host::empty();
    match parse("0").expect("parses port 0 syntactically").validate(&host) {
        Err(Error::InvalidForwardPort { field, value }) => {
            assert_eq!(field, "host_port");
            assert_eq!(value, 0);
        }
        other => panic!("expected InvalidForwardPort, got {other:?}"),
    }
    match parse("8080:0").expect("parses sandbox 0 syntactically").validate(&host) {
        Err(Error::InvalidForwardPort { field, .. }) => assert_eq!(field, "sandbox_port"),
        other => panic!("expected InvalidForwardPort, got {other:?}"),
    }
    assert!(parse("8080").unwrap().validate(&host).is_ok());
    assert!(parse("8080:9090").unwrap().validate(&host).is_ok());
}

#[test]
fn forward_decl_rejects_out_of_range() {
    assert!(parse("65536").is_err());
    assert!(parse("notanumber").is_err());
}

#[test]
fn forward_decl_reads_ports_like_numbers() {
    assert_eq!(parse("+80").unwrap().sandbox_port(), 80);
    assert_eq!(parse("00080").unwrap().sandbox_port(), 80);
    assert_eq!(parse("65535").unwrap().sandbox_port(), 65535);
    assert!(parse("").is_err());
    assert!(parse("+").is_err());
    assert!(parse("-1").is_err());
    assert!(parse(" 80").is_err());
    assert!(parse("80:").is_err());
    assert_eq!(
        parse("x:1").unwrap_err(),
        "forward host port \"x\" is not a valid TCP port number",
    );
    assert_eq!(
        parse("1:x").unwrap_err(),
        "forward sandbox port \"x\" is not a valid TCP port number",
    );
}

#[test]
fn forward_decl_resolve_yields_forward() {
    let ctx = ResolveContext::empty();
    let single = parse("8080").unwrap().resolve(&ctx).expect("resolves");
    assert_eq!(single.host_port, 8080);
    assert_eq!(single.sandbox_port, 8080);
    let remap = parse("8080:9090").unwrap().resolve(&ctx).expect("resolves");
    assert_eq!(remap.host_port, 8080);
    assert_eq!(remap.sandbox_port, 9090);
}

#[test]
fn forward_text_parses_back() {
    let ctx = ResolveContext::empty();
    for spec in ["8080", "5432:9999", "1:65535"] {
        let forward = parse(spec).unwrap().resolve(&ctx).unwrap();
        assert_eq!(forward.text(), spec);
    }
}

#[test]
fn forwards_format_for_pasta_uses_short_form_when_ports_match() {
    let mut list = Forwards::default();
    list.forward(8080, 8080);
    list.forward(5432, 9999);
    assert_eq!(list.format_for_pasta(), "8080,5432:9999");
}

#[test]
fn forwards_empty_formats_to_empty_string() {
    let list = Forwards::default();
    assert!(list.is_empty());
    assert_eq!(list.format_for_pasta(), "");
}

#[test]
fn forwards_merge_right_biased_concatenates() {
    let mut left = Forwards::default();
    left.forward(8080, 8080);
    let mut right = Forwards::default();
    right.forward(5432, 9999);
    let merged = left.merge_right_biased(&right);
    assert_eq!(merged.format_for_pasta(), "8080,5432:9999");
    assert_eq!(merged.iter().count(), 2);
}

#[test]
fn base_config_returns_empty() {
    let mut populated = Forwards::default();
    populated.forward(8080, 8080);
    assert!(populated.base_config(&Host::empty()).is_empty());
}

#[test]
fn forward_decls_resolve_then_finalize_emits_user_forwards() {
    let decls = ForwardDecls {
        forwards: vec![
            ForwardDecl { host_port: Spanned::new(0, 0, 8080), sandbox_port: None },
            ForwardDecl {
                host_port: Spanned::new(0, 0, 5432),
                sandbox_port: Some(Spanned::new(0, 0, 9999)),
            },
        ],
    };
    let forwards =
        decls.resolve(&ResolveContext::empty()).expect("resolves").finalize(&Host::empty());
    assert_eq!(forwards.format_for_pasta(), "8080,5432:9999");
}
