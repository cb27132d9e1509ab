//! Forwards as the command line alone describes them.

use redoubtful::forward::{parse_port, ForwardList, ForwardOpts, ForwardSource, ForwardSpec};

fn parse(s: &str) -> Result<ForwardSpec, String> {
    ForwardSpec::from_str(s)
}

#[test]
fn forward_spec_accepts_single_port() {
    let spec = parse("8080").expect("parses");
    assert_eq!(spec.host_port, 8080);
    assert_eq!(spec.sandbox_port, 8080);
}

#[test]
fn forward_spec_accepts_host_colon_sandbox() {
    let spec = parse("8080:9090").expect("parses");
    assert_eq!(spec.host_port, 8080);
    assert_eq!(spec.sandbox_port, 9090);
}

#[test]
fn forward_spec_rejects_multiple_colons() {
    let err = parse("127.0.0.1:8080:9090").expect_err("multi-colon should be rejected");
    assert!(err.contains("more than one `:`"), "{err}");
}

#[test]
fn forward_spec_rejects_zero_port() {
    assert!(parse("0").is_err());
    assert!(parse("8080:0").is_err());
    assert_eq!(
        parse("0").unwrap_err(),
        "forward host port \"0\" is invalid: port 0 is not a valid forward target",
    );
}

#[test]
fn forward_spec_rejects_out_of_range() {
    assert!(parse("65536").is_err());
    assert!(parse("notanumber").is_err());
    assert_eq!(
        parse("1:65536").unwrap_err(),
        "forward sandbox port \"65536\" is invalid: not a TCP port number",
    );
}

#[test]
fn parse_port_accepts_what_is_a_port() {
    assert_eq!(parse_port("1"), Ok(1));
    assert_eq!(parse_port("65535"), Ok(65535));
    assert!(parse_port("").is_err());
}

#[test]
fn forward_format_for_pasta_uses_short_form_when_ports_match() {
    let mut list = ForwardList::new();
    list.forward(8080, 8080, ForwardSource::Cli);
    list.forward(5432, 9999, ForwardSource::Cli);
    assert_eq!(list.format_for_pasta(), "8080,5432:9999");
}

#[test]
fn empty_forward_list_formats_to_empty_string() {
    let list = ForwardList::new();
    assert!(list.is_empty());
    assert_eq!(list.format_for_pasta(), "");
}

#[test]
fn forward_opts_apply_appends_in_order() {
    let opts = ForwardOpts { forward: vec![parse("1").unwrap(), parse("2:3").unwrap()] };
    let mut list = ForwardList::new();
    list.forward(9, 9, ForwardSource::Cli);
    opts.apply(&mut list);
    assert_eq!(list.format_for_pasta(), "9,1,2:3");
    assert_eq!(list.iter().count(), 3);
}
