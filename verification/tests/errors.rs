//! How errors read.

use redoubtful::errors::Error;

fn p(s: &str) -> Vec<u8> {
    s.as_bytes().to_vec()
}

#[test]
fn each_error_has_its_message() {
    let cases = vec![
        (Error::exit("c", -7), "`c` exited with code -7"),
        (Error::signal("c", 15), "`c` was terminated by signal 15"),
        (Error::could_not_run("c", "why"), "could not run `c`"),
        (Error::missing_dependency("c"), "`c` not found on $PATH"),
        (
            Error::missing_package("c", "pkg"),
            "`c` not found on $PATH (install the `pkg` package)",
        ),
        (
            Error::could_not_get_version("c"),
            "`c --version` did not return a version string",
        ),
        (Error::could_not_get_cwd("why"), "could not determine current directory"),
        (Error::missing_env_var("HOME"), "environment variable `HOME` is not set"),
        (
            Error::could_not_get_current_exe("why"),
            "could not determine the path of the redoubtful binary",
        ),
        (
            Error::non_utf8_exe_path(b"/\xff".to_vec()),
            "redoubtful binary path is not valid UTF-8: `/\u{FFFD}`; cannot generate AppArmor remediation",
        ),
        (Error::could_not_write_stdout("why"), "could not write to stdout"),
        (
            Error::missing_mount_host(p("/m"), "why"),
            "mount host path `/m` is not accessible",
        ),
        (
            Error::invalid_forward_port("host_port", 0),
            "forward `host_port` value 0 is not a valid TCP port",
        ),
        (
            Error::invalid_env_name("A=B", "it contains `=`"),
            "env variable name `A=B` is invalid: it contains `=`",
        ),
        (
            Error::config_invalid_path(p("x"), "no"),
            "invalid path `x` in config: no",
        ),
        (
            Error::could_not_write_config(p("/c"), "why"),
            "could not write config file `/c`",
        ),
        (Error::could_not_read_config(p("/c"), "why"), "could not read config file `/c`"),
        (
            Error::unknown_profile("x", p("/c")),
            "unknown profile `x` (not defined in `/c`)",
        ),
        (
            Error::repeated_profile("x", p("/c")),
            "profile `x` was already included earlier in the resolution",
        ),
        (Error::could_not_read_secrets(p("/s"), "why"), "could not read secrets file `/s`"),
        (
            Error::could_not_parse_secrets(p("/s"), "why"),
            "could not parse secrets file `/s`",
        ),
        (
            Error::could_not_write_secrets(p("/s"), "why"),
            "could not write secrets file `/s`",
        ),
        (Error::template_render("m"), "template error: m"),
        (Error::ProxyEmptyHost, "proxy host is empty"),
        (Error::proxy_invalid_port("x"), "proxy port `x` is not a valid port number"),
        (
            Error::proxy_invalid_action("x"),
            "proxy action `x` is invalid (expected `allow` or `deny`)",
        ),
        (Error::proxy_invalid_syntax("s", "r"), "proxy `s` is invalid: r"),
        (Error::no_root_certificates(), "no system root certificates found"),
        (Error::could_not_read_file(p("/f"), "why"), "could not read file `/f`"),
        (Error::other("context", "why"), "context"),
    ];
    for (error, text) in cases {
        assert_eq!(error.message(), text);
    }
}

#[test]
fn a_parse_error_keeps_its_place() {
    let text = "[profile.x]\nbad = 1\n".to_owned();
    let err = Error::config_parse(p("/c"), text.clone(), Some((12, 15)), "unknown field `bad`");
    assert_eq!(err.message(), "invalid TOML in `/c`: unknown field `bad`");
    match err {
        Error::ConfigParse(e) => {
            assert_eq!(e.path, p("/c"));
            assert_eq!(e.source_text, text);
            assert_eq!(e.span, Some((12, 3)));
            assert_eq!(e.message, "unknown field `bad`");
        }
        other => panic!("expected ConfigParse, got {other:?}"),
    }
    let err = Error::config_parse(p("/c"), text, None, "m");
    assert!(matches!(err, Error::ConfigParse(e) if e.span.is_none()));
}
