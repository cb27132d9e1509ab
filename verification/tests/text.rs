//! Text, paths and the host.

use redoubtful::dirs::{config_path, home_dir};
use redoubtful::errors::Error;
use redoubtful::host::{Host, HostVar};
use redoubtful::name_map::NameMap;
use redoubtful::paths::{join_path, path_beneath};
use redoubtful::text::{
    contains_char, decimal_text, first_nonblank_line, join_bytes, lines_str, parse_u16,
    replace_str, signed_text, split_bytes, split_once_str, split_str, starts_with_str, trim_str,
};

fn b(s: &str) -> Vec<u8> {
    s.as_bytes().to_vec()
}

#[test]
fn splitting_agrees_with_std() {
    for s in ["", ":", "a:b", "a::b:", ":é:", "no"] {
        let expected: Vec<String> = s.split(':').map(|p| p.to_owned()).collect();
        assert_eq!(split_str(s, ':'), expected, "{s:?}");
        let once = s.split_once(':').map(|(x, y)| (x.to_owned(), y.to_owned()));
        assert_eq!(split_once_str(s, ':'), once, "{s:?}");
        assert_eq!(contains_char(s, ':'), s.contains(':'), "{s:?}");
    }
    assert_eq!(split_bytes(b"a:\xff:", b':'), vec![b("a"), b"\xff".to_vec(), b("")]);
    assert_eq!(join_bytes(&vec![b("a"), b("b")], b", "), b("a, b"));
    assert_eq!(join_bytes(&vec![], b":"), b(""));
}

#[test]
fn lines_agree_with_std() {
    for s in ["", "\n", "a", "a\n", "a\r\nb", "a\n\nb\n", "\r\n\r", "a\rb"] {
        let expected: Vec<String> = s.lines().map(|l| l.to_owned()).collect();
        assert_eq!(lines_str(s), expected, "{s:?}");
    }
    assert_eq!(first_nonblank_line("\n \t\n x y \nz").as_deref(), Some("x y"));
    assert_eq!(first_nonblank_line(" \n"), None);
}

#[test]
fn trimming_agrees_with_std() {
    for s in ["", " ", " a ", "\t\r\na b\u{a0}", "\u{2003}x\u{3000}", "\u{85}\u{200b}x"] {
        assert_eq!(trim_str(s), s.trim(), "{s:?}");
    }
}

#[test]
fn replacing_agrees_with_std() {
    for (s, pat, by) in
        [("aaa", "aa", "b"), ("", "x", "y"), ("x{P}y{P}", "{P}", "{P}{P}"), ("abc", "c", "")]
    {
        assert_eq!(replace_str(s, pat, by), s.replace(pat, by), "{s:?}");
    }
    assert!(starts_with_str("~/x", "~/"));
    assert!(!starts_with_str("~", "~/"));
}

#[test]
fn numbers_agree_with_std() {
    for n in [0u64, 7, 10, 65535, u64::MAX] {
        assert_eq!(decimal_text(n), n.to_string());
    }
    for n in [0i32, -1, 42, i32::MIN, i32::MAX] {
        assert_eq!(signed_text(n), n.to_string());
    }
    for s in ["0", "65535", "65536", "+1", "+", "", "-1", "007", "1 ", "٣", "1_0", "99999999999"] {
        assert_eq!(parse_u16(s), s.parse::<u16>().ok(), "{s:?}");
    }
    for n in [0u16, 9, 10, 65535] {
        assert_eq!(parse_u16(&decimal_text(n.into())), Some(n));
    }
}

#[test]
fn joining_paths_agrees_with_std() {
    for (base, rest) in [("/a", "b"), ("/a/", "b"), ("/a", "/b"), ("", "b"), ("/a", "")] {
        let expected = std::path::Path::new(base).join(rest);
        let expected = expected.to_str().expect("UTF-8").as_bytes();
        assert_eq!(join_path(base.as_bytes(), rest.as_bytes()), expected, "{base:?} {rest:?}");
    }
    assert_eq!(path_beneath(b"/home/u", b"x"), b("/home/u/x"));
    assert_eq!(path_beneath(b"/home/u", b"/x"), b("/home/u//x"));
}

// ===== The host =====

fn host(home: Option<&str>, xdg: Option<&str>) -> Host {
    let mut host = Host::empty();
    if let Some(h) = home {
        host.vars.push(HostVar { name: b("HOME"), value: b(h) });
    }
    if let Some(x) = xdg {
        host.vars.push(HostVar { name: b("XDG_CONFIG_HOME"), value: b(x) });
    }
    host
}

#[test]
fn home_has_to_be_known() {
    assert_eq!(home_dir(&host(Some("/h"), None)).ok(), Some(b("/h")));
    assert!(matches!(
        home_dir(&host(None, None)),
        Err(Error::MissingEnvVar { name }) if name == "HOME"
    ));
}

#[test]
fn config_lies_beneath_xdg_or_home() {
    assert_eq!(
        config_path(&host(Some("/h"), Some("/x"))).ok(),
        Some(b("/x/redoubtful/config.toml")),
    );
    assert_eq!(
        config_path(&host(Some("/h"), None)).ok(),
        Some(b("/h/.config/redoubtful/config.toml")),
    );
}

#[test]
fn host_variables_are_found_by_name() {
    let h = host(None, Some("/x"));
    assert_eq!(h.var_os("XDG_CONFIG_HOME"), Some(b("/x")));
    assert_eq!(h.var_os("OTHER"), None);
}

// ===== Name maps =====

#[test]
fn names_are_walked_in_order_and_set_once() {
    let mut map: NameMap<u8> = NameMap::new();
    assert!(map.is_empty());
    for (name, value) in [("b", 1), ("é", 2), ("a", 3), ("b", 4), ("B", 5)] {
        map.set(name.to_owned(), value);
    }
    let walked: Vec<(&str, u8)> =
        (0..map.len()).map(|i| (map.name_at(i).as_str(), *map.value_at(i))).collect();
    assert_eq!(walked, vec![("B", 5), ("a", 3), ("b", 4), ("é", 2)]);
    let mut other: NameMap<u8> = NameMap::new();
    for (name, value) in [("B", 5), ("b", 4), ("é", 2), ("a", 3)] {
        other.set(name.to_owned(), value);
    }
    let again: Vec<(&str, u8)> =
        (0..other.len()).map(|i| (other.name_at(i).as_str(), *other.value_at(i))).collect();
    assert_eq!(walked, again);
    assert_eq!(map.get("c"), None);
}
