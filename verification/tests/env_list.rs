//! The environment as the command line alone describes it.

use redoubtful::env::{EnvList, EnvOpts, EnvSource, EnvSpec, EnvSpecValue, CANONICAL_PATH};
use redoubtful::host::{Host, HostVar};

fn parse(s: &str) -> Result<EnvSpec, String> {
    EnvSpec::from_str(s)
}

fn value(list: &EnvList, name: &str) -> Option<String> {
    list.iter().find(|e| e.name == name).map(|e| e.value.clone())
}

const HOME: &[u8] = b"/home/test";

#[test]
fn env_spec_literal_parses() {
    let spec = parse("FOO=bar").expect("parses");
    assert_eq!(spec.name, "FOO");
    match spec.value {
        EnvSpecValue::Literal(v) => assert_eq!(v, "bar"),
        EnvSpecValue::Passthrough => panic!("should be literal"),
    }
}

#[test]
fn env_spec_literal_empty_value() {
    match parse("FOO=").expect("parses").value {
        EnvSpecValue::Literal(v) => assert_eq!(v, ""),
        EnvSpecValue::Passthrough => panic!("`FOO=` is literal empty"),
    }
}

#[test]
fn env_spec_passthrough_when_no_equals() {
    match parse("FOO").expect("parses").value {
        EnvSpecValue::Passthrough => {}
        EnvSpecValue::Literal(_) => panic!("`FOO` should be passthrough"),
    }
}

#[test]
fn env_spec_value_with_embedded_equals() {
    match parse("KEY=a=b=c").expect("parses").value {
        EnvSpecValue::Literal(v) => assert_eq!(v, "a=b=c"),
        EnvSpecValue::Passthrough => panic!("should be literal"),
    }
}

#[test]
fn env_spec_rejects_empty_name() {
    assert!(parse("").is_err());
    assert!(parse("=value").is_err());
    assert_eq!(parse("=v").unwrap_err(), "env spec \"=v\" has empty variable name");
    assert_eq!(
        parse("A\0=v").unwrap_err(),
        "env spec \"A\\0=v\" variable name contains NUL",
    );
}

#[test]
fn env_list_set_appends_then_upserts() {
    let mut list = EnvList::new();
    list.set("A", "1".to_owned(), EnvSource::Default);
    list.set("B", "2".to_owned(), EnvSource::Default);
    assert_eq!(list.len(), 2);
    list.set("A", "1b".to_owned(), EnvSource::Cli);
    assert_eq!(list.len(), 2);
    let a = list.iter().find(|e| e.name == "A").expect("A present");
    assert_eq!(a.value, "1b");
    assert!(matches!(a.source, EnvSource::Cli));
    let names: Vec<&str> = list.iter().map(|e| e.name.as_str()).collect();
    assert_eq!(names, vec!["A", "B"]);
}

#[test]
fn env_list_unset_removes_entry() {
    let mut list = EnvList::new();
    list.set("A", "1".to_owned(), EnvSource::Default);
    list.set("B", "2".to_owned(), EnvSource::Default);
    list.unset("A");
    assert_eq!(list.len(), 1);
    assert_eq!(list.iter().next().expect("B").name, "B");
    list.unset("Z");
    assert_eq!(list.len(), 1);
}

#[test]
fn default_baseline_sets_canonical_path_when_no_override() {
    let list = EnvList::default_baseline(HOME, None, &vec![], &Host::empty());
    let path = list.iter().find(|e| e.name == "PATH").expect("PATH baseline entry");
    assert_eq!(path.value, CANONICAL_PATH);
    assert!(matches!(path.source, EnvSource::Default));
}

#[test]
fn default_baseline_respects_path_override() {
    let list =
        EnvList::default_baseline(HOME, Some("/only/this:/and/this"), &vec![], &Host::empty());
    assert_eq!(value(&list, "PATH").as_deref(), Some("/only/this:/and/this"));
}

#[test]
fn default_baseline_prepends_path_additions_to_canonical() {
    let additions = vec!["/opt/agent/bin".to_owned(), "/home/me/.cargo/bin".to_owned()];
    let list = EnvList::default_baseline(HOME, None, &additions, &Host::empty());
    assert_eq!(
        value(&list, "PATH"),
        Some(format!("/opt/agent/bin:/home/me/.cargo/bin:{CANONICAL_PATH}")),
    );
}

#[test]
fn default_baseline_prepends_path_additions_to_override() {
    let additions = vec!["/extra".to_owned()];
    let list = EnvList::default_baseline(HOME, Some("/only/this"), &additions, &Host::empty());
    assert_eq!(value(&list, "PATH").as_deref(), Some("/extra:/only/this"));
}

#[test]
fn default_baseline_sets_home_from_path_arg() {
    let mut host = Host::empty();
    host.vars.push(HostVar { name: b"HOME".to_vec(), value: b"/somewhere/else".to_vec() });
    let list = EnvList::default_baseline(b"/home/agent", None, &vec![], &host);
    let home = list.iter().find(|e| e.name == "HOME").expect("HOME baseline entry");
    assert_eq!(home.value, "/home/agent");
    assert!(matches!(home.source, EnvSource::Default));
    let odd = EnvList::default_baseline(b"/home/\xff", None, &vec![], &host);
    assert_eq!(value(&odd, "HOME").as_deref(), Some("/home/\u{FFFD}"));
}

#[test]
fn default_baseline_drops_what_is_not_utf8() {
    let mut host = Host::empty();
    for (name, value) in [
        (&b"USER"[..], &b"u"[..]),
        (&b"EDITOR"[..], &b"\xff"[..]),
        (&b"LC_ALL"[..], &b"C"[..]),
        (&b"LC_TIME"[..], &b"\xff"[..]),
        (&b"GITHUB_TOKEN"[..], &b"secret"[..]),
    ] {
        host.vars.push(HostVar { name: name.to_vec(), value: value.to_vec() });
    }
    let list = EnvList::default_baseline(HOME, None, &vec![], &host);
    let names: Vec<&str> = list.iter().map(|e| e.name.as_str()).collect();
    assert_eq!(names, vec!["HOME", "PATH", "USER", "LC_ALL"]);
}

#[test]
fn env_opts_apply_literal_upserts_baseline() {
    let mut list = EnvList::default_baseline(HOME, None, &vec![], &Host::empty());
    let opts = EnvOpts {
        env: vec![EnvSpec {
            name: "PATH".to_owned(),
            value: EnvSpecValue::Literal("/only/this".to_owned()),
        }],
        path: None,
        path_add: Vec::new(),
    };
    opts.apply(&mut list, &Host::empty());
    let path = list.iter().find(|e| e.name == "PATH").expect("PATH still present");
    assert_eq!(path.value, "/only/this");
    assert!(matches!(path.source, EnvSource::Cli));
    assert_eq!(list.iter().filter(|e| e.name == "PATH").count(), 1);
}

#[test]
fn env_opts_apply_passthrough_sets_or_removes() {
    let mut host = Host::empty();
    host.vars.push(HostVar { name: b"SET".to_vec(), value: b"yes".to_vec() });
    host.vars.push(HostVar { name: b"ODD".to_vec(), value: b"\xff".to_vec() });
    let mut list = EnvList::new();
    for name in ["SET", "ODD", "UNSET", "OTHER"] {
        list.set(name, "old".to_owned(), EnvSource::Default);
    }
    let opts = EnvOpts {
        env: vec![parse("SET").unwrap(), parse("ODD").unwrap(), parse("UNSET").unwrap()],
        path: None,
        path_add: Vec::new(),
    };
    opts.apply(&mut list, &host);
    let names: Vec<&str> = list.iter().map(|e| e.name.as_str()).collect();
    assert_eq!(names, vec!["SET", "OTHER"]);
    assert_eq!(value(&list, "SET").as_deref(), Some("yes"));
}

#[test]
fn env_list_last_call_decides() {
    let mut list = EnvList::new();
    list.set("A", "1".to_owned(), EnvSource::Default);
    list.set("B", "2".to_owned(), EnvSource::Default);
    list.set("C", "3".to_owned(), EnvSource::Default);
    list.unset("A");
    list.set("B", "4".to_owned(), EnvSource::Cli);
    list.set("A", "5".to_owned(), EnvSource::Cli);
    list.unset("C");
    list.unset("D");
    let entries: Vec<(&str, &str)> =
        list.iter().map(|e| (e.name.as_str(), e.value.as_str())).collect();
    assert_eq!(entries, vec![("B", "4"), ("A", "5")]);
    assert!(list.iter().all(|e| matches!(e.source, EnvSource::Cli)));
}
