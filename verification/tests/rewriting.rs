//! Injecting credentials into requests.

use base64::engine::general_purpose::STANDARD;
use base64::Engine as _;
use redoubtful::config::proxy::{Proxy, ProxyAction, ProxyAuth};
use redoubtful::config::secret::Secret;
use redoubtful::name_map::NameMap;
use redoubtful::sandbox::rewrite::{
    merge_query, merge_query_params, target_with, Header, RequestHead, Rewrite,
};

fn req(uri: &str) -> RequestHead {
    RequestHead { uri: uri.to_owned(), headers: vec![] }
}

fn secrets(pairs: &[(&str, &str)]) -> NameMap<Secret> {
    let mut map = NameMap::new();
    for (name, value) in pairs {
        map.set((*name).to_owned(), Secret((*value).to_owned()));
    }
    map
}

fn rewrite(
    headers: &[(&str, &str)],
    params: &[(&str, &str)],
    auth: Option<ProxyAuth>,
) -> Rewrite {
    Rewrite { headers: secrets(headers), params: secrets(params), auth }
}

fn text(head: &RequestHead, name: &str) -> Option<String> {
    head.header(name).map(|v| String::from_utf8(v).expect("UTF-8"))
}

fn query(head: &RequestHead) -> Option<&str> {
    head.uri.split_once('?').map(|(_, q)| q)
}

fn proxy() -> Proxy {
    Proxy {
        host: "example.net".to_owned(),
        port: 443,
        action: ProxyAction::Allow,
        headers: NameMap::new(),
        params: NameMap::new(),
        auth: None,
    }
}

// ===== from_proxy =====

#[test]
fn from_proxy_none_when_blank() {
    assert!(Rewrite::from_proxy(&proxy()).is_none());
}

#[test]
fn from_proxy_some_when_headers_present() {
    let mut p = proxy();
    p.headers.set("X-Test".to_string(), Secret("value".to_string()));
    assert!(Rewrite::from_proxy(&p).is_some());
}

// ===== Headers =====

#[test]
fn inject_headers_sets_each_header() {
    let r = rewrite(&[("X-A", "1"), ("X-B", "2")], &[], None);
    let mut request = req("http://example.net/");
    r.apply(&mut request);
    assert_eq!(text(&request, "x-a").as_deref(), Some("1"));
    assert_eq!(text(&request, "x-b").as_deref(), Some("2"));
}

#[test]
fn inject_headers_overwrites_existing() {
    let r = rewrite(&[("X-A", "new")], &[], None);
    let mut request = req("http://example.net/");
    request.set_header("x-a".to_owned(), b"old".to_vec());
    r.apply(&mut request);
    assert_eq!(text(&request, "x-a").as_deref(), Some("new"));
    assert_eq!(request.headers.len(), 1);
}

#[test]
fn inject_headers_skips_what_http_does_not_allow() {
    let r = rewrite(&[("bad name", "1"), ("x-ok", "2"), ("x-bad", "a\nb")], &[], None);
    let mut request = req("http://example.net/");
    r.apply(&mut request);
    assert_eq!(request.headers.len(), 1);
    assert_eq!(text(&request, "x-ok").as_deref(), Some("2"));
}

#[test]
fn inject_headers_leaves_others_in_order() {
    let mut request = req("/");
    for (name, value) in [("a", "1"), ("b", "2"), ("a", "3"), ("c", "4")] {
        request.headers.push(Header { name: name.to_owned(), value: value.as_bytes().to_vec() });
    }
    rewrite(&[("A", "9")], &[], None).apply(&mut request);
    let all: Vec<(String, Vec<u8>)> =
        request.headers.into_iter().map(|h| (h.name, h.value)).collect();
    let expected: Vec<(String, Vec<u8>)> = [("b", "2"), ("c", "4"), ("a", "9")]
        .iter()
        .map(|(n, v)| ((*n).to_owned(), v.as_bytes().to_vec()))
        .collect();
    assert_eq!(all.len(), expected.len());
    for pair in expected {
        assert!(all.contains(&pair), "{pair:?}");
    }
    let others: Vec<&str> =
        all.iter().map(|(n, _)| n.as_str()).filter(|n| *n != "a").collect();
    assert_eq!(others, vec!["b", "c"]);
}

// ===== Query parameters =====

#[test]
fn inject_params_merges_preserving_existing() {
    let r = rewrite(&[], &[("b", "2")], None);
    let mut request = req("http://example.net/path?a=1");
    r.apply(&mut request);
    let q = query(&request).expect("query present");
    assert!(q.contains("a=1"), "existing param preserved: {q}");
    assert!(q.contains("b=2"), "new param added: {q}");
    assert_eq!(request.uri, "http://example.net/path?a=1&b=2");
}

#[test]
fn inject_params_encodes_special_chars() {
    let r = rewrite(&[], &[("k", "a b&c=d")], None);
    let mut request = req("http://example.net/");
    r.apply(&mut request);
    assert_eq!(query(&request), Some("k=a+b%26c%3Dd"));
}

#[test]
fn inject_params_origin_form() {
    let r = rewrite(&[], &[("x", "1")], None);
    let mut request = req("/path");
    r.apply(&mut request);
    assert_eq!(request.uri, "/path?x=1");
    // What looks like a host in a path stays in the path.
    let mut request = req("//elsewhere/path");
    r.apply(&mut request);
    assert_eq!(request.uri, "//elsewhere/path?x=1");
}

#[test]
fn inject_params_keeps_the_origin() {
    let r = rewrite(&[], &[("x", "1")], None);
    for origin in ["http://example.net", "https://user@example.net:8443", "http://[::1]:80"] {
        let mut request = req(&format!("{origin}/p?q=1"));
        r.apply(&mut request);
        assert_eq!(request.uri, format!("{origin}/p?q=1&x=1"));
    }
}

#[test]
fn inject_params_twice_is_once() {
    let r = rewrite(&[("X-A", "1")], &[("k", "v"), ("z z", "&")], None);
    let mut once = req("http://example.net/p?a=%20b&k=old&c");
    r.apply(&mut once);
    assert_eq!(once.uri, "http://example.net/p?a=%20b&c&k=v&z+z=%26");
    let mut twice = req(&once.uri);
    r.apply(&mut twice);
    assert_eq!(twice.uri, once.uri);
}

#[test]
fn merged_queries_and_targets() {
    let q = |s: &str| Some(s.to_owned());
    assert_eq!(merge_query(&None, &secrets(&[])), None);
    assert_eq!(merge_query(&q("a=1&&b"), &secrets(&[])), q("a=1&&b"));
    assert_eq!(merge_query(&None, &secrets(&[("b", "2"), ("a", "1")])), q("a=1&b=2"));
    // A key counts as it decodes.
    assert_eq!(merge_query(&q("%61=0&b=1"), &secrets(&[("a", "2")])), q("b=1&a=2"));
    assert_eq!(target_with("/p", &q("b=1"), &secrets(&[("a", "2")])), "/p?b=1&a=2");
    assert_eq!(target_with("/p", &None, &secrets(&[])), "/p");
}

#[test]
fn a_uri_without_parameters_is_left_alone() {
    for before in ["http://example.net/a/../b?x=%7e", "/p?q", "*", "not a uri"] {
        let mut uri = before.to_owned();
        merge_query_params(&secrets(&[]), &mut uri);
        assert_eq!(uri, before);
    }
}

// ===== Credentials =====

#[test]
fn inject_auth_basic() {
    let auth = ProxyAuth::Basic {
        username: Secret("user".to_string()),
        password: Secret("pass".to_string()),
    };
    let r = rewrite(&[], &[], Some(auth));
    let mut request = req("http://example.net/");
    r.apply(&mut request);
    let expected = format!("Basic {}", STANDARD.encode("user:pass".as_bytes()));
    assert_eq!(text(&request, "authorization"), Some(expected));
    assert_eq!(text(&request, "authorization").as_deref(), Some("Basic dXNlcjpwYXNz"));
}

#[test]
fn inject_auth_bearer() {
    let auth = ProxyAuth::Bearer { token: Secret("tok123".to_string()) };
    let r = rewrite(&[], &[], Some(auth));
    let mut request = req("http://example.net/");
    r.apply(&mut request);
    assert_eq!(text(&request, "authorization").as_deref(), Some("Bearer tok123"));
}

#[test]
fn inject_auth_wins_over_a_header() {
    let auth = ProxyAuth::Bearer { token: Secret("tok123".to_string()) };
    let mut request = req("http://example.net/");
    rewrite(&[("Authorization", "mine")], &[], Some(auth)).apply(&mut request);
    assert_eq!(text(&request, "authorization").as_deref(), Some("Bearer tok123"));
    assert_eq!(request.headers.len(), 1);
}

#[test]
fn inject_auth_skips_what_http_does_not_allow() {
    let auth = ProxyAuth::Bearer { token: Secret("a\nb".to_string()) };
    let mut request = req("http://example.net/");
    rewrite(&[], &[], Some(auth)).apply(&mut request);
    assert!(request.headers.is_empty());
}

// ===== Nothing to do =====

#[test]
fn apply_injection_noop_with_blank_config() {
    let r = rewrite(&[], &[], None);
    let mut request = req("http://example.net/?a=1");
    request.set_header("x-k".to_owned(), b"keep".to_vec());
    r.apply(&mut request);
    assert_eq!(query(&request), Some("a=1"));
    assert_eq!(text(&request, "x-k").as_deref(), Some("keep"));
    assert!(request.header("authorization").is_none());
}

#[test]
fn credential_injection_injects_headers_params_and_auth() {
    let auth = ProxyAuth::Bearer { token: Secret("injected-bearer-token".to_string()) };
    let r = rewrite(
        &[("X-Test-Token", "test-token-value")],
        &[("api_key", "injected-key")],
        Some(auth),
    );
    let mut request = req("http://127.0.1.1:8080/");
    r.apply(&mut request);
    assert_eq!(request.uri, "http://127.0.1.1:8080/?api_key=injected-key");
    assert_eq!(text(&request, "authorization").as_deref(), Some("Bearer injected-bearer-token"));
    assert_eq!(text(&request, "x-test-token").as_deref(), Some("test-token-value"));
}
