//! Host names.

use redoubtful::hostname::normalize_hostname;

#[test]
fn normalize_lowercase() {
    assert_eq!(normalize_hostname("Example.Net"), "example.net");
}

#[test]
fn normalize_already_lowercase() {
    assert_eq!(normalize_hostname("example.net"), "example.net");
}

#[test]
fn normalize_mixed_case() {
    assert_eq!(normalize_hostname("GITHUB.COM"), "github.com");
}

#[test]
fn normalize_twice_is_once() {
    for host in ["GITHUB.COM", "ÄÖ.example", "127.0.1.1", ""] {
        let once = normalize_hostname(host);
        assert_eq!(normalize_hostname(&once), once);
    }
}
