use edge_tunnel::{candidate_for_alias, first_candidate, parse_port, replace_colons, resolve, resolve_direct, Endpoint};

fn fallback() -> Endpoint {
    Endpoint { host: "edge.example.net".to_string(), port: 443 }
}

fn ep(host: &str, port: u16) -> Endpoint {
    Endpoint { host: host.to_string(), port }
}

#[test]
fn direct_token_splits_host_and_port() {
    assert_eq!(resolve("198.51.100.7-8443", None, fallback()), ep("198.51.100.7", 8443));
}

#[test]
fn direct_token_splits_on_last_dash() {
    assert_eq!(resolve("my-host.example-80", None, fallback()), ep("my-host.example", 80));
    assert_eq!(resolve_direct("a-b-65535", fallback()), ep("a-b", 65535));
}

#[test]
fn invalid_token_gives_fallback() {
    assert_eq!(resolve("not-a-valid-token-abc", None, fallback()), fallback());
    assert_eq!(resolve("", None, fallback()), fallback());
    assert_eq!(resolve("-80", None, fallback()), fallback());
    assert_eq!(resolve("host-", None, fallback()), fallback());
    assert_eq!(resolve("hostonly", None, fallback()), fallback());
    assert_eq!(resolve("ho\nst-80", None, fallback()), fallback());
}

#[test]
fn port_out_of_range_gives_fallback() {
    assert_eq!(resolve("198.51.100.7-65536", None, fallback()), fallback());
    assert_eq!(resolve("198.51.100.7-99999999999", None, fallback()), fallback());
}

#[test]
fn non_ascii_digits_give_fallback() {
    assert_eq!(resolve("host-\u{0663}\u{0664}", None, fallback()), fallback());
}

#[test]
fn leading_zeros_are_read() {
    assert_eq!(resolve("host-0080", None, fallback()), ep("host", 80));
}

#[test]
fn alias_in_directory_resolves() {
    let doc = r#"{"xy":["203.0.113.5:443"],"ab":["192.0.2.1:80","192.0.2.2:81"]}"#;
    assert_eq!(resolve("xy", Some(doc), fallback()), ep("203.0.113.5", 443));
    assert_eq!(resolve("ab", Some(doc), fallback()), ep("192.0.2.1", 80));
}

#[test]
fn alias_absent_or_unfetched_gives_fallback() {
    let doc = r#"{"xy":["203.0.113.5:443"]}"#;
    assert_eq!(resolve("zz", Some(doc), fallback()), fallback());
    assert_eq!(resolve("xy", None, fallback()), fallback());
    assert_eq!(resolve("xy", Some("not json"), fallback()), fallback());
    assert_eq!(resolve("xy", Some(r#"{"xy":[]}"#), fallback()), fallback());
}

#[test]
fn alias_candidate_has_colons_rewritten() {
    let doc = r#"{"v6":["[2001:db8::1]:8443"]}"#;
    assert_eq!(candidate_for_alias(doc, "v6"), Some("[2001-db8--1]-8443".to_string()));
    assert_eq!(resolve("v6", Some(doc), fallback()), ep("[2001-db8--1]", 8443));
    assert_eq!(candidate_for_alias(doc, "xx"), None);
}

#[test]
fn first_candidate_takes_first_of_matching_entry() {
    let entries = vec![
        ("ab".to_string(), vec!["1.1.1.1:1".to_string()]),
        ("cd".to_string(), vec!["2.2.2.2:2".to_string(), "3.3.3.3:3".to_string()]),
    ];
    assert_eq!(first_candidate(&entries, "cd"), Some("2.2.2.2:2".to_string()));
    assert_eq!(first_candidate(&entries, "ef"), None);
}

#[test]
fn port_parsing() {
    assert_eq!(parse_port("x-443", 2), Some(443));
    assert_eq!(parse_port("x-", 2), None);
    assert_eq!(parse_port("x-4a", 2), None);
    assert_eq!(parse_port("65535", 0), Some(65535));
    assert_eq!(parse_port("65536", 0), None);
}

#[test]
fn colons_become_dashes() {
    assert_eq!(replace_colons("a:b::c"), "a-b--c".to_string());
    assert_eq!(replace_colons(""), "".to_string());
}
