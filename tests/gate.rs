use edge_tunnel::{wants_upgrade, Endpoint, RoutingConfig, DEFAULT_PORT};

#[test]
fn upgrade_needs_exact_token() {
    assert!(wants_upgrade(Some("websocket")));
    assert!(!wants_upgrade(Some("WebSocket")));
    assert!(!wants_upgrade(Some("")));
    assert!(!wants_upgrade(None));
}

#[test]
fn config_defaults_to_request_host() {
    let c = RoutingConfig::new(vec![7; 16], "edge.example.net".to_string(), "l".to_string(), "s".to_string());
    assert_eq!(c.destination, Endpoint { host: "edge.example.net".to_string(), port: DEFAULT_PORT });
    let c = c.with_destination(Endpoint { host: "198.51.100.7".to_string(), port: 8443 });
    assert_eq!(c.destination.port, 8443);
    assert_eq!(c.request_host, "edge.example.net".to_string());
}
