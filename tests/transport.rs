use faasta::{
    contains_text, find_char, parse_port, same_text, starts_with_text,
    classify_connect_failure, first_address, host_of, plan_connection, resolve_target,
    select_trust_policy, sni_server_name, ConnectError, Resolution, TrustPolicy,
};

#[test]
fn localhost_target_uses_embedded_trust() {
    let plan = plan_connection("localhost:9000", false).unwrap();
    assert_eq!(plan.policy, TrustPolicy::EmbeddedSelfSigned);
    assert_eq!(plan.server_name, "localhost");
    assert_eq!(plan.resolution, Resolution::Loopback { port: 9000 });
}

#[test]
fn loopback_ip_target_uses_embedded_trust() {
    let plan = plan_connection("127.0.0.1:8080", true).unwrap();
    assert_eq!(plan.policy, TrustPolicy::EmbeddedSelfSigned);
    assert_eq!(plan.server_name, "localhost");
    assert_eq!(plan.resolution, Resolution::Direct);
}

#[test]
fn remote_target_uses_system_trust() {
    let plan = plan_connection("api.example.com:443", false).unwrap();
    assert_eq!(plan.policy, TrustPolicy::SystemTrustStore);
    assert_eq!(plan.server_name, "api.example.com");
    assert_eq!(
        plan.resolution,
        Resolution::Lookup { host: "api.example.com".to_string(), port: 443 }
    );
}

#[test]
fn trust_policy_needs_the_colon() {
    assert_eq!(select_trust_policy("localhost"), TrustPolicy::SystemTrustStore);
    assert_eq!(select_trust_policy("localhostile.com:1"), TrustPolicy::SystemTrustStore);
    assert_eq!(select_trust_policy("127.0.0.1:1"), TrustPolicy::EmbeddedSelfSigned);
}

#[test]
fn server_name_is_host_part() {
    assert_eq!(sni_server_name("10.0.0.1:443"), "10.0.0.1");
    assert_eq!(sni_server_name("localhost.localdomain:80"), "localhost");
    assert_eq!(host_of("example.org:1:2"), "example.org:1");
    assert_eq!(sni_server_name("[::1]:443"), "[::1]");
    assert_eq!(host_of("example.org"), "example.org");
}

#[test]
fn localhost_resolves_to_loopback() {
    assert_eq!(resolve_target("localhost:9000", false), Ok(Resolution::Loopback { port: 9000 }));
    assert_eq!(
        resolve_target("localhost.localdomain:7", false),
        Ok(Resolution::Loopback { port: 7 })
    );
}

#[test]
fn zero_or_many_colons_are_invalid() {
    assert_eq!(resolve_target("example.com", false), Err(ConnectError::InvalidAddress));
    assert_eq!(resolve_target("a:b:c", false), Err(ConnectError::InvalidAddress));
    assert_eq!(plan_connection("host:1:2", false), Err(ConnectError::InvalidAddress));
}

#[test]
fn bad_ports_are_rejected() {
    assert_eq!(resolve_target("host:abc", false), Err(ConnectError::InvalidPort));
    assert_eq!(resolve_target("host:70000", false), Err(ConnectError::InvalidPort));
    assert_eq!(resolve_target("host:", false), Err(ConnectError::InvalidPort));
    assert_eq!(resolve_target("host:+", false), Err(ConnectError::InvalidPort));
    assert_eq!(
        resolve_target("host:+80", false),
        Ok(Resolution::Lookup { host: "host".to_string(), port: 80 })
    );
    assert_eq!(
        resolve_target("host:65535", false),
        Ok(Resolution::Lookup { host: "host".to_string(), port: 65535 })
    );
}

#[test]
fn direct_address_needs_no_lookup() {
    assert_eq!(resolve_target("[::1]:443", true), Ok(Resolution::Direct));
}

#[test]
fn empty_lookup_is_unresolved() {
    assert_eq!(first_address(Vec::<u32>::new()), Err(ConnectError::UnresolvedHost));
    assert_eq!(first_address(vec![5u32, 6]), Ok(5));
}

#[test]
fn connect_failures_are_classified() {
    assert_eq!(
        classify_connect_failure("handshake failed: timeout"),
        ConnectError::HandshakeTimeout
    );
    assert_eq!(classify_connect_failure("tls handshake alert"), ConnectError::TlsHandshake);
    assert_eq!(
        classify_connect_failure("connection refused"),
        ConnectError::Other { message: "connection refused".to_string() }
    );
}

#[test]
fn text_helpers() {
    assert!(starts_with_text("localhost:1", "localhost:"));
    assert!(!starts_with_text("local", "localhost:"));
    assert!(same_text("abc", "abc"));
    assert!(!same_text("abc", "abd"));
    assert_eq!(find_char("a:b:c", ':'), Some(1));
    assert_eq!(find_char("abc", ':'), None);
    assert!(contains_text("tls handshake", "shake"));
    assert!(!contains_text("tls", "handshake"));
    assert_eq!(parse_port("0080"), Some(80));
    assert_eq!(parse_port("65536"), None);
    assert_eq!(parse_port("-1"), None);
}
