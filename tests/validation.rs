use netevd::validation::{
    sanitize_env_value, validate_domain_name, validate_hostname, validate_interface_name,
    validate_ip_address, validate_ip_list, validate_state_name,
};

#[test]
fn test_validate_interface_name() {
    assert!(validate_interface_name("eth0"));
    assert!(validate_interface_name("wlan0"));
    assert!(validate_interface_name("br-1234"));
    assert!(validate_interface_name("veth_test"));

    assert!(!validate_interface_name(""));
    assert!(!validate_interface_name("a".repeat(16).as_str()));
    assert!(!validate_interface_name("eth0; rm -rf /"));
    assert!(!validate_interface_name("eth$0"));
}

#[test]
fn test_validate_hostname() {
    assert!(validate_hostname("localhost"));
    assert!(validate_hostname("example.com"));
    assert!(validate_hostname("sub.example.com"));
    assert!(validate_hostname("my-host"));

    assert!(!validate_hostname(""));
    assert!(!validate_hostname("-invalid"));
    assert!(!validate_hostname("invalid-"));
    assert!(!validate_hostname("in valid"));
    assert!(!validate_hostname(&"a".repeat(64)));
}

#[test]
fn test_validate_domain_name() {
    assert!(validate_domain_name("example.com"));
    assert!(validate_domain_name("*.example.com"));
    assert!(validate_domain_name("sub.example.com"));

    assert!(!validate_domain_name(""));
    assert!(!validate_domain_name("invalid domain"));
}

#[test]
fn test_validate_ip_address() {
    assert!(validate_ip_address("192.168.1.1"));
    assert!(validate_ip_address("10.0.0.1"));
    assert!(validate_ip_address("::1"));
    assert!(validate_ip_address("2001:db8::1"));

    assert!(!validate_ip_address(""));
    assert!(!validate_ip_address("256.256.256.256"));
    assert!(!validate_ip_address("not-an-ip"));
}

#[test]
fn test_validate_ip_list() {
    assert!(validate_ip_list(""));
    assert!(validate_ip_list("192.168.1.1"));
    assert!(validate_ip_list("192.168.1.1 10.0.0.1"));
    assert!(validate_ip_list("192.168.1.1 2001:db8::1"));

    assert!(!validate_ip_list("192.168.1.1 invalid"));
    assert!(!validate_ip_list("not an ip list"));
}

#[test]
fn test_sanitize_env_value() {
    assert_eq!(
        sanitize_env_value("safe_value-123"),
        Some("safe_value-123".to_string())
    );
    assert_eq!(
        sanitize_env_value("192.168.1.1"),
        Some("192.168.1.1".to_string())
    );

    assert_eq!(sanitize_env_value("value; rm -rf /"), None);
    assert_eq!(sanitize_env_value("$(whoami)"), None);
    assert_eq!(sanitize_env_value("`whoami`"), None);
    assert_eq!(sanitize_env_value("value && malicious"), None);
    assert_eq!(sanitize_env_value("val$ue"), None);
}

#[test]
fn test_validate_state_name() {
    assert!(validate_state_name("routable"));
    assert!(validate_state_name("activated"));
    assert!(validate_state_name("no-carrier"));

    assert!(!validate_state_name(""));
    assert!(!validate_state_name("invalid-state"));
    assert!(!validate_state_name("../../../etc/passwd"));
}

#[test]
fn test_interface_name_validation() {
    assert!(validate_interface_name("eth0"));
    assert!(validate_interface_name("wlan0"));
    assert!(validate_interface_name("br-1234"));
    assert!(validate_interface_name("veth_test"));
    assert!(validate_interface_name("eno1.100"));

    assert!(!validate_interface_name(""));
    assert!(!validate_interface_name("a".repeat(16).as_str()));
    assert!(!validate_interface_name("eth0; rm -rf /"));
    assert!(!validate_interface_name("eth$0"));
    assert!(!validate_interface_name("eth 0"));
}

#[test]
fn test_hostname_validation() {
    assert!(validate_hostname("localhost"));
    assert!(validate_hostname("example.com"));
    assert!(validate_hostname("sub.example.com"));
    assert!(validate_hostname("my-host"));
    assert!(validate_hostname("host123"));

    assert!(!validate_hostname(""));
    assert!(!validate_hostname("-invalid"));
    assert!(!validate_hostname("invalid-"));
    assert!(!validate_hostname("in valid"));
    assert!(!validate_hostname(&"a".repeat(64)));
    assert!(!validate_hostname("host."));
    assert!(!validate_hostname(".host"));
}

#[test]
fn test_ip_validation() {
    assert!(validate_ip_address("192.168.1.1"));
    assert!(validate_ip_address("10.0.0.1"));
    assert!(validate_ip_address("0.0.0.0"));
    assert!(validate_ip_address("255.255.255.255"));

    assert!(validate_ip_address("::1"));
    assert!(validate_ip_address("2001:db8::1"));
    assert!(validate_ip_address("fe80::1"));

    assert!(!validate_ip_address(""));
    assert!(!validate_ip_address("256.256.256.256"));
    assert!(!validate_ip_address("not-an-ip"));
    assert!(!validate_ip_address("192.168.1"));
}

#[test]
fn test_env_sanitization() {
    assert!(sanitize_env_value("safe_value-123").is_some());
    assert!(sanitize_env_value("192.168.1.1").is_some());
    assert!(sanitize_env_value("eth0").is_some());
    assert!(sanitize_env_value("normal text").is_some());

    assert!(sanitize_env_value("value; rm -rf /").is_none());
    assert!(sanitize_env_value("$(whoami)").is_none());
    assert!(sanitize_env_value("`whoami`").is_none());
    assert!(sanitize_env_value("value && malicious").is_none());
    assert!(sanitize_env_value("val$ue").is_none());
    assert!(sanitize_env_value("val|ue").is_none());
    assert!(sanitize_env_value("val>file").is_none());
}

#[test]
fn test_state_name_validation() {
    assert!(validate_state_name("routable"));
    assert!(validate_state_name("activated"));
    assert!(validate_state_name("no-carrier"));
    assert!(validate_state_name("carrier"));
    assert!(validate_state_name("configured"));
    assert!(validate_state_name("degraded"));
    assert!(validate_state_name("disconnected"));
    assert!(validate_state_name("manager"));
    assert!(validate_state_name("routes"));

    assert!(!validate_state_name(""));
    assert!(!validate_state_name("invalid-state"));
    assert!(!validate_state_name("../../../etc/passwd"));
    assert!(!validate_state_name("unknown"));
}

#[test]
fn every_metacharacter_is_refused() {
    for c in ['$', '`', '\\', '"', '\'', ';', '&', '|', '<', '>', '\n', '\r', '\0'] {
        let v = format!("ab{}cd", c);
        assert_eq!(sanitize_env_value(&v), None, "{:?}", v);
    }
    assert_eq!(sanitize_env_value("a b-c_d.e"), Some("a b-c_d.e".to_string()));
}

#[test]
fn interface_name_length_boundary() {
    assert!(validate_interface_name(&"e".repeat(15)));
    assert!(!validate_interface_name(&"e".repeat(16)));
}

#[test]
fn hostname_label_length_boundary() {
    assert!(validate_hostname(&"a".repeat(63)));
    assert!(!validate_hostname(&"a".repeat(64)));
    assert!(validate_hostname(&format!("{}.example.com", "b".repeat(63))));
    assert!(!validate_hostname(&format!("{}.example.com", "b".repeat(64))));
    let long = vec!["abcdefghi"; 26].join(".");
    assert_eq!(long.len(), 259);
    assert!(!validate_hostname(&long));
}

#[test]
fn ipv6_forms() {
    assert!(validate_ip_address("::"));
    assert!(validate_ip_address("1:2:3:4:5:6:7:8"));
    assert!(validate_ip_address("1:2:3:4:5:6:7::"));
    assert!(validate_ip_address("::2:3:4:5:6:7:8"));
    assert!(validate_ip_address("::ffff:192.168.1.1"));
    assert!(validate_ip_address("1:2:3:4:5:6:1.2.3.4"));
    assert!(!validate_ip_address("1:2:3:4:5:6:7:8:9"));
    assert!(!validate_ip_address("1::2::3"));
    assert!(!validate_ip_address("12345::1"));
    assert!(!validate_ip_address(":::1"));
    assert!(!validate_ip_address("1:2:3:4:5:6:7:1.2.3.4"));
    assert!(!validate_ip_address("1.2.3.4::"));
    assert!(!validate_ip_address("01.2.3.4"));
    assert!(validate_ip_address("0.0.0.0"));
}

#[test]
fn domain_wildcards() {
    assert!(validate_domain_name("*"));
    assert!(validate_domain_name("*.a"));
    assert!(!validate_domain_name("*-.a"));
    assert!(!validate_domain_name("a..b"));
}

#[test]
fn ip_list_whitespace() {
    assert!(validate_ip_list("   "));
    assert!(validate_ip_list(" 10.0.0.1\t::1 "));
    assert!(!validate_ip_list("10.0.0.1;"));
}
