use netevd::config::{Config, EnvOverrides};
use netevd::filters::{EventFilter, Filter, FilterAction, IpFamily, MatchRule, NetworkEvent};
use netevd::ip::IpAddress;
use netevd::paths::get_script_dir;

fn rule() -> MatchRule {
    MatchRule {
        interface: None,
        interface_pattern: None,
        event_type: None,
        ip_family: None,
        backend: None,
        condition: None,
    }
}

fn event(interface: &str, has_gateway: bool, dns: Vec<IpAddress>) -> NetworkEvent {
    NetworkEvent {
        interface: interface.to_string(),
        event_type: "routable".to_string(),
        backend: "systemd-networkd".to_string(),
        addresses: vec![],
        has_gateway,
        dns_servers: dns,
    }
}

#[test]
fn test_interface_pattern_match() {
    let mut m = rule();
    m.interface_pattern = Some("eth*".to_string());
    m.event_type = Some("routable".to_string());
    let filter = EventFilter {
        filters: vec![Filter { match_rule: m, action: FilterAction::Execute, scripts: vec![] }],
    };
    let ev = event("eth0", true, vec![]);
    assert!(filter.should_execute(&ev));
}

#[test]
fn test_ignore_action() {
    let mut m = rule();
    m.interface_pattern = Some("docker*".to_string());
    let filter = EventFilter {
        filters: vec![Filter { match_rule: m, action: FilterAction::Ignore, scripts: vec![] }],
    };
    let ev = event("docker0", false, vec![]);
    assert!(!filter.should_execute(&ev));
}

#[test]
fn test_condition_evaluation() {
    let mut m = rule();
    m.interface = Some("wg0".to_string());
    m.condition = Some("has_gateway && dns_count > 0".to_string());
    let filter = EventFilter {
        filters: vec![Filter { match_rule: m, action: FilterAction::Execute, scripts: vec![] }],
    };
    let ev = event("wg0", true, vec![IpAddress::v4(8, 8, 8, 8)]);
    assert!(filter.should_execute(&ev));
}

#[test]
fn dns_count_conditions() {
    let mut m = rule();
    m.condition = Some("dns_count > 1".to_string());
    let f = Filter { match_rule: m, action: FilterAction::Ignore, scripts: vec![] };
    assert!(!f.matches(&event("e", false, vec![IpAddress::v4(1, 1, 1, 1)])));
    assert!(f.matches(&event("e", false, vec![IpAddress::v4(1, 1, 1, 1), IpAddress::v4(8, 8, 8, 8)])));
    let mut m2 = rule();
    m2.condition = Some("dns_count < 1".to_string());
    let f2 = Filter { match_rule: m2, action: FilterAction::Ignore, scripts: vec![] };
    assert!(f2.matches(&event("e", false, vec![])));
    let mut m3 = rule();
    m3.condition = Some("interface == \"wg1\"".to_string());
    let f3 = Filter { match_rule: m3, action: FilterAction::Ignore, scripts: vec![] };
    assert!(f3.matches(&event("wg1", false, vec![])));
    assert!(!f3.matches(&event("wg2", false, vec![])));
    let mut m4 = rule();
    m4.condition = Some("something else".to_string());
    let f4 = Filter { match_rule: m4, action: FilterAction::Ignore, scripts: vec![] };
    assert!(f4.matches(&event("x", false, vec![])));
}

#[test]
fn family_and_log_filters() {
    let mut m = rule();
    m.ip_family = Some(IpFamily::Ipv6);
    let log = Filter { match_rule: rule(), action: FilterAction::Log, scripts: vec![] };
    let v6 = Filter { match_rule: m, action: FilterAction::Ignore, scripts: vec![] };
    let filter = EventFilter { filters: vec![log, v6] };
    let mut ev = event("eth0", false, vec![]);
    ev.addresses = vec![IpAddress::v4(10, 0, 0, 1)];
    assert!(filter.should_execute(&ev));
    ev.addresses.push(IpAddress::v6([0x2001, 0xdb8, 0, 0, 0, 0, 0, 1]));
    assert!(!filter.should_execute(&ev));
    assert!(EventFilter::new().should_execute(&ev));
}

#[test]
fn scripts_accumulate_over_executing_filters() {
    let a = Filter { match_rule: rule(), action: FilterAction::Execute, scripts: vec!["/a".to_string()] };
    let mut m = rule();
    m.interface = Some("other".to_string());
    let b = Filter { match_rule: m, action: FilterAction::Execute, scripts: vec!["/b".to_string()] };
    let c = Filter { match_rule: rule(), action: FilterAction::Execute, scripts: vec!["/c".to_string(), "/d".to_string()] };
    let filter = EventFilter { filters: vec![a, b, c] };
    assert_eq!(filter.get_scripts_for_event(&event("eth0", false, vec![])), vec!["/a", "/c", "/d"]);
}

#[test]
fn mod_test_default_config() {
    let config = Config::default();
    assert_eq!(config.system.log_level, "info");
    assert_eq!(config.system.backend, "systemd-networkd");
    assert!(config.backends.systemd_networkd.emit_json);
}

#[test]
fn test_should_monitor_all_links_when_empty() {
    let config = Config::default();
    assert!(config.should_monitor_link("eth0"));
    assert!(config.should_monitor_link("wlan0"));
}

#[test]
fn test_should_monitor_link() {
    let mut config = Config::default();
    config.monitoring.interfaces = vec!["eth0".to_string(), "eth1".to_string()];
    assert!(config.should_monitor_link("eth0"));
    assert!(config.should_monitor_link("eth1"));
    assert!(!config.should_monitor_link("wlan0"));
}

#[test]
fn test_routing_policy_rules() {
    let mut config = Config::default();
    config.routing.policy_rules = vec!["eth1".to_string(), "eth2".to_string()];
    assert!(config.should_configure_routing_rules("eth1"));
    assert!(config.should_configure_routing_rules("eth2"));
    assert!(!config.should_configure_routing_rules("eth0"));
}

#[test]
fn env_overrides() {
    let mut config = Config::default();
    config.apply_env_overrides(EnvOverrides {
        log_level: Some("debug".to_string()),
        backend: None,
        api_enabled: Some("false".to_string()),
        api_bind_address: None,
        api_port: Some("8088".to_string()),
        metrics_enabled: Some("maybe".to_string()),
        audit_enabled: Some("true".to_string()),
    });
    assert_eq!(config.system.log_level, "debug");
    assert_eq!(config.system.backend, "systemd-networkd");
    assert!(!config.api.enabled);
    assert_eq!(config.api.port, 8088);
    assert!(config.metrics.enabled);
    assert!(config.audit.enabled);
    config.apply_env_overrides(EnvOverrides {
        log_level: None,
        backend: None,
        api_enabled: None,
        api_bind_address: None,
        api_port: Some("70000".to_string()),
        metrics_enabled: None,
        audit_enabled: Some("yes".to_string()),
    });
    assert_eq!(config.api.port, 8088);
    assert!(!config.audit.enabled);
}

#[test]
fn test_script_dir_paths() {
    assert_eq!(get_script_dir("carrier"), "/etc/netevd/carrier.d");
    assert_eq!(get_script_dir("routable"), "/etc/netevd/routable.d");
    assert_eq!(get_script_dir("degraded"), "/etc/netevd/degraded.d");
    assert_eq!(get_script_dir("routes"), "/etc/netevd/routes.d");
}

#[test]
fn pattern_result_decides_only_when_given() {
    let mut m = rule();
    m.interface_pattern = Some("br*".to_string());
    let f = Filter { match_rule: m, action: FilterAction::Execute, scripts: vec![] };
    let ev = event("eth0", false, vec![]);
    assert!(!f.matches_given(&ev, Some(false)));
    assert!(f.matches_given(&ev, Some(true)));
    assert!(f.matches_given(&ev, None));
    assert!(!f.matches(&ev));
    assert!(f.matches(&event("br0", false, vec![])));
    assert!(rule_free_filter_matches_anything());
}

fn rule_free_filter_matches_anything() -> bool {
    let f = Filter { match_rule: rule(), action: FilterAction::Log, scripts: vec![] };
    f.matches(&event("anything", false, vec![])) && f.matches_given(&event("x", true, vec![]), Some(false))
}

#[test]
fn globs_match_whole_names_literally() {
    let mut m = rule();
    m.interface_pattern = Some("docker*".to_string());
    let f = Filter { match_rule: m, action: FilterAction::Ignore, scripts: vec![] };
    assert!(f.matches(&event("docker0", false, vec![])));
    assert!(!f.matches(&event("mydocker0", false, vec![])));
    let mut m2 = rule();
    m2.interface_pattern = Some("eth0.1*".to_string());
    let f2 = Filter { match_rule: m2, action: FilterAction::Ignore, scripts: vec![] };
    assert!(f2.matches(&event("eth0.100", false, vec![])));
    assert!(!f2.matches(&event("eth0x100", false, vec![])));
    let mut m3 = rule();
    m3.interface_pattern = Some("br-(x)".to_string());
    let f3 = Filter { match_rule: m3, action: FilterAction::Ignore, scripts: vec![] };
    assert!(f3.matches(&event("br-(x)", false, vec![])));
    assert!(!f3.matches(&event("br-x", false, vec![])));
}
