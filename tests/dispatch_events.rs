use netevd::config::Config;
use netevd::dispatch::{
    decimal_string, lease_environment, link_environment, plan_lease_dispatch, plan_link_dispatch,
    sanitize_environment, validate_env_var, StateTracker,
};
use netevd::events::{Event, EventKind, EventQueue, EventSource};
use netevd::filters::{Filter, FilterAction, MatchRule, NetworkEvent};
use netevd::lease::{find_lease, parse_lease_file};
use netevd::scripts::{select_scripts, ScriptEntry};

fn pair(k: &str, v: &str) -> (String, String) {
    (k.to_string(), v.to_string())
}

#[test]
fn script_env_sanitization() {
    let vars = vec![pair("LINK", "eth0; rm -rf /"), pair("DHCP_HOSTNAME", "ok-host")];
    let kept = sanitize_environment(&vars);
    assert_eq!(kept, vec![pair("DHCP_HOSTNAME", "ok-host")]);
}

#[test]
fn env_rules_per_key() {
    assert!(validate_env_var("LINKINDEX", "12"));
    assert!(!validate_env_var("LINKINDEX", "1a"));
    assert!(validate_env_var("STATE", "routable"));
    assert!(!validate_env_var("STATE", "../x"));
    assert!(validate_env_var("ADDRESSES", "10.0.0.1 ::1"));
    assert!(!validate_env_var("DHCP_DNS", "8.8.8.8 x"));
    assert!(validate_env_var("DHCP_DOMAIN", "*.example.com"));
    assert!(!validate_env_var("JSON", "{\"a\":1}"));
    assert!(validate_env_var("OTHER", "plain"));
}

#[test]
fn decimal_strings() {
    assert_eq!(decimal_string(0), "0");
    assert_eq!(decimal_string(7), "7");
    assert_eq!(decimal_string(207), "207");
    assert_eq!(decimal_string(u32::MAX), "4294967295");
}

#[test]
fn lease_environment_fields() {
    let leases = parse_lease_file("lease 10.0.0.5 {\n interface \"eth0\";\n fixed-address 10.0.0.5;\n option routers 10.0.0.1, 10.0.0.2;\n option host-name \"box\";\n}\n");
    let l = find_lease(&leases, "eth0").unwrap();
    let env = lease_environment(l, 3);
    assert_eq!(
        env,
        vec![
            pair("LINK", "eth0"),
            pair("LINKINDEX", "3"),
            pair("STATE", "routable"),
            pair("BACKEND", "dhclient"),
            pair("ADDRESSES", "10.0.0.5"),
            pair("DHCP_ADDRESS", "10.0.0.5"),
            pair("DHCP_GATEWAY", "10.0.0.1 10.0.0.2"),
            pair("DHCP_HOSTNAME", "box"),
        ]
    );
    let mut config = Config::default();
    config.backends.dhclient.use_hostname = true;
    let plan = plan_lease_dispatch(&config, l, 3);
    assert_eq!(plan.hostname, Some("box".to_string()));
    assert!(plan.dns.is_empty());
    assert_eq!(plan.script_dir, "/etc/netevd/routable.d");
}

#[test]
fn link_environment_fields() {
    let env = link_environment("eth0", 2, "routable", &vec!["10.0.0.1".to_string(), "fe80::1".to_string()], None);
    assert_eq!(
        env,
        vec![
            pair("LINK", "eth0"),
            pair("LINKINDEX", "2"),
            pair("STATE", "routable"),
            pair("BACKEND", "systemd-networkd"),
            pair("ADDRESSES", "10.0.0.1 fe80::1"),
        ]
    );
}

#[test]
fn state_deduplication() {
    let mut tracker = StateTracker::new();
    assert!(tracker.observe(3, "routable"));
    assert!(!tracker.observe(3, "routable"));
    assert!(tracker.observe(3, "degraded"));
    assert!(tracker.observe(4, "degraded"));
}

fn link_event(name: &str) -> NetworkEvent {
    NetworkEvent {
        interface: name.to_string(),
        event_type: "routable".to_string(),
        backend: "systemd-networkd".to_string(),
        addresses: vec![],
        has_gateway: false,
        dns_servers: vec![],
    }
}

#[test]
fn ignore_filter_on_container_interfaces() {
    let mut config = Config::default();
    config.backends.dhclient.use_dns = true;
    config.backends.dhclient.use_hostname = true;
    config.filters = vec![Filter {
        match_rule: MatchRule {
            interface: None,
            interface_pattern: Some("docker*".to_string()),
            event_type: None,
            ip_family: None,
            backend: None,
            condition: None,
        },
        action: FilterAction::Ignore,
        scripts: vec![],
    }];
    let dns = vec!["8.8.8.8".to_string()];
    let domains = vec!["example.com".to_string()];
    let plan = plan_link_dispatch(&config, &link_event("docker0"), &dns, &domains);
    assert!(!plan.run_scripts);
    assert!(plan.scripts.is_empty());
    assert_eq!(plan.script_dir, None);
    assert!(plan.dns.is_empty());
    assert_eq!(plan.hostname, None);

    let plan = plan_link_dispatch(&config, &link_event("eth0"), &dns, &domains);
    assert!(plan.run_scripts);
    assert_eq!(plan.script_dir, Some("/etc/netevd/routable.d".to_string()));
    assert_eq!(plan.dns, dns);
    assert!(plan.domains.is_empty());
    assert_eq!(plan.hostname, Some("example.com".to_string()));
}

fn ev(ifindex: u32, kind: EventKind, state: &str) -> Event {
    Event {
        source: EventSource::Manager,
        ifindex,
        ifname: format!("eth{}", ifindex),
        kind,
        state: Some(state.to_string()),
        addresses: vec![],
        dns: vec![],
        domains: vec![],
    }
}

#[test]
fn queue_coalesces_at_capacity() {
    let mut q = EventQueue::new(2);
    assert!(q.push(ev(1, EventKind::LinkState, "carrier")).is_ok());
    assert!(q.push(ev(2, EventKind::LinkState, "carrier")).is_ok());
    assert!(q.push(ev(1, EventKind::LinkState, "routable")).is_ok());
    assert_eq!(q.len(), 2);
    let back = q.push(ev(3, EventKind::LinkState, "routable"));
    assert!(back.is_err());
    assert_eq!(back.err().unwrap().ifindex, 3);
    let first = q.pop().unwrap();
    assert_eq!(first.ifindex, 1);
    assert_eq!(first.state, Some("routable".to_string()));
    assert_eq!(q.pop().unwrap().ifindex, 2);
    assert!(q.pop().is_none());
}

#[test]
fn scripts_are_executable_files_in_name_order() {
    let e = |name: &str, is_file: bool, mode: u32| ScriptEntry { name: name.to_string(), is_file, mode };
    let listed = vec![
        e("20-late", true, 0o755),
        e("10-early", true, 0o700),
        e("README", true, 0o644),
        e("subdir", false, 0o755),
        e("05-first", true, 0o100),
        e("10-early-b", true, 0o001),
        e("Z", true, 0o010),
    ];
    assert_eq!(select_scripts(&listed), vec!["05-first", "10-early", "10-early-b", "20-late", "Z"]);
}

#[test]
fn route_event_environment() {
    let env = netevd::dispatch::route_environment("eth0", 12, "new");
    assert_eq!(
        env,
        vec![pair("LINK", "eth0"), pair("LINKINDEX", "12"), pair("EVENT", "new"), pair("STATE", "routes")]
    );
}
