use netevd::ip::IpAddress;
use netevd::routing::{
    calculate_table_id, discover_gateway, plan_reconcile, reconcile, resolve_table, route_selected, rule_matches,
    RouteAction, RouteRecord, RuleRecord, MAIN_TABLE, ROUTE_TABLE_BASE,
};
use netevd::state::NetworkState;

#[test]
fn test_add_remove_link() {
    let mut state = NetworkState::new();
    state.add_link("eth0".to_string(), 2);

    assert_eq!(state.get_link_index("eth0"), Some(2));
    assert_eq!(state.get_link_name(2), Some(&"eth0".to_string()));

    state.remove_link(2);
    assert_eq!(state.get_link_index("eth0"), None);
    assert_eq!(state.get_link_name(2), None);
}

#[test]
fn test_routing_rules() {
    let mut state = NetworkState::new();
    let addr = IpAddress::v4(192, 168, 1, 10);

    state.add_routing_rule_from(addr, 10000);
    state.add_routing_rule_to(addr, 10000);

    assert!(state.has_routing_rules(&addr));

    state.remove_routing_rules(&addr);
    assert!(!state.has_routing_rules(&addr));
}

#[test]
fn test_routes() {
    let mut state = NetworkState::new();
    let gateway = IpAddress::v4(192, 168, 1, 1);

    state.add_route(2, 254, Some(gateway));
    assert!(state.has_route(2, 254));

    state.remove_route(2, 254);
    assert!(!state.has_route(2, 254));
}

#[test]
fn test_calculate_table_id() {
    assert_eq!(calculate_table_id(2), ROUTE_TABLE_BASE + 2);
    assert_eq!(calculate_table_id(10), ROUTE_TABLE_BASE + 10);
}

#[test]
fn test_route_table_base() {
    assert_eq!(ROUTE_TABLE_BASE, 200);
}

#[test]
fn test_table_calculation() {
    assert_eq!(ROUTE_TABLE_BASE + 2, 202);
    assert_eq!(ROUTE_TABLE_BASE + 10, 210);
}

#[test]
fn renaming_a_link_keeps_maps_inverse() {
    let mut state = NetworkState::new();
    state.add_link("eth0".to_string(), 2);
    state.add_link("lan0".to_string(), 2);
    assert_eq!(state.get_link_index("eth0"), None);
    assert_eq!(state.get_link_index("lan0"), Some(2));
    state.add_link("lan0".to_string(), 3);
    assert_eq!(state.get_link_name(2), None);
    assert_eq!(state.get_link_name(3), Some(&"lan0".to_string()));
}

fn setup_eth1() -> NetworkState {
    let mut state = NetworkState::new();
    state.add_link("eth1".to_string(), 7);
    state
}

#[test]
fn new_interface_with_address() {
    let mut state = setup_eth1();
    let addr = IpAddress::v4(10, 1, 2, 3);
    let gw = IpAddress::v4(10, 1, 2, 1);
    let routes = vec![RouteRecord {
        destination_prefix_len: 0,
        output_interface: Some(7),
        gateway: Some(gw),
        table: MAIN_TABLE,
    }];
    let found = discover_gateway(&routes, 7);
    assert_eq!(found, Some(gw));
    let actions = reconcile(&mut state, 7, &vec![addr], found);
    assert_eq!(
        actions,
        vec![
            RouteAction::AddRoute { ifindex: 7, gateway: gw, table: 207 },
            RouteAction::AddRuleFrom { address: addr, table: 207 },
            RouteAction::AddRuleTo { address: addr, table: 207 },
        ]
    );
    assert_eq!(state.route_gateway(7, 207), Some(Some(gw)));
    assert_eq!(state.rule_from_table(&addr), Some(207));
    assert_eq!(state.rule_to_table(&addr), Some(207));
}

#[test]
fn address_removed() {
    let mut state = setup_eth1();
    let addr = IpAddress::v4(10, 1, 2, 3);
    let gw = IpAddress::v4(10, 1, 2, 1);
    reconcile(&mut state, 7, &vec![addr], Some(gw));
    let actions = reconcile(&mut state, 7, &vec![], Some(gw));
    assert_eq!(
        actions,
        vec![
            RouteAction::RemoveRules { address: addr, table: 207 },
            RouteAction::RemoveRoute { ifindex: 7, table: 207 },
        ]
    );
    assert!(!state.has_routing_rules(&addr));
    assert!(!state.has_route(7, 207));
}

#[test]
fn repeated_reconcile_issues_nothing() {
    let mut state = setup_eth1();
    let a = IpAddress::v4(10, 1, 2, 3);
    let b = IpAddress::v4(10, 1, 2, 4);
    let gw = IpAddress::v4(10, 1, 2, 1);
    let first = reconcile(&mut state, 7, &vec![a, b, a], Some(gw));
    assert_eq!(first.len(), 5);
    let second = reconcile(&mut state, 7, &vec![a, b], Some(gw));
    assert!(second.is_empty());
    assert_eq!(state.routes.len(), 1);
    assert_eq!(state.routing_rules_from.len(), 2);
    assert_eq!(state.routing_rules_to.len(), 2);
}

#[test]
fn gateway_unknown_installs_nothing() {
    let mut state = setup_eth1();
    let a = IpAddress::v4(10, 1, 2, 3);
    let actions = reconcile(&mut state, 7, &vec![a], None);
    assert!(actions.is_empty());
    assert!(!state.has_routing_rules(&a));
    assert!(!state.has_route(7, 207));
}

#[test]
fn address_change_retires_old_rules() {
    let mut state = setup_eth1();
    let a = IpAddress::v4(10, 1, 2, 3);
    let b = IpAddress::v4(10, 1, 2, 9);
    let gw = IpAddress::v4(10, 1, 2, 1);
    reconcile(&mut state, 7, &vec![a], Some(gw));
    let actions = reconcile(&mut state, 7, &vec![b], Some(gw));
    assert_eq!(
        actions,
        vec![
            RouteAction::RemoveRules { address: a, table: 207 },
            RouteAction::AddRuleFrom { address: b, table: 207 },
            RouteAction::AddRuleTo { address: b, table: 207 },
        ]
    );
}

#[test]
fn removing_a_link_purges_its_rules_and_routes() {
    let mut state = setup_eth1();
    let a = IpAddress::v4(10, 1, 2, 3);
    let other = IpAddress::v4(172, 16, 0, 2);
    let gw = IpAddress::v4(10, 1, 2, 1);
    reconcile(&mut state, 7, &vec![a], Some(gw));
    state.add_link("eth2".to_string(), 8);
    reconcile(&mut state, 8, &vec![other], Some(IpAddress::v4(172, 16, 0, 1)));
    state.remove_link(7);
    assert!(!state.has_route(7, 207));
    assert!(!state.has_routing_rules(&a));
    assert!(state.has_routing_rules(&other));
    assert!(state.has_route(8, 208));
    assert_eq!(state.get_link_index("eth1"), None);
}

#[test]
fn gateway_discovery_skips_other_routes() {
    let gw = IpAddress::v4(10, 1, 2, 1);
    let routes = vec![
        RouteRecord { destination_prefix_len: 24, output_interface: Some(7), gateway: Some(gw), table: MAIN_TABLE },
        RouteRecord { destination_prefix_len: 0, output_interface: Some(8), gateway: Some(gw), table: MAIN_TABLE },
        RouteRecord { destination_prefix_len: 0, output_interface: Some(7), gateway: Some(gw), table: 207 },
        RouteRecord { destination_prefix_len: 0, output_interface: Some(7), gateway: None, table: MAIN_TABLE },
    ];
    assert_eq!(discover_gateway(&routes, 7), None);
}

#[test]
fn ipv6_addresses_get_rules_too() {
    let mut state = setup_eth1();
    let a = IpAddress::v6([0x2001, 0xdb8, 0, 0, 0, 0, 0, 5]);
    let gw = IpAddress::v6([0xfe80, 0, 0, 0, 0, 0, 0, 1]);
    let actions = reconcile(&mut state, 7, &vec![a], Some(gw));
    assert_eq!(actions.len(), 3);
    assert_eq!(state.rule_from_table(&a), Some(207));
}

#[test]
fn rule_and_route_selection() {
    let a = IpAddress::v4(10, 1, 2, 3);
    let other = IpAddress::v4(10, 1, 2, 4);
    let by_attr = RuleRecord { table_attribute: Some(207), header_table: 252, source: Some(a), destination: None };
    assert!(rule_matches(&by_attr, a, 207));
    assert!(!rule_matches(&by_attr, other, 207));
    assert!(!rule_matches(&by_attr, a, 208));
    let by_header = RuleRecord { table_attribute: None, header_table: 207, source: None, destination: Some(a) };
    assert!(rule_matches(&by_header, a, 207));
    assert_eq!(resolve_table(Some(1000), 252), 1000);
    assert_eq!(resolve_table(None, 254), 254);
    let r = RouteRecord { destination_prefix_len: 0, output_interface: Some(7), gateway: None, table: 207 };
    assert!(route_selected(&r, 7, 207));
    assert!(!route_selected(&r, 8, 207));
}

#[test]
fn unknown_gateway_leaves_state_unchanged() {
    let mut state = setup_eth1();
    let old = IpAddress::v4(0, 0, 0, 1);
    let new = IpAddress::v4(0, 0, 0, 2);
    state.add_route(7, 207, Some(IpAddress::v4(10, 1, 2, 1)));
    state.add_routing_rule_from(old, 207);
    state.add_routing_rule_to(old, 207);
    let actions = reconcile(&mut state, 7, &vec![new], None);
    assert!(actions.is_empty());
    assert_eq!(state.rule_from_table(&old), Some(207));
    assert_eq!(state.rule_to_table(&old), Some(207));
    assert!(!state.has_routing_rules(&new));
}

#[test]
fn emptied_interface_removes_recorded_route_once() {
    let mut state = NetworkState::new();
    assert!(reconcile(&mut state, 7, &vec![], None).is_empty());
    state.add_route(7, 207, Some(IpAddress::v4(10, 1, 2, 1)));
    assert_eq!(
        plan_reconcile(&state, 7, &vec![], None),
        vec![RouteAction::RemoveRoute { ifindex: 7, table: 207 }]
    );
    assert_eq!(reconcile(&mut state, 7, &vec![], None), vec![RouteAction::RemoveRoute { ifindex: 7, table: 207 }]);
    assert!(reconcile(&mut state, 7, &vec![], None).is_empty());
}

#[test]
fn plan_changes_nothing_and_matches_commit() {
    let mut state = setup_eth1();
    let a = IpAddress::v4(10, 1, 2, 3);
    let gw = IpAddress::v4(10, 1, 2, 1);
    let planned = plan_reconcile(&state, 7, &vec![a, a], Some(gw));
    assert!(!state.has_route(7, 207));
    assert!(!state.has_routing_rules(&a));
    assert_eq!(
        planned,
        vec![
            RouteAction::AddRoute { ifindex: 7, gateway: gw, table: 207 },
            RouteAction::AddRuleFrom { address: a, table: 207 },
            RouteAction::AddRuleTo { address: a, table: 207 },
        ]
    );
    let committed = reconcile(&mut state, 7, &vec![a, a], Some(gw));
    assert_eq!(committed, planned);
    assert!(plan_reconcile(&state, 7, &vec![a], Some(gw)).is_empty());
}

#[test]
fn main_and_local_tables_are_never_written() {
    let mut state = NetworkState::new();
    let a = IpAddress::v4(10, 9, 9, 9);
    let gw = IpAddress::v4(10, 9, 9, 1);
    assert_eq!(calculate_table_id(54), 254);
    assert!(reconcile(&mut state, 54, &vec![a], Some(gw)).is_empty());
    assert!(reconcile(&mut state, 55, &vec![], None).is_empty());
    assert!(plan_reconcile(&state, 54, &vec![a], Some(gw)).is_empty());
    assert!(!state.has_routing_rules(&a));
    assert_eq!(reconcile(&mut state, 56, &vec![a], Some(gw)).len(), 3);
}

#[test]
fn emptied_interface_keeps_rules_of_other_tables() {
    let mut state = setup_eth1();
    let a = IpAddress::v4(10, 1, 2, 3);
    state.add_route(7, 207, Some(IpAddress::v4(10, 1, 2, 1)));
    state.add_routing_rule_from(a, 207);
    state.add_routing_rule_to(a, 300);
    let actions = reconcile(&mut state, 7, &vec![], None);
    assert_eq!(
        actions,
        vec![
            RouteAction::RemoveRules { address: a, table: 207 },
            RouteAction::RemoveRoute { ifindex: 7, table: 207 },
        ]
    );
    assert_eq!(state.rule_from_table(&a), None);
    assert_eq!(state.rule_to_table(&a), Some(300));
}
