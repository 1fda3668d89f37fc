use netevd::dispatch::link_dns_entries;
use netevd::ip::{ingest_addresses, parse_ip_address, IpAddress};
use netevd::ipv6::{is_global_unicast, is_link_local, is_unique_local, select_source_address};
use netevd::networkd::{
    build_link_describe, get_link_operational_state, is_link_routable, parse_link_state_file,
    parse_manager_state_file,
};

fn v6(g: [u16; 8]) -> u128 {
    match IpAddress::v6(g) {
        IpAddress::V6(x) => x,
        IpAddress::V4(_) => unreachable!(),
    }
}

#[test]
fn test_is_link_local_ipv4() {
    assert!(IpAddress::v4(169, 254, 1, 1).is_link_local());
    assert!(IpAddress::v4(169, 254, 255, 255).is_link_local());
    assert!(!IpAddress::v4(192, 168, 1, 1).is_link_local());
    assert!(!IpAddress::v4(10, 0, 0, 1).is_link_local());
}

#[test]
fn test_is_link_local_ipv6() {
    assert!(IpAddress::v6([0xfe80, 0, 0, 0, 0, 0, 0, 1]).is_link_local());
    assert!(!IpAddress::v6([0x2001, 0xdb8, 0, 0, 0, 0, 0, 1]).is_link_local());
}

#[test]
fn test_is_link_local() {
    assert!(is_link_local(v6([0xfe80, 0, 0, 0, 0, 0, 0, 1])));
    assert!(!is_link_local(v6([0x2001, 0xdb8, 0, 0, 0, 0, 0, 1])));
}

#[test]
fn test_is_unique_local() {
    assert!(is_unique_local(v6([0xfc00, 0, 0, 0, 0, 0, 0, 1])));
    assert!(is_unique_local(v6([0xfd00, 0, 0, 0, 0, 0, 0, 1])));
    assert!(!is_unique_local(v6([0x2001, 0xdb8, 0, 0, 0, 0, 0, 1])));
}

#[test]
fn test_is_global_unicast() {
    assert!(is_global_unicast(v6([0x2001, 0xdb8, 0, 0, 0, 0, 0, 1])));
    assert!(!is_global_unicast(v6([0xfe80, 0, 0, 0, 0, 0, 0, 1])));
    assert!(!is_global_unicast(v6([0xfc00, 0, 0, 0, 0, 0, 0, 1])));
    assert!(!is_global_unicast(1));
    assert!(!is_global_unicast(0));
    assert!(!is_global_unicast(v6([0xff02, 0, 0, 0, 0, 0, 0, 1])));
}

#[test]
fn test_select_source_address() {
    let addresses = vec![
        v6([0xfe80, 0, 0, 0, 0, 0, 0, 1]),
        v6([0x2001, 0xdb8, 0, 0, 0, 0, 0, 1]),
        v6([0xfc00, 0, 0, 0, 0, 0, 0, 1]),
    ];
    assert_eq!(select_source_address(&addresses), Some(v6([0x2001, 0xdb8, 0, 0, 0, 0, 0, 1])));
    let fallback = vec![v6([0xfe80, 0, 0, 0, 0, 0, 0, 1]), v6([0xfd00, 0, 0, 0, 0, 0, 0, 2])];
    assert_eq!(select_source_address(&fallback), Some(v6([0xfd00, 0, 0, 0, 0, 0, 0, 2])));
    assert_eq!(select_source_address(&vec![]), None);
}

#[test]
fn v4_and_v6_values() {
    assert_eq!(IpAddress::v4(10, 1, 2, 3), IpAddress::V4(0x0a010203));
    assert_eq!(v6([0, 0, 0, 0, 0, 0, 0, 1]), 1);
    assert_eq!(v6([0x2001, 0, 0, 0, 0, 0, 0, 0]), 0x2001u128 << 112);
}

#[test]
fn link_local_addresses_never_enter_state() {
    let addrs = vec![
        IpAddress::v4(169, 254, 3, 3),
        IpAddress::v4(10, 0, 0, 2),
        IpAddress::v6([0xfe80, 0, 0, 0, 0, 0, 0, 1]),
        IpAddress::v6([0x2001, 0xdb8, 0, 0, 0, 0, 0, 1]),
    ];
    assert_eq!(
        ingest_addresses(&addrs, false),
        vec![IpAddress::v4(10, 0, 0, 2), IpAddress::v6([0x2001, 0xdb8, 0, 0, 0, 0, 0, 1])]
    );
    assert_eq!(ingest_addresses(&addrs, true), vec![IpAddress::v4(10, 0, 0, 2)]);
}

const LINK_FILE: &str = "[ADMIN_STATE]\nAdminState=configured\n\n[OPER_STATE]\nOperationalState=routable\nCarrierState=carrier\n\n[DNS]\nDNS0=8.8.8.8\nDNS1=1.1.1.1\n\n[DOMAINS]\nDomain0=example.com\n\n[ROUTE]\nGateway=10.0.0.1\n";

#[test]
fn link_state_file() {
    let st = parse_link_state_file(LINK_FILE).unwrap();
    assert_eq!(st.admin_state, "configured");
    assert_eq!(st.oper_state, "routable");
    assert_eq!(st.carrier_state, "carrier");
    assert_eq!(st.address_state, "");
    assert_eq!(st.dns, vec!["8.8.8.8", "1.1.1.1"]);
    assert_eq!(st.domains, vec!["example.com"]);
    assert_eq!(st.gateway, Some("10.0.0.1".to_string()));
    assert_eq!(st.gateway6, None);
    assert_eq!(get_link_operational_state(LINK_FILE), "routable");
    assert!(is_link_routable(LINK_FILE));
    assert_eq!(get_link_operational_state(""), "");
    let d = build_link_describe(3, "eth0".to_string(), &st, vec!["10.0.0.5".to_string()]);
    assert_eq!(d.oper_state, Some("routable".to_string()));
    assert_eq!(d.address_state, None);
    assert_eq!(d.addresses, vec!["10.0.0.5"]);
}

#[test]
fn manager_state_file() {
    let st = parse_manager_state_file("[MANAGER_STATE]\nOperationalState=degraded\nOnlineState=partial\n").unwrap();
    assert_eq!(st.operational_state, "degraded");
    assert_eq!(st.online_state, "partial");
    assert_eq!(st.carrier_state, "");
}

#[test]
fn parse_addresses_to_values() {
    assert_eq!(parse_ip_address("10.1.2.3"), Some(IpAddress::V4(0x0a010203)));
    assert_eq!(parse_ip_address("255.255.255.255"), Some(IpAddress::V4(u32::MAX)));
    assert_eq!(parse_ip_address("::1"), Some(IpAddress::V6(1)));
    assert_eq!(parse_ip_address("::"), Some(IpAddress::V6(0)));
    assert_eq!(parse_ip_address("2001:db8::1"), Some(IpAddress::v6([0x2001, 0xdb8, 0, 0, 0, 0, 0, 1])));
    assert_eq!(parse_ip_address("fe80::"), Some(IpAddress::v6([0xfe80, 0, 0, 0, 0, 0, 0, 0])));
    assert_eq!(parse_ip_address("1:2:3:4:5:6:7:8"), Some(IpAddress::v6([1, 2, 3, 4, 5, 6, 7, 8])));
    assert_eq!(parse_ip_address("::ffff:192.168.1.1"), Some(IpAddress::v6([0, 0, 0, 0, 0, 0xffff, 0xc0a8, 0x0101])));
    assert_eq!(parse_ip_address("1:2:3:4:5:6:10.0.0.1"), Some(IpAddress::v6([1, 2, 3, 4, 5, 6, 0x0a00, 1])));
    assert_eq!(parse_ip_address("ABCD::eF"), Some(IpAddress::v6([0xabcd, 0, 0, 0, 0, 0, 0, 0xef])));
    assert_eq!(parse_ip_address("1.2.3"), None);
    assert_eq!(parse_ip_address("1::2::3"), None);
    assert_eq!(parse_ip_address("dns.example"), None);
    assert_eq!(parse_ip_address("2001:db8:0:0:1::1"), Some(IpAddress::v6([0x2001, 0xdb8, 0, 0, 1, 0, 0, 1])));
    assert_eq!(parse_ip_address("1::"), Some(IpAddress::v6([1, 0, 0, 0, 0, 0, 0, 0])));
    assert_eq!(parse_ip_address("a:b:c:d:e:f:1:2"), Some(IpAddress::v6([0xa, 0xb, 0xc, 0xd, 0xe, 0xf, 1, 2])));
    assert_eq!(parse_ip_address("0.0.0.0"), Some(IpAddress::V4(0)));
}

#[test]
fn resolver_entries() {
    let servers = vec!["8.8.4.4".to_string(), "bogus".to_string(), "2001:db8::53".to_string()];
    let entries = link_dns_entries(&servers);
    assert_eq!(entries.len(), 2);
    assert_eq!(entries[0], (2, vec![8, 8, 4, 4]));
    assert_eq!(entries[1].0, 10);
    assert_eq!(entries[1].1, vec![0x20, 0x01, 0x0d, 0xb8, 0, 0, 0, 0, 0, 0, 0, 0, 0, 0, 0, 0x53]);
    assert_eq!(netevd::dispatch::parse_servers(&servers), vec![IpAddress::V4(0x08080404), IpAddress::v6([0x2001, 0xdb8, 0, 0, 0, 0, 0, 0x53])]);
}
