use netevd::lease::{extract_quoted_value, extract_value, find_lease, parse_lease_file, Lease};
use netevd::lease_text::write_lease_file;

#[test]
fn test_extract_value() {
    assert_eq!(
        extract_value("option routers 192.168.1.1;"),
        Some("192.168.1.1".to_string())
    );
    assert_eq!(
        extract_value("fixed-address 10.0.0.5;"),
        Some("10.0.0.5".to_string())
    );
}

#[test]
fn test_extract_quoted_value() {
    assert_eq!(
        extract_quoted_value("interface \"eth0\";"),
        Some("eth0".to_string())
    );
    assert_eq!(
        extract_quoted_value("option domain-name \"example.com\";"),
        Some("example.com".to_string())
    );
}

#[test]
fn test_extract_value_edge_cases() {
    assert_eq!(extract_value("no semicolon"), None);
    assert_eq!(extract_value(""), None);
    assert_eq!(extract_value(";"), None);
}

#[test]
fn test_extract_quoted_value_edge_cases() {
    assert_eq!(extract_quoted_value("no quotes"), None);
    assert_eq!(extract_quoted_value("\"only one quote"), None);
    assert_eq!(extract_quoted_value("\"\""), Some("".to_string()));
}

#[test]
fn test_parse_valid_lease_file() {
    let lease_content = r#"
lease 192.168.1.100 {
  interface "eth0";
  fixed-address 192.168.1.100;
  option subnet-mask 255.255.255.0;
  option routers 192.168.1.1;
  option domain-name-servers 8.8.8.8, 8.8.4.4;
  option domain-name "example.com";
  option host-name "myhost";
}
"#;
    let leases = parse_lease_file(lease_content);

    assert_eq!(leases.len(), 1);
    let lease = find_lease(&leases, "eth0").unwrap();
    assert_eq!(lease.address, "192.168.1.100");
    assert_eq!(lease.subnet_mask, Some("255.255.255.0".to_string()));
    assert_eq!(lease.routers, vec!["192.168.1.1"]);
    assert_eq!(lease.dns_servers, vec!["8.8.8.8", "8.8.4.4"]);
    assert_eq!(lease.domain_name, Some("example.com".to_string()));
    assert_eq!(lease.hostname, Some("myhost".to_string()));
}

#[test]
fn test_parse_multiple_leases() {
    let lease_content = r#"
lease 192.168.1.100 {
  interface "eth0";
  option routers 192.168.1.1;
}

lease 10.0.0.50 {
  interface "eth1";
  option routers 10.0.0.1;
}
"#;
    let leases = parse_lease_file(lease_content);

    assert_eq!(leases.len(), 2);
    assert!(find_lease(&leases, "eth0").is_some());
    assert!(find_lease(&leases, "eth1").is_some());
}

#[test]
fn test_parse_malformed_lease_file() {
    let lease_content = r#"
lease 192.168.1.100 {
  option routers 192.168.1.1;
}
"#;
    let leases = parse_lease_file(lease_content);
    assert_eq!(leases.len(), 0);
}

#[test]
fn test_parse_empty_file() {
    let leases = parse_lease_file("");
    assert_eq!(leases.len(), 0);
}

#[test]
fn test_parse_lease_with_comments() {
    let lease_content = r#"
# Comment line
lease 192.168.1.100 {
  interface "eth0";  # inline comment
  option routers 192.168.1.1;
}
"#;
    let leases = parse_lease_file(lease_content);

    assert_eq!(leases.len(), 1);
    assert!(find_lease(&leases, "eth0").is_some());
}

#[test]
fn test_parse_lease_multiple_dns() {
    let lease_content = r#"
lease 192.168.1.100 {
  interface "eth0";
  option domain-name-servers 8.8.8.8, 8.8.4.4, 1.1.1.1;
}
"#;
    let leases = parse_lease_file(lease_content);

    let lease = find_lease(&leases, "eth0").unwrap();
    assert_eq!(lease.dns_servers.len(), 3);
    assert_eq!(lease.dns_servers, vec!["8.8.8.8", "8.8.4.4", "1.1.1.1"]);
}

#[test]
fn multi_block_file_maps_each_interface_to_its_address() {
    let content = "lease 10.0.0.5 {\n  interface \"eth0\";\n  fixed-address 10.0.0.5;\n}\nlease 192.168.7.9 {\n  interface \"eth1\";\n  fixed-address 192.168.7.9;\n}\n";
    let leases = parse_lease_file(content);
    assert_eq!(leases.len(), 2);
    assert_eq!(find_lease(&leases, "eth0").unwrap().address, "10.0.0.5");
    assert_eq!(find_lease(&leases, "eth1").unwrap().address, "192.168.7.9");
}

#[test]
fn later_block_replaces_earlier_one() {
    let content = "lease 10.0.0.5 {\n interface \"eth0\";\n}\nlease 10.0.0.6 {\n interface \"eth0\";\n option host-name \"h\";\n}\n";
    let leases = parse_lease_file(content);
    assert_eq!(leases.len(), 1);
    let l = find_lease(&leases, "eth0").unwrap();
    assert_eq!(l.address, "10.0.0.6");
    assert_eq!(l.hostname, Some("h".to_string()));
}

#[test]
fn unclosed_block_is_not_kept() {
    let leases = parse_lease_file("lease 10.0.0.5 {\n interface \"eth0\";\n");
    assert_eq!(leases.len(), 0);
}

#[test]
fn extract_value_joins_remaining_words() {
    assert_eq!(
        extract_value("  option domain-name-servers 8.8.8.8, 8.8.4.4;"),
        Some("8.8.8.8, 8.8.4.4".to_string())
    );
    assert_eq!(extract_value("a b c d;e"), Some("c d".to_string()));
}

fn same_leases(a: &Vec<Lease>, b: &Vec<Lease>) -> bool {
    a.len() == b.len()
        && a.iter().all(|x| match find_lease(b, &x.interface) {
            Some(y) => {
                x.address == y.address
                    && x.subnet_mask == y.subnet_mask
                    && x.routers == y.routers
                    && x.dns_servers == y.dns_servers
                    && x.domain_name == y.domain_name
                    && x.hostname == y.hostname
            }
            None => false,
        })
}

#[test]
fn parse_write_parse_keeps_leases() {
    let content = r#"
lease 192.168.1.100 {
  interface "eth0";
  fixed-address 192.168.1.100;
  option subnet-mask 255.255.255.0;
  option routers 192.168.1.1;
  option domain-name-servers 8.8.8.8, 8.8.4.4;
  option domain-name "example.com";
  option host-name "myhost";
}
lease 10.0.0.50 {
  interface "eth1";
  option routers 10.0.0.1, 10.0.0.2;
}
"#;
    let first = parse_lease_file(content);
    let written = write_lease_file(&first);
    let second = parse_lease_file(&written);
    assert_eq!(first.len(), 2);
    assert!(same_leases(&first, &second));
    assert!(written.starts_with("lease 192.168.1.100 {\ninterface \"eth0\";\nfixed-address 192.168.1.100;\n"));
}

#[test]
fn writing_no_leases_gives_an_empty_file() {
    assert_eq!(write_lease_file(&vec![]), "");
}

#[test]
fn lines_are_read_by_their_key() {
    let content = "lease 10.0.0.5 {\n interface \"eth0\";\n fixed-address 10.0.0.5;\n option domain-name \"routers.example\";\n option host-name \"subnet-mask-host\";\n}\n";
    let first = parse_lease_file(content);
    let l = find_lease(&first, "eth0").unwrap();
    assert_eq!(l.domain_name, Some("routers.example".to_string()));
    assert_eq!(l.hostname, Some("subnet-mask-host".to_string()));
    assert!(l.routers.is_empty());
    assert_eq!(l.subnet_mask, None);
    let second = parse_lease_file(&write_lease_file(&first));
    assert!(same_leases(&first, &second));
}
