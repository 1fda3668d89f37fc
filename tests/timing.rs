use netevd::timing::{bus_retry_delay, next_restart_delay, LeaseDebounce, RESTART_INITIAL_MS};

#[test]
fn debounce_coalesces_lease_changes() {
    let mut d = LeaseDebounce::new();
    assert!(!d.on_tick());
    d.on_change("/var/lib/dhclient/other.conf");
    assert!(!d.on_tick());
    d.on_change("/var/lib/dhclient/dhclient.leases");
    d.on_change("/var/lib/dhclient/dhclient.leases~");
    assert!(d.on_tick());
    assert!(!d.on_tick());
    d.on_change("/dhclient.leases/x");
    assert!(!d.on_tick());
    d.on_change("dhclient.leases");
    assert!(d.on_tick());
}

#[test]
fn restart_backoff_doubles_to_cap() {
    let mut d = RESTART_INITIAL_MS;
    let mut seen = vec![d];
    for _ in 0..8 {
        d = next_restart_delay(d);
        seen.push(d);
    }
    assert_eq!(seen, vec![500, 1000, 2000, 4000, 8000, 16000, 30000, 30000, 30000]);
    assert_eq!(next_restart_delay(u64::MAX), 30000);
}

#[test]
fn bus_retry_schedule() {
    assert_eq!(bus_retry_delay(1), Some(100));
    assert_eq!(bus_retry_delay(2), Some(400));
    assert_eq!(bus_retry_delay(3), Some(1600));
    assert_eq!(bus_retry_delay(4), None);
    assert_eq!(bus_retry_delay(0), None);
}
