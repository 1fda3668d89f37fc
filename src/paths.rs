//! Well-known paths.

use vstd::prelude::*;

verus! {

pub const CONFIG_DIR: &'static str = "/etc/netevd";

pub const CONFIG_FILE: &'static str = "/etc/netevd/netevd.yaml";

pub const DHCLIENT_LEASE_PATH: &'static str = "/var/lib/dhclient/dhclient.leases";

pub const SYSTEMD_NETIF_LINKS: &'static str = "/run/systemd/netif/links";

pub const SYSTEMD_NETIF_STATE: &'static str = "/run/systemd/netif/state";

/// The script directory of a state: `<state>.d` under the configuration
/// directory (an absolute name stands for itself, as in a path join).
pub open spec fn script_dir(state: Seq<char>) -> Seq<char> {
    if state.len() > 0 && state[0] == '/' {
        state + ".d"@
    } else {
        CONFIG_DIR@ + "/"@ + state + ".d"@
    }
}

pub fn get_script_dir(state: &str) -> (r: String)
    ensures
        r@ == script_dir(state@),
{
    if state.unicode_len() > 0 && state.get_char(0) == '/' {
        let mut r = String::from_str(state);
        r.append(".d");
        r
    } else {
        let mut r = String::from_str(CONFIG_DIR);
        r.append("/");
        r.append(state);
        r.append(".d");
        r
    }
}

} // verus!
