//! Per-link and manager state files of the network manager: small INI
//! documents, read through configparser.

use vstd::prelude::*;
use crate::dispatch::{decimal, decimal_string};
use crate::lease::{opt_view, strings_view};
use crate::text::str_is;

verus! {

/// Whether configparser accepts a text as an INI document.
pub uninterp spec fn ini_accepts(text: Seq<char>) -> bool;

/// The value configparser gives for a key of a section of a document.
pub uninterp spec fn ini_value(text: Seq<char>, section: Seq<char>, key: Seq<char>) -> Option<
    Seq<char>,
>;

/// Relies on configparser's `Ini::read`, which parses an INI document or
/// refuses it, and `Ini::get`, which gives the value of a key in a section
/// of what was read; both depend on their arguments alone.
#[verifier::external_body]
fn ini_get(text: &str, section: &str, key: &str) -> (r: Option<Option<String>>)
    ensures
        match r {
            Some(v) => ini_accepts(text@) && opt_view(v) == ini_value(text@, section@, key@),
            None => !ini_accepts(text@),
        },
{
    let mut conf = configparser::ini::Ini::new();
    match conf.read(text.to_string()) {
        Ok(_) => Some(conf.get(section, key)),
        Err(_) => None,
    }
}

/// A value, or empty where there is none.
pub open spec fn or_empty(v: Option<Seq<char>>) -> Seq<char> {
    match v {
        Some(s) => s,
        None => Seq::empty(),
    }
}

/// The values of `PREFIX0` to `PREFIX{n-1}` in a section, those present,
/// in order.
pub open spec fn numbered_values(text: Seq<char>, section: Seq<char>, prefix: Seq<char>, n: nat) -> Seq<
    Seq<char>,
>
    decreases n,
{
    if n == 0 {
        Seq::empty()
    } else {
        let before = numbered_values(text, section, prefix, (n - 1) as nat);
        match ini_value(text, section, prefix + decimal((n - 1) as nat)) {
            Some(v) => before.push(v),
            None => before,
        }
    }
}

/// How many numbered DNS servers and domains are read.
pub const MAX_NUMBERED: u32 = 10;

/// State of one link.
pub struct LinkState {
    pub admin_state: String,
    pub oper_state: String,
    pub carrier_state: String,
    pub address_state: String,
    pub ipv4_address_state: String,
    pub ipv6_address_state: String,
    pub online_state: String,
    pub dns: Vec<String>,
    pub domains: Vec<String>,
    pub gateway: Option<String>,
    pub gateway6: Option<String>,
}

/// State of the manager as a whole.
pub struct ManagerState {
    pub operational_state: String,
    pub carrier_state: String,
    pub address_state: String,
    pub ipv4_address_state: String,
    pub ipv6_address_state: String,
    pub online_state: String,
}

/// The value of a key, or empty.
fn field(text: &str, section: &str, key: &str) -> (r: String)
    requires
        ini_accepts(text@),
    ensures
        r@ == or_empty(ini_value(text@, section@, key@)),
{
    match ini_get(text, section, key) {
        Some(Some(v)) => v,
        _ => String::new(),
    }
}

/// The values of the numbered keys `prefix0` .. `prefix9` that are present.
fn numbered(text: &str, section: &str, prefix: &str) -> (r: Vec<String>)
    requires
        ini_accepts(text@),
    ensures
        strings_view(r@) == numbered_values(text@, section@, prefix@, MAX_NUMBERED as nat),
{
    let mut r: Vec<String> = Vec::new();
    let mut i: u32 = 0;
    while i < MAX_NUMBERED
        invariant
            ini_accepts(text@),
            i <= MAX_NUMBERED,
            strings_view(r@) == numbered_values(text@, section@, prefix@, i as nat),
        decreases MAX_NUMBERED - i,
    {
        let mut key = String::from_str(prefix);
        let n = decimal_string(i);
        key.append(n.as_str());
        let ghost pre = r@;
        match ini_get(text, section, key.as_str()) {
            Some(Some(v)) => {
                r.push(v);
                assert(strings_view(r@) =~= strings_view(pre).push(r@.last()@));
            },
            _ => {},
        }
        i = i + 1;
    }
    r
}

/// Reads the state file of a link; `None` when configparser refuses it.
pub fn parse_link_state_file(text: &str) -> (r: Option<LinkState>)
    ensures
        r is None <==> !ini_accepts(text@),
        r matches Some(st) ==> {
            &&& st.admin_state@ == or_empty(ini_value(text@, "ADMIN_STATE"@, "AdminState"@))
            &&& st.oper_state@ == or_empty(ini_value(text@, "OPER_STATE"@, "OperationalState"@))
            &&& st.carrier_state@ == or_empty(ini_value(text@, "OPER_STATE"@, "CarrierState"@))
            &&& st.address_state@ == or_empty(ini_value(text@, "OPER_STATE"@, "AddressState"@))
            &&& st.ipv4_address_state@ == or_empty(
                ini_value(text@, "OPER_STATE"@, "IPv4AddressState"@),
            )
            &&& st.ipv6_address_state@ == or_empty(
                ini_value(text@, "OPER_STATE"@, "IPv6AddressState"@),
            )
            &&& st.online_state@ == or_empty(ini_value(text@, "OPER_STATE"@, "OnlineState"@))
            &&& strings_view(st.dns@) == numbered_values(text@, "DNS"@, "DNS"@, 10)
            &&& strings_view(st.domains@) == numbered_values(text@, "DOMAINS"@, "Domain"@, 10)
            &&& opt_view(st.gateway) == ini_value(text@, "ROUTE"@, "Gateway"@)
            &&& opt_view(st.gateway6) == ini_value(text@, "ROUTE"@, "Gateway6"@)
        },
{
    let admin_state = match ini_get(text, "ADMIN_STATE", "AdminState") {
        None => {
            return None;
        },
        Some(Some(v)) => v,
        Some(None) => String::new(),
    };
    let gateway = match ini_get(text, "ROUTE", "Gateway") {
        Some(v) => v,
        None => None,
    };
    let gateway6 = match ini_get(text, "ROUTE", "Gateway6") {
        Some(v) => v,
        None => None,
    };
    Some(
        LinkState {
            admin_state,
            oper_state: field(text, "OPER_STATE", "OperationalState"),
            carrier_state: field(text, "OPER_STATE", "CarrierState"),
            address_state: field(text, "OPER_STATE", "AddressState"),
            ipv4_address_state: field(text, "OPER_STATE", "IPv4AddressState"),
            ipv6_address_state: field(text, "OPER_STATE", "IPv6AddressState"),
            online_state: field(text, "OPER_STATE", "OnlineState"),
            dns: numbered(text, "DNS", "DNS"),
            domains: numbered(text, "DOMAINS", "Domain"),
            gateway,
            gateway6,
        },
    )
}

/// Reads the manager's state file; `None` when configparser refuses it.
pub fn parse_manager_state_file(text: &str) -> (r: Option<ManagerState>)
    ensures
        r is None <==> !ini_accepts(text@),
        r matches Some(st) ==> {
            &&& st.operational_state@ == or_empty(
                ini_value(text@, "MANAGER_STATE"@, "OperationalState"@),
            )
            &&& st.carrier_state@ == or_empty(ini_value(text@, "MANAGER_STATE"@, "CarrierState"@))
            &&& st.address_state@ == or_empty(ini_value(text@, "MANAGER_STATE"@, "AddressState"@))
            &&& st.ipv4_address_state@ == or_empty(
                ini_value(text@, "MANAGER_STATE"@, "IPv4AddressState"@),
            )
            &&& st.ipv6_address_state@ == or_empty(
                ini_value(text@, "MANAGER_STATE"@, "IPv6AddressState"@),
            )
            &&& st.online_state@ == or_empty(ini_value(text@, "MANAGER_STATE"@, "OnlineState"@))
        },
{
    let operational_state = match ini_get(text, "MANAGER_STATE", "OperationalState") {
        None => {
            return None;
        },
        Some(Some(v)) => v,
        Some(None) => String::new(),
    };
    Some(
        ManagerState {
            operational_state,
            carrier_state: field(text, "MANAGER_STATE", "CarrierState"),
            address_state: field(text, "MANAGER_STATE", "AddressState"),
            ipv4_address_state: field(text, "MANAGER_STATE", "IPv4AddressState"),
            ipv6_address_state: field(text, "MANAGER_STATE", "IPv6AddressState"),
            online_state: field(text, "MANAGER_STATE", "OnlineState"),
        },
    )
}

/// The operational state a link's state file gives; `unknown` when the
/// file cannot be read.
pub open spec fn operational_state(text: Seq<char>) -> Seq<char> {
    if ini_accepts(text) {
        or_empty(ini_value(text, "OPER_STATE"@, "OperationalState"@))
    } else {
        "unknown"@
    }
}

/// The operational state of a link, from the text of its state file.
pub fn get_link_operational_state(text: &str) -> (r: String)
    ensures
        r@ == operational_state(text@),
{
    match parse_link_state_file(text) {
        Some(st) => st.oper_state,
        None => String::from_str("unknown"),
    }
}

/// Whether a link's state file says it is routable.
pub fn is_link_routable(text: &str) -> (r: bool)
    ensures
        r == (operational_state(text@) == "routable"@),
{
    let st = get_link_operational_state(text);
    str_is(st.as_str(), "routable")
}

/// What is reported of a link: its states where known, its name servers,
/// domains, addresses and gateways.
pub struct LinkDescribe {
    pub ifindex: u32,
    pub ifname: String,
    pub admin_state: Option<String>,
    pub oper_state: Option<String>,
    pub carrier_state: Option<String>,
    pub address_state: Option<String>,
    pub ipv4_address_state: Option<String>,
    pub ipv6_address_state: Option<String>,
    pub online_state: Option<String>,
    pub dns: Vec<String>,
    pub domains: Vec<String>,
    pub addresses: Vec<String>,
    pub gateway: Option<String>,
    pub gateway6: Option<String>,
}

/// A state, unless it is empty.
pub open spec fn known(s: Seq<char>) -> Option<Seq<char>> {
    if s.len() == 0 {
        None
    } else {
        Some(s)
    }
}

fn known_state(s: &String) -> (r: Option<String>)
    ensures
        opt_view(r) == known(s@),
{
    if s.as_str().is_empty() {
        None
    } else {
        Some(s.clone())
    }
}

fn copy_opt(o: &Option<String>) -> (r: Option<String>)
    ensures
        opt_view(r) == opt_view(*o),
{
    match o {
        Some(s) => Some(s.clone()),
        None => None,
    }
}

/// The description of a link from its state and addresses.
pub fn build_link_describe(
    ifindex: u32,
    ifname: String,
    link_state: &LinkState,
    addresses: Vec<String>,
) -> (r: LinkDescribe)
    ensures
        r.ifindex == ifindex,
        r.ifname@ == ifname@,
        opt_view(r.admin_state) == known(link_state.admin_state@),
        opt_view(r.oper_state) == known(link_state.oper_state@),
        opt_view(r.carrier_state) == known(link_state.carrier_state@),
        opt_view(r.address_state) == known(link_state.address_state@),
        opt_view(r.ipv4_address_state) == known(link_state.ipv4_address_state@),
        opt_view(r.ipv6_address_state) == known(link_state.ipv6_address_state@),
        opt_view(r.online_state) == known(link_state.online_state@),
        r.dns@ == link_state.dns@,
        r.domains@ == link_state.domains@,
        r.addresses@ == addresses@,
        opt_view(r.gateway) == opt_view(link_state.gateway),
        opt_view(r.gateway6) == opt_view(link_state.gateway6),
{
    LinkDescribe {
        ifindex,
        ifname,
        admin_state: known_state(&link_state.admin_state),
        oper_state: known_state(&link_state.oper_state),
        carrier_state: known_state(&link_state.carrier_state),
        address_state: known_state(&link_state.address_state),
        ipv4_address_state: known_state(&link_state.ipv4_address_state),
        ipv6_address_state: known_state(&link_state.ipv6_address_state),
        online_state: known_state(&link_state.online_state),
        dns: crate::config::copy_strings(&link_state.dns),
        domains: crate::config::copy_strings(&link_state.domains),
        addresses,
        gateway: copy_opt(&link_state.gateway),
        gateway6: copy_opt(&link_state.gateway6),
    }
}

} // verus!
