//! Dispatch of events to hook scripts and name services: the environment
//! handed to scripts, its validation, state deduplication, and what to do
//! for a link-state or lease event.

use vstd::prelude::*;
use vstd::hash_map::HashMapWithView;
use crate::config::Config;
use crate::filters::{collect_scripts, decide, run_filters, scripts_for, NetworkEvent};
use crate::ip::{ip_value, parse_ip_address, IpAddress};
use crate::lease::{opt_view, strings_view, Lease};
use crate::paths::{get_script_dir, script_dir};
use crate::text::{chars_of, is_digit, join_space, str_is};
use crate::validation::{
    safe_env_value, sanitize_env_value, valid_domain_name, valid_hostname, valid_interface_name,
    valid_ip_list, valid_state_name, validate_domain_name, validate_hostname,
    validate_interface_name, validate_ip_list, validate_state_name,
};

verus! {

broadcast use vstd::std_specs::hash::group_hash_axioms;

/// The decimal digits of `n`.
pub open spec fn decimal(n: nat) -> Seq<char>
    decreases n,
{
    if n < 10 {
        seq![(n + '0' as nat) as char]
    } else {
        decimal(n / 10).push(((n % 10) + '0' as nat) as char)
    }
}

/// The digit of `d`.
fn digit_string(d: u32) -> (r: String)
    requires
        d < 10,
    ensures
        r@ == seq![(d + '0' as nat) as char],
{
    let digits = "0123456789";
    proof {
        reveal_strlit("0123456789");
    }
    let r = String::from_str(digits.substring_char(d as usize, d as usize + 1));
    assert(r@ =~= seq![(d + '0' as nat) as char]);
    r
}

/// `n` in decimal, as `to_string` writes it.
pub fn decimal_string(n: u32) -> (r: String)
    ensures
        r@ == decimal(n as nat),
    decreases n,
{
    if n < 10 {
        digit_string(n)
    } else {
        let mut r = decimal_string(n / 10);
        let d = digit_string(n % 10);
        r.append(d.as_str());
        assert(r@ =~= decimal(n as nat));
        r
    }
}

/// Whether a script may receive `key=value`: names, host and domain names,
/// address lists and state names are checked by their own rules, an index
/// must be digits, anything else must hold no shell metacharacter.
pub open spec fn env_accepted(key: Seq<char>, value: Seq<char>) -> bool {
    if key == "LINK"@ {
        valid_interface_name(value)
    } else if key == "DHCP_HOSTNAME"@ || key == "HOSTNAME"@ {
        valid_hostname(value)
    } else if key == "DHCP_DOMAIN"@ || key == "DOMAIN"@ {
        valid_domain_name(value)
    } else if key == "DHCP_ADDRESS"@ || key == "ADDRESSES"@ || key == "DHCP_DNS"@ || key
        == "DNS"@ || key == "DHCP_GATEWAY"@ {
        valid_ip_list(value)
    } else if key == "STATE"@ {
        valid_state_name(value)
    } else if key == "LINKINDEX"@ {
        forall|i: int| 0 <= i < value.len() ==> is_digit(#[trigger] value[i])
    } else {
        safe_env_value(value)
    }
}

fn all_digits_str(value: &str) -> (r: bool)
    ensures
        r == forall|i: int| 0 <= i < value@.len() ==> is_digit(#[trigger] value@[i]),
{
    let cs = chars_of(value);
    let mut i: usize = 0;
    while i < cs.len()
        invariant
            cs@ == value@,
            i <= cs@.len(),
            forall|j: int| 0 <= j < i ==> is_digit(#[trigger] cs@[j]),
        decreases cs.len() - i,
    {
        if !crate::text::digit(cs[i]) {
            return false;
        }
        i = i + 1;
    }
    true
}

/// Whether a script may receive `key=value`.
pub fn validate_env_var(key: &str, value: &str) -> (r: bool)
    ensures
        r == env_accepted(key@, value@),
{
    if str_is(key, "LINK") {
        validate_interface_name(value)
    } else if str_is(key, "DHCP_HOSTNAME") || str_is(key, "HOSTNAME") {
        validate_hostname(value)
    } else if str_is(key, "DHCP_DOMAIN") || str_is(key, "DOMAIN") {
        validate_domain_name(value)
    } else if str_is(key, "DHCP_ADDRESS") || str_is(key, "ADDRESSES") || str_is(key, "DHCP_DNS")
        || str_is(key, "DNS") || str_is(key, "DHCP_GATEWAY") {
        validate_ip_list(value)
    } else if str_is(key, "STATE") {
        validate_state_name(value)
    } else if str_is(key, "LINKINDEX") {
        all_digits_str(value)
    } else {
        sanitize_env_value(value).is_some()
    }
}

/// The variables that pass validation, in order.
pub open spec fn accepted_vars(vars: Seq<(String, String)>) -> Seq<(String, String)>
    decreases vars.len(),
{
    if vars.len() == 0 {
        vars
    } else if env_accepted(vars.last().0@, vars.last().1@) {
        accepted_vars(vars.drop_last()).push(vars.last())
    } else {
        accepted_vars(vars.drop_last())
    }
}

/// A variable reaches the scripts exactly when it was given and passes
/// validation.
pub proof fn accepted_vars_are_the_valid_ones(vars: Seq<(String, String)>, p: (String, String))
    ensures
        accepted_vars(vars).contains(p) <==> (vars.contains(p) && env_accepted(p.0@, p.1@)),
    decreases vars.len(),
{
    if vars.len() > 0 {
        accepted_vars_are_the_valid_ones(vars.drop_last(), p);
        crate::text::lemma_push_contains(accepted_vars(vars.drop_last()), vars.last());
        crate::text::lemma_push_contains(vars.drop_last(), vars.last());
        assert(vars.drop_last().push(vars.last()) =~= vars);
    }
}

/// Drops every variable that fails validation; the others are kept, in
/// order.
pub fn sanitize_environment(vars: &Vec<(String, String)>) -> (r: Vec<(String, String)>)
    ensures
        r@ == accepted_vars(vars@),
{
    let mut r: Vec<(String, String)> = Vec::new();
    let mut i: usize = 0;
    while i < vars.len()
        invariant
            i <= vars@.len(),
            r@ == accepted_vars(vars@.subrange(0, i as int)),
        decreases vars.len() - i,
    {
        assert(vars@.subrange(0, i + 1).drop_last() =~= vars@.subrange(0, i as int));
        let (k, v) = &vars[i];
        if validate_env_var(k.as_str(), v.as_str()) {
            r.push((k.clone(), v.clone()));
        }
        i = i + 1;
    }
    assert(vars@.subrange(0, vars@.len() as int) =~= vars@);
    r
}

pub open spec fn pairs_view(v: Seq<(String, String)>) -> Seq<(Seq<char>, Seq<char>)> {
    v.map_values(|p: (String, String)| (p.0@, p.1@))
}

/// The strings joined with one space between each two.
pub fn join_strings(v: &Vec<String>) -> (r: String)
    ensures
        r@ == join_space(strings_view(v@)),
{
    let mut r = String::new();
    if v.len() == 0 {
        return r;
    }
    r.append(v[0].as_str());
    let mut k: usize = 1;
    while k < v.len()
        invariant
            1 <= k <= v@.len(),
            r@ == join_space(strings_view(v@.subrange(0, k as int))),
        decreases v.len() - k,
    {
        proof {
            reveal_strlit(" ");
        }
        r.append(" ");
        r.append(v[k].as_str());
        assert(strings_view(v@.subrange(0, k + 1)).drop_last() =~= strings_view(
            v@.subrange(0, k as int),
        ));
        assert(r@ =~= join_space(strings_view(v@.subrange(0, k + 1))));
        k = k + 1;
    }
    assert(v@.subrange(0, v@.len() as int) =~= v@);
    r
}

fn var(k: &str, v: String) -> (r: (String, String))
    ensures
        r.0@ == k@,
        r.1@ == v@,
{
    (String::from_str(k), v)
}

/// The environment of the scripts run for a lease.
pub open spec fn lease_env(l: crate::lease::LeaseView, ifindex: u32) -> Seq<(Seq<char>, Seq<char>)> {
    let base = seq![
        ("LINK"@, l.interface),
        ("LINKINDEX"@, decimal(ifindex as nat)),
        ("STATE"@, "routable"@),
        ("BACKEND"@, "dhclient"@),
        ("ADDRESSES"@, l.address),
        ("DHCP_ADDRESS"@, l.address),
    ];
    let e1 = match l.subnet_mask {
        Some(m) => base.push(("DHCP_SUBNET_MASK"@, m)),
        None => base,
    };
    let e2 = if l.routers.len() > 0 {
        e1.push(("DHCP_GATEWAY"@, join_space(l.routers)))
    } else {
        e1
    };
    let e3 = if l.dns_servers.len() > 0 {
        e2.push(("DHCP_DNS"@, join_space(l.dns_servers)))
    } else {
        e2
    };
    let e4 = match l.domain_name {
        Some(d) => e3.push(("DHCP_DOMAIN"@, d)),
        None => e3,
    };
    match l.hostname {
        Some(h) => e4.push(("DHCP_HOSTNAME"@, h)),
        None => e4,
    }
}

fn clone_opt(o: &Option<String>) -> (r: Option<String>)
    ensures
        opt_view(r) == opt_view(*o),
{
    match o {
        Some(s) => Some(s.clone()),
        None => None,
    }
}

/// The environment of the scripts run for a lease of interface `ifindex`.
pub fn lease_environment(lease: &Lease, ifindex: u32) -> (r: Vec<(String, String)>)
    ensures
        pairs_view(r@) == lease_env(lease@, ifindex),
{
    let ghost l = lease@;
    let mut r: Vec<(String, String)> = Vec::new();
    r.push(var("LINK", lease.interface.clone()));
    r.push(var("LINKINDEX", decimal_string(ifindex)));
    r.push(var("STATE", String::from_str("routable")));
    r.push(var("BACKEND", String::from_str("dhclient")));
    r.push(var("ADDRESSES", lease.address.clone()));
    r.push(var("DHCP_ADDRESS", lease.address.clone()));
    let ghost base = pairs_view(r@);
    match clone_opt(&lease.subnet_mask) {
        Some(m) => r.push(var("DHCP_SUBNET_MASK", m)),
        None => {},
    }
    let ghost e1 = pairs_view(r@);
    if lease.routers.len() > 0 {
        r.push(var("DHCP_GATEWAY", join_strings(&lease.routers)));
    }
    let ghost e2 = pairs_view(r@);
    if lease.dns_servers.len() > 0 {
        r.push(var("DHCP_DNS", join_strings(&lease.dns_servers)));
    }
    let ghost e3 = pairs_view(r@);
    match clone_opt(&lease.domain_name) {
        Some(d) => r.push(var("DHCP_DOMAIN", d)),
        None => {},
    }
    let ghost e4 = pairs_view(r@);
    match clone_opt(&lease.hostname) {
        Some(h) => r.push(var("DHCP_HOSTNAME", h)),
        None => {},
    }
    assert(pairs_view(r@) =~= lease_env(l, ifindex));
    r
}

/// The environment of the scripts run for a link-state event.
pub open spec fn link_env(
    name: Seq<char>,
    ifindex: u32,
    state: Seq<char>,
    addresses: Seq<Seq<char>>,
    json: Option<Seq<char>>,
) -> Seq<(Seq<char>, Seq<char>)> {
    let base = seq![
        ("LINK"@, name),
        ("LINKINDEX"@, decimal(ifindex as nat)),
        ("STATE"@, state),
        ("BACKEND"@, "systemd-networkd"@),
        ("ADDRESSES"@, join_space(addresses)),
    ];
    match json {
        Some(j) => base.push(("JSON"@, j)),
        None => base,
    }
}

/// The environment of the scripts run for a link-state event.
pub fn link_environment(
    name: &str,
    ifindex: u32,
    state: &str,
    addresses: &Vec<String>,
    json: Option<String>,
) -> (r: Vec<(String, String)>)
    ensures
        pairs_view(r@) == link_env(name@, ifindex, state@, strings_view(addresses@), opt_view(json)),
{
    let mut r: Vec<(String, String)> = Vec::new();
    r.push(var("LINK", String::from_str(name)));
    r.push(var("LINKINDEX", decimal_string(ifindex)));
    r.push(var("STATE", String::from_str(state)));
    r.push(var("BACKEND", String::from_str("systemd-networkd")));
    r.push(var("ADDRESSES", join_strings(addresses)));
    let ghost base = pairs_view(r@);
    match json {
        Some(j) => r.push(var("JSON", j)),
        None => {},
    }
    assert(pairs_view(r@) =~= link_env(
        name@,
        ifindex,
        state@,
        strings_view(addresses@),
        opt_view(json),
    ));
    r
}

/// The environment of the scripts run for a route change.
pub open spec fn route_env(name: Seq<char>, ifindex: u32, event: Seq<char>) -> Seq<(Seq<char>, Seq<char>)> {
    seq![
        ("LINK"@, name),
        ("LINKINDEX"@, decimal(ifindex as nat)),
        ("EVENT"@, event),
        ("STATE"@, "routes"@),
    ]
}

/// The environment of the scripts run for a route change (`event` is
/// `new` or `del`).
pub fn route_environment(name: &str, ifindex: u32, event: &str) -> (r: Vec<(String, String)>)
    ensures
        pairs_view(r@) == route_env(name@, ifindex, event@),
{
    let mut r: Vec<(String, String)> = Vec::new();
    r.push(var("LINK", String::from_str(name)));
    r.push(var("LINKINDEX", decimal_string(ifindex)));
    r.push(var("EVENT", String::from_str(event)));
    r.push(var("STATE", String::from_str("routes")));
    assert(pairs_view(r@) =~= route_env(name@, ifindex, event@));
    r
}

/// The last operational state seen of each link.
pub struct StateTracker {
    pub last_states: HashMapWithView<u32, String>,
}

impl StateTracker {
    pub open spec fn seen(&self) -> Map<u32, Seq<char>> {
        self.last_states@.map_values(|s: String| s@)
    }

    pub fn new() -> (r: StateTracker)
        ensures
            r.seen() == Map::<u32, Seq<char>>::empty(),
    {
        let r = StateTracker { last_states: HashMapWithView::new() };
        assert(r.seen() =~= Map::<u32, Seq<char>>::empty());
        r
    }

    /// Records `state` for `ifindex`; tells whether it differs from the
    /// state last seen there (the first state of a link always does).
    pub fn observe(&mut self, ifindex: u32, state: &str) -> (changed: bool)
        ensures
            changed == !(old(self).seen().contains_key(ifindex) && old(self).seen()[ifindex]
                == state@),
            final(self).seen() == old(self).seen().insert(ifindex, state@),
    {
        let ghost m0 = self.seen();
        let same = match self.last_states.get(&ifindex) {
            Some(last) => str_is(last.as_str(), state),
            None => false,
        };
        if same {
            assert(m0.insert(ifindex, state@) =~= m0);
            return false;
        }
        self.last_states.insert(ifindex, String::from_str(state));
        assert(self.seen() =~= m0.insert(ifindex, state@));
        true
    }
}

/// What to do for a link-state event: the scripts to run (those of the
/// matching filters, else the state's directory), and what to forward to
/// the name services.
pub struct LinkDispatch {
    pub run_scripts: bool,
    pub scripts: Vec<String>,
    pub script_dir: Option<String>,
    pub dns: Vec<String>,
    pub domains: Vec<String>,
    pub hostname: Option<String>,
}

/// Plans the dispatch of a link-state event whose link reports `dns` and
/// `domains`. An event the filters ignore, or one without a state, runs
/// nothing and forwards nothing.
pub fn plan_link_dispatch(
    config: &Config,
    event: &NetworkEvent,
    dns: &Vec<String>,
    domains: &Vec<String>,
) -> (r: LinkDispatch)
    ensures
        r.run_scripts == (event.event_type@.len() > 0 && decide(config.filters@, *event)),
        r.run_scripts ==> strings_view(r.scripts@) == scripts_for(config.filters@, *event),
        !r.run_scripts ==> r.scripts@.len() == 0,
        opt_view(r.script_dir) == (if r.run_scripts && r.scripts@.len() == 0 && valid_state_name(
            event.event_type@,
        ) {
            Some(script_dir(event.event_type@))
        } else {
            None::<Seq<char>>
        }),
        r.dns@ == (if r.run_scripts && config.backends.dhclient.use_dns {
            dns@
        } else {
            Seq::<String>::empty()
        }),
        r.domains@ == (if r.run_scripts && config.backends.dhclient.use_domain {
            domains@
        } else {
            Seq::<String>::empty()
        }),
        opt_view(r.hostname) == (if r.run_scripts && config.backends.dhclient.use_hostname
            && domains@.len() > 0 {
            Some(domains@[0]@)
        } else {
            None::<Seq<char>>
        }),
{
    let run = event.event_type.as_str().unicode_len() > 0 && run_filters(&config.filters, event);
    if !run {
        return LinkDispatch {
            run_scripts: false,
            scripts: Vec::new(),
            script_dir: None,
            dns: Vec::new(),
            domains: Vec::new(),
            hostname: None,
        };
    }
    let scripts = collect_scripts(&config.filters, event);
    let script_dir = if scripts.len() == 0 && validate_state_name(event.event_type.as_str()) {
        Some(get_script_dir(event.event_type.as_str()))
    } else {
        None
    };
    let dns_out = if config.backends.dhclient.use_dns {
        crate::config::copy_strings(dns)
    } else {
        Vec::new()
    };
    let domains_out = if config.backends.dhclient.use_domain {
        crate::config::copy_strings(domains)
    } else {
        Vec::new()
    };
    let hostname = if config.backends.dhclient.use_hostname && domains.len() > 0 {
        Some(domains[0].clone())
    } else {
        None
    };
    LinkDispatch {
        run_scripts: true,
        scripts,
        script_dir,
        dns: dns_out,
        domains: domains_out,
        hostname,
    }
}

/// What to do for a lease: what to forward to the name services, the
/// scripts' environment and directory.
pub struct LeaseDispatch {
    pub dns: Vec<String>,
    pub domains: Vec<String>,
    pub hostname: Option<String>,
    pub env: Vec<(String, String)>,
    pub script_dir: String,
}

/// Plans the dispatch of a lease of interface `ifindex`.
pub fn plan_lease_dispatch(config: &Config, lease: &Lease, ifindex: u32) -> (r: LeaseDispatch)
    ensures
        r.dns@ == (if config.backends.dhclient.use_dns {
            lease.dns_servers@
        } else {
            Seq::<String>::empty()
        }),
        strings_view(r.domains@) == (match (config.backends.dhclient.use_domain, opt_view(
            lease.domain_name,
        )) {
            (true, Some(d)) => seq![d],
            _ => Seq::<Seq<char>>::empty(),
        }),
        opt_view(r.hostname) == (if config.backends.dhclient.use_hostname {
            opt_view(lease.hostname)
        } else {
            None::<Seq<char>>
        }),
        pairs_view(r.env@) == lease_env(lease@, ifindex),
        r.script_dir@ == script_dir("routable"@),
{
    let dns = if config.backends.dhclient.use_dns {
        crate::config::copy_strings(&lease.dns_servers)
    } else {
        Vec::new()
    };
    let mut domains: Vec<String> = Vec::new();
    if config.backends.dhclient.use_domain {
        match &lease.domain_name {
            Some(d) => domains.push(d.clone()),
            None => {},
        }
    }
    assert(strings_view(domains@) =~= (match (config.backends.dhclient.use_domain, opt_view(
        lease.domain_name,
    )) {
        (true, Some(d)) => seq![d],
        _ => Seq::<Seq<char>>::empty(),
    }));
    let hostname = if config.backends.dhclient.use_hostname {
        clone_opt(&lease.hostname)
    } else {
        None
    };
    LeaseDispatch {
        dns,
        domains,
        hostname,
        env: lease_environment(lease, ifindex),
        script_dir: get_script_dir("routable"),
    }
}

/// Address family numbers the resolver takes.
pub const AF_INET: i32 = 2;

pub const AF_INET6: i32 = 10;

/// The network-order bytes of an address.
pub open spec fn address_bytes(a: IpAddress) -> Seq<u8> {
    match a {
        IpAddress::V4(x) => Seq::new(4, |i: int| (x >> ((8 * (3 - i)) as u32)) as u8),
        IpAddress::V6(x) => Seq::new(16, |i: int| (x >> ((8 * (15 - i)) as u128)) as u8),
    }
}

/// The family and bytes the resolver takes for an address.
pub open spec fn dns_entry(a: IpAddress) -> (i32, Seq<u8>) {
    match a {
        IpAddress::V4(_) => (AF_INET, address_bytes(a)),
        IpAddress::V6(_) => (AF_INET6, address_bytes(a)),
    }
}

/// The views of a prefix one longer: the shorter prefix, then the next.
proof fn lemma_strings_prefix(v: Seq<String>, i: int)
    requires
        0 <= i < v.len(),
    ensures
        strings_view(v.subrange(0, i + 1)).len() == i + 1,
        strings_view(v.subrange(0, i + 1)).drop_last() == strings_view(v.subrange(0, i)),
        strings_view(v.subrange(0, i + 1)).last() == v[i]@,
{
    assert(strings_view(v.subrange(0, i + 1)).drop_last() =~= strings_view(v.subrange(0, i)));
}

/// The entries of the servers that are addresses, in order; the others are
/// passed over.
pub open spec fn dns_entries(servers: Seq<Seq<char>>) -> Seq<(i32, Seq<u8>)>
    decreases servers.len(),
{
    if servers.len() == 0 {
        Seq::empty()
    } else {
        match ip_value(servers.last()) {
            Some(a) => dns_entries(servers.drop_last()).push(dns_entry(a)),
            None => dns_entries(servers.drop_last()),
        }
    }
}

fn address_octets(a: IpAddress) -> (r: Vec<u8>)
    ensures
        r@ == address_bytes(a),
{
    let mut r: Vec<u8> = Vec::new();
    match a {
        IpAddress::V4(x) => {
            let mut i: u32 = 0;
            while i < 4
                invariant
                    i <= 4,
                    r@ == Seq::new(i as nat, |j: int| (x >> ((8 * (3 - j)) as u32)) as u8),
                decreases 4 - i,
            {
                r.push((x >> (8 * (3 - i))) as u8);
                i = i + 1;
                assert(r@ =~= Seq::new(i as nat, |j: int| (x >> ((8 * (3 - j)) as u32)) as u8));
            }
        },
        IpAddress::V6(x) => {
            let mut i: u128 = 0;
            while i < 16
                invariant
                    i <= 16,
                    r@ == Seq::new(i as nat, |j: int| (x >> ((8 * (15 - j)) as u128)) as u8),
                decreases 16 - i,
            {
                r.push((x >> (8 * (15 - i))) as u8);
                i = i + 1;
                assert(r@ =~= Seq::new(i as nat, |j: int| (x >> ((8 * (15 - j)) as u128)) as u8));
            }
        },
    }
    r
}

pub open spec fn entries_view(v: Seq<(i32, Vec<u8>)>) -> Seq<(i32, Seq<u8>)> {
    v.map_values(|e: (i32, Vec<u8>)| (e.0, e.1@))
}

/// What `SetLinkDNS` is given for a link's name servers.
pub fn link_dns_entries(servers: &Vec<String>) -> (r: Vec<(i32, Vec<u8>)>)
    ensures
        entries_view(r@) == dns_entries(strings_view(servers@)),
{
    let mut r: Vec<(i32, Vec<u8>)> = Vec::new();
    let mut i: usize = 0;
    while i < servers.len()
        invariant
            i <= servers@.len(),
            entries_view(r@) == dns_entries(strings_view(servers@.subrange(0, i as int))),
        decreases servers.len() - i,
    {
        let ghost pre = r@;
        proof {
            lemma_strings_prefix(servers@, i as int);
        }
        match parse_ip_address(servers[i].as_str()) {
            Some(a) => {
                let family = if a.is_ipv4() {
                    AF_INET
                } else {
                    AF_INET6
                };
                r.push((family, address_octets(a)));
                assert(entries_view(r@) =~= entries_view(pre).push(dns_entry(a)));
            },
            None => {},
        }
        i = i + 1;
    }
    assert(servers@.subrange(0, servers@.len() as int) =~= servers@);
    r
}

/// The servers that are addresses, as addresses, in order.
pub open spec fn server_addresses(servers: Seq<Seq<char>>) -> Seq<IpAddress>
    decreases servers.len(),
{
    if servers.len() == 0 {
        Seq::empty()
    } else {
        match ip_value(servers.last()) {
            Some(a) => server_addresses(servers.drop_last()).push(a),
            None => server_addresses(servers.drop_last()),
        }
    }
}

/// The name servers of a link that are addresses, for filter conditions.
pub fn parse_servers(servers: &Vec<String>) -> (r: Vec<IpAddress>)
    ensures
        r@ == server_addresses(strings_view(servers@)),
{
    let mut r: Vec<IpAddress> = Vec::new();
    let mut i: usize = 0;
    while i < servers.len()
        invariant
            i <= servers@.len(),
            r@ == server_addresses(strings_view(servers@.subrange(0, i as int))),
        decreases servers.len() - i,
    {
        proof {
            lemma_strings_prefix(servers@, i as int);
        }
        match parse_ip_address(servers[i].as_str()) {
            Some(a) => r.push(a),
            None => {},
        }
        i = i + 1;
    }
    assert(servers@.subrange(0, servers@.len() as int) =~= servers@);
    r
}

} // verus!
