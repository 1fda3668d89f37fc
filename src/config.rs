//! Daemon configuration: its sections, their defaults, the questions the
//! core asks of it, and the overrides taken from the environment.

use vstd::prelude::*;
use crate::filters::{parse_usize, usize_of, Filter};
use crate::text::{chars_of, str_is};

verus! {

pub const DEFAULT_CONFIG_PATH: &'static str = "/etc/netevd/netevd.yaml";

pub const DEFAULT_LOG_LEVEL: &'static str = "info";

pub const DEFAULT_BACKEND: &'static str = "systemd-networkd";

pub const DEFAULT_BIND_ADDRESS: &'static str = "127.0.0.1";

pub const DEFAULT_API_PORT: u16 = 9090;

pub const DEFAULT_METRICS_PORT: u16 = 9091;

pub const DEFAULT_AUDIT_PATH: &'static str = "/var/log/netevd/audit.log";

pub const DEFAULT_RETENTION_DAYS: u32 = 90;

pub struct SystemConfig {
    pub log_level: String,
    pub backend: String,
}

pub struct MonitoringConfig {
    pub interfaces: Vec<String>,
}

pub struct RoutingConfig {
    pub policy_rules: Vec<String>,
}

pub struct SystemdNetworkdConfig {
    pub emit_json: bool,
}

pub struct DhclientConfig {
    pub use_dns: bool,
    pub use_domain: bool,
    pub use_hostname: bool,
}

pub struct NetworkManagerConfig {}

pub struct BackendsConfig {
    pub systemd_networkd: SystemdNetworkdConfig,
    pub dhclient: DhclientConfig,
    pub networkmanager: NetworkManagerConfig,
}

pub struct TlsConfig {
    pub enabled: bool,
    pub cert_file: Option<String>,
    pub key_file: Option<String>,
}

pub struct ApiConfig {
    pub enabled: bool,
    pub bind_address: String,
    pub port: u16,
    pub tls: TlsConfig,
}

pub struct MetricsConfig {
    pub enabled: bool,
    pub port: u16,
}

pub struct AuditConfig {
    pub enabled: bool,
    pub path: String,
    pub retention_days: u32,
}

pub struct Config {
    pub system: SystemConfig,
    pub monitoring: MonitoringConfig,
    pub routing: RoutingConfig,
    pub backends: BackendsConfig,
    pub api: ApiConfig,
    pub metrics: MetricsConfig,
    pub audit: AuditConfig,
    pub filters: Vec<Filter>,
}

pub open spec fn strings_of(v: Seq<String>) -> Seq<Seq<char>> {
    v.map_values(|s: String| s@)
}

/// A copy of a list of strings.
pub fn copy_strings(v: &Vec<String>) -> (r: Vec<String>)
    ensures
        r@ == v@,
{
    let mut r: Vec<String> = Vec::new();
    let mut i: usize = 0;
    while i < v.len()
        invariant
            i <= v@.len(),
            r@ == v@.subrange(0, i as int),
        decreases v.len() - i,
    {
        r.push(v[i].clone());
        i = i + 1;
    }
    r
}

/// Whether some string of the list equals `s`.
pub fn list_contains(v: &Vec<String>, s: &str) -> (r: bool)
    ensures
        r == strings_of(v@).contains(s@),
{
    let mut i: usize = 0;
    while i < v.len()
        invariant
            i <= v@.len(),
            forall|j: int| 0 <= j < i ==> v@[j]@ != s@,
        decreases v.len() - i,
    {
        if str_is(v[i].as_str(), s) {
            assert(strings_of(v@)[i as int] == s@);
            return true;
        }
        i = i + 1;
    }
    assert forall|j: int| 0 <= j < strings_of(v@).len() implies strings_of(v@)[j] != s@ by {
        assert(strings_of(v@)[j] == v@[j]@);
    }
    false
}

fn default_log_level() -> (r: String)
    ensures
        r@ == DEFAULT_LOG_LEVEL@,
{
    String::from_str(DEFAULT_LOG_LEVEL)
}

fn default_backend() -> (r: String)
    ensures
        r@ == DEFAULT_BACKEND@,
{
    String::from_str(DEFAULT_BACKEND)
}

fn default_true() -> (r: bool)
    ensures
        r,
{
    true
}

fn default_bind_address() -> (r: String)
    ensures
        r@ == DEFAULT_BIND_ADDRESS@,
{
    String::from_str(DEFAULT_BIND_ADDRESS)
}

fn default_api_port() -> (r: u16)
    ensures
        r == DEFAULT_API_PORT,
{
    DEFAULT_API_PORT
}

fn default_metrics_port() -> (r: u16)
    ensures
        r == DEFAULT_METRICS_PORT,
{
    DEFAULT_METRICS_PORT
}

fn default_audit_path() -> (r: String)
    ensures
        r@ == DEFAULT_AUDIT_PATH@,
{
    String::from_str(DEFAULT_AUDIT_PATH)
}

fn default_retention_days() -> (r: u32)
    ensures
        r == DEFAULT_RETENTION_DAYS,
{
    DEFAULT_RETENTION_DAYS
}

impl Default for SystemConfig {
    fn default() -> (r: Self)
        ensures
            r.log_level@ == DEFAULT_LOG_LEVEL@,
            r.backend@ == DEFAULT_BACKEND@,
    {
        SystemConfig { log_level: default_log_level(), backend: default_backend() }
    }
}

impl Default for MonitoringConfig {
    fn default() -> (r: Self)
        ensures
            r.interfaces@.len() == 0,
    {
        MonitoringConfig { interfaces: Vec::new() }
    }
}

impl Default for RoutingConfig {
    fn default() -> (r: Self)
        ensures
            r.policy_rules@.len() == 0,
    {
        RoutingConfig { policy_rules: Vec::new() }
    }
}

impl Default for SystemdNetworkdConfig {
    fn default() -> (r: Self)
        ensures
            r.emit_json,
    {
        SystemdNetworkdConfig { emit_json: default_true() }
    }
}

impl Default for DhclientConfig {
    fn default() -> (r: Self)
        ensures
            !r.use_dns && !r.use_domain && !r.use_hostname,
    {
        DhclientConfig { use_dns: false, use_domain: false, use_hostname: false }
    }
}

impl Default for NetworkManagerConfig {
    fn default() -> (r: Self) {
        NetworkManagerConfig {  }
    }
}

impl Default for BackendsConfig {
    fn default() -> (r: Self)
        ensures
            r.systemd_networkd.emit_json,
            !r.dhclient.use_dns && !r.dhclient.use_domain && !r.dhclient.use_hostname,
    {
        BackendsConfig {
            systemd_networkd: SystemdNetworkdConfig::default(),
            dhclient: DhclientConfig::default(),
            networkmanager: NetworkManagerConfig::default(),
        }
    }
}

impl Default for TlsConfig {
    fn default() -> (r: Self)
        ensures
            !r.enabled && r.cert_file is None && r.key_file is None,
    {
        TlsConfig { enabled: false, cert_file: None, key_file: None }
    }
}

impl Default for ApiConfig {
    fn default() -> (r: Self)
        ensures
            r.enabled,
            r.bind_address@ == DEFAULT_BIND_ADDRESS@,
            r.port == DEFAULT_API_PORT,
            !r.tls.enabled,
    {
        ApiConfig {
            enabled: default_true(),
            bind_address: default_bind_address(),
            port: default_api_port(),
            tls: TlsConfig::default(),
        }
    }
}

impl Default for MetricsConfig {
    fn default() -> (r: Self)
        ensures
            r.enabled,
            r.port == DEFAULT_METRICS_PORT,
    {
        MetricsConfig { enabled: default_true(), port: default_metrics_port() }
    }
}

impl Default for AuditConfig {
    fn default() -> (r: Self)
        ensures
            !r.enabled,
            r.path@ == DEFAULT_AUDIT_PATH@,
            r.retention_days == DEFAULT_RETENTION_DAYS,
    {
        AuditConfig {
            enabled: false,
            path: default_audit_path(),
            retention_days: default_retention_days(),
        }
    }
}

impl Default for Config {
    fn default() -> (r: Self)
        ensures
            r.system.log_level@ == DEFAULT_LOG_LEVEL@,
            r.system.backend@ == DEFAULT_BACKEND@,
            r.monitoring.interfaces@.len() == 0,
            r.routing.policy_rules@.len() == 0,
            r.backends.systemd_networkd.emit_json,
            !r.backends.dhclient.use_dns,
            !r.backends.dhclient.use_domain,
            !r.backends.dhclient.use_hostname,
            r.api.enabled,
            r.api.port == DEFAULT_API_PORT,
            r.metrics.enabled,
            r.metrics.port == DEFAULT_METRICS_PORT,
            !r.audit.enabled,
            r.filters@.len() == 0,
    {
        Config {
            system: SystemConfig::default(),
            monitoring: MonitoringConfig::default(),
            routing: RoutingConfig::default(),
            backends: BackendsConfig::default(),
            api: ApiConfig::default(),
            metrics: MetricsConfig::default(),
            audit: AuditConfig::default(),
            filters: Vec::new(),
        }
    }
}

impl MonitoringConfig {
    /// The monitored interfaces.
    pub fn get_interfaces(&self) -> (r: Vec<String>)
        ensures
            r@ == self.interfaces@,
    {
        copy_strings(&self.interfaces)
    }
}

impl RoutingConfig {
    /// The interfaces that get policy rules.
    pub fn get_routing_policy_interfaces(&self) -> (r: Vec<String>)
        ensures
            r@ == self.policy_rules@,
    {
        copy_strings(&self.policy_rules)
    }
}

/// Values of the `NETEVD_*` environment variables, where set.
pub struct EnvOverrides {
    pub log_level: Option<String>,
    pub backend: Option<String>,
    pub api_enabled: Option<String>,
    pub api_bind_address: Option<String>,
    pub api_port: Option<String>,
    pub metrics_enabled: Option<String>,
    pub audit_enabled: Option<String>,
}

/// `bool::from_str`: exactly `true` or `false`.
pub open spec fn bool_of(s: Seq<char>) -> Option<bool> {
    if s == "true"@ {
        Some(true)
    } else if s == "false"@ {
        Some(false)
    } else {
        None
    }
}

/// `u16::from_str`.
pub open spec fn u16_of(s: Seq<char>) -> Option<u16> {
    match usize_of(s) {
        Some(v) => if v <= u16::MAX {
            Some(v as u16)
        } else {
            None
        },
        None => None,
    }
}

pub fn parse_bool(s: &str) -> (r: Option<bool>)
    ensures
        r == bool_of(s@),
{
    if str_is(s, "true") {
        Some(true)
    } else if str_is(s, "false") {
        Some(false)
    } else {
        None
    }
}

pub fn parse_u16(s: &str) -> (r: Option<u16>)
    ensures
        r == u16_of(s@),
{
    let cs = chars_of(s);
    assert(cs@.subrange(0, cs@.len() as int) =~= cs@);
    match parse_usize(&cs, 0, cs.len()) {
        Some(v) => if v <= 65535 {
            Some(v as u16)
        } else {
            None
        },
        None => None,
    }
}

pub open spec fn bool_or(o: Option<String>, dflt: bool, cur: bool) -> bool {
    match o {
        Some(s) => match bool_of(s@) {
            Some(b) => b,
            None => dflt,
        },
        None => cur,
    }
}

impl Config {
    /// The monitored links; empty means all.
    pub fn get_links(&self) -> (r: Vec<String>)
        ensures
            r@ == self.monitoring.interfaces@,
    {
        copy_strings(&self.monitoring.interfaces)
    }

    /// The links that get policy rules.
    pub fn get_routing_policy_links(&self) -> (r: Vec<String>)
        ensures
            r@ == self.routing.policy_rules@,
    {
        copy_strings(&self.routing.policy_rules)
    }

    /// A link is monitored when no list is given or the list names it.
    pub fn should_monitor_link(&self, link_name: &str) -> (r: bool)
        ensures
            r == (self.monitoring.interfaces@.len() == 0 || strings_of(
                self.monitoring.interfaces@,
            ).contains(link_name@)),
    {
        let links = self.get_links();
        links.len() == 0 || list_contains(&links, link_name)
    }

    /// A link gets policy rules when the routing list names it.
    pub fn should_configure_routing_rules(&self, link_name: &str) -> (r: bool)
        ensures
            r == strings_of(self.routing.policy_rules@).contains(link_name@),
    {
        let links = self.get_routing_policy_links();
        list_contains(&links, link_name)
    }

    pub fn get_emit_json(&self) -> (r: bool)
        ensures
            r == self.backends.systemd_networkd.emit_json,
    {
        self.backends.systemd_networkd.emit_json
    }

    pub fn get_use_dns(&self) -> (r: bool)
        ensures
            r == self.backends.dhclient.use_dns,
    {
        self.backends.dhclient.use_dns
    }

    pub fn get_use_domain(&self) -> (r: bool)
        ensures
            r == self.backends.dhclient.use_domain,
    {
        self.backends.dhclient.use_domain
    }

    pub fn get_use_hostname(&self) -> (r: bool)
        ensures
            r == self.backends.dhclient.use_hostname,
    {
        self.backends.dhclient.use_hostname
    }

    /// Applies the environment's overrides: strings replace the field, a
    /// flag that is not `true` or `false` takes the flag's default, a port
    /// that is not a number leaves the field alone.
    pub fn apply_env_overrides(&mut self, env: EnvOverrides)
        ensures
            final(self).system.log_level@ == (match env.log_level {
                Some(s) => s@,
                None => old(self).system.log_level@,
            }),
            final(self).system.backend@ == (match env.backend {
                Some(s) => s@,
                None => old(self).system.backend@,
            }),
            final(self).api.enabled == bool_or(env.api_enabled, true, old(self).api.enabled),
            final(self).api.bind_address@ == (match env.api_bind_address {
                Some(s) => s@,
                None => old(self).api.bind_address@,
            }),
            final(self).api.port == (match env.api_port {
                Some(s) => match u16_of(s@) {
                    Some(p) => p,
                    None => old(self).api.port,
                },
                None => old(self).api.port,
            }),
            final(self).metrics.enabled == bool_or(
                env.metrics_enabled,
                true,
                old(self).metrics.enabled,
            ),
            final(self).audit.enabled == bool_or(env.audit_enabled, false, old(self).audit.enabled),
            final(self).monitoring.interfaces@ == old(self).monitoring.interfaces@,
            final(self).routing.policy_rules@ == old(self).routing.policy_rules@,
            final(self).backends.systemd_networkd.emit_json
                == old(self).backends.systemd_networkd.emit_json,
            final(self).backends.dhclient.use_dns == old(self).backends.dhclient.use_dns,
            final(self).backends.dhclient.use_domain == old(self).backends.dhclient.use_domain,
            final(self).backends.dhclient.use_hostname == old(self).backends.dhclient.use_hostname,
    {
        override_string(&mut self.system.log_level, env.log_level);
        override_string(&mut self.system.backend, env.backend);
        override_flag(&mut self.api.enabled, env.api_enabled, true);
        override_string(&mut self.api.bind_address, env.api_bind_address);
        override_port(&mut self.api.port, env.api_port);
        override_flag(&mut self.metrics.enabled, env.metrics_enabled, true);
        override_flag(&mut self.audit.enabled, env.audit_enabled, false);
    }
}

fn override_string(field: &mut String, o: Option<String>)
    ensures
        final(field)@ == (match o {
            Some(s) => s@,
            None => old(field)@,
        }),
{
    match o {
        Some(s) => {
            *field = s;
        },
        None => {},
    }
}

fn override_flag(field: &mut bool, o: Option<String>, dflt: bool)
    ensures
        *final(field) == bool_or(o, dflt, *old(field)),
{
    match o {
        Some(s) => {
            *field = match parse_bool(s.as_str()) {
                Some(b) => b,
                None => dflt,
            };
        },
        None => {},
    }
}

fn override_port(field: &mut u16, o: Option<String>)
    ensures
        *final(field) == (match o {
            Some(s) => match u16_of(s@) {
                Some(p) => p,
                None => *old(field),
            },
            None => *old(field),
        }),
{
    match o {
        Some(s) => {
            match parse_u16(s.as_str()) {
                Some(p) => {
                    *field = p;
                },
                None => {},
            }
        },
        None => {},
    }
}

} // verus!
