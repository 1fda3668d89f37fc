//! Records the daemon reports to its HTTP surface and audit log.

use vstd::prelude::*;

verus! {

pub struct DaemonStatus {
    pub status: String,
    pub version: String,
    pub uptime_seconds: u64,
    pub interfaces_count: usize,
    pub routing_rules_count: usize,
    pub events_processed: u64,
    pub backend: String,
    pub dry_run: bool,
}

pub struct InterfaceInfo {
    pub name: String,
    pub index: u32,
    pub state: String,
    pub addresses: Vec<String>,
    pub mac_address: Option<String>,
    pub mtu: Option<u32>,
    pub flags: Vec<String>,
}

pub struct RoutingRuleInfo {
    pub priority: u32,
    pub source: Option<String>,
    pub destination: Option<String>,
    pub table: u32,
    pub interface: Option<String>,
}

pub struct ReloadRequest {
    pub force: Option<bool>,
}

pub struct HealthChecks {
    pub dbus: bool,
    pub netlink: bool,
    pub config: bool,
}

pub struct HealthStatus {
    pub status: String,
    pub checks: HealthChecks,
}

#[derive(Clone, Copy, Debug, PartialEq, Eq, Structural)]
pub enum AuditEventType {
    NetworkEvent,
    ScriptExecution,
    ConfigChange,
    ApiRequest,
    RouteChange,
    RuleChange,
    InterfaceChange,
}

#[derive(Clone, Copy, Debug, PartialEq, Eq, Structural)]
pub enum AuditResult {
    Success,
    Failure,
    Partial,
}

/// Where audit records go when no path is given.
pub const DEFAULT_AUDIT_LOG_PATH: &'static str = "/var/log/netevd/audit.log";

/// Where audit records are written, and whether they are.
pub struct AuditLogger {
    pub log_path: String,
    pub enabled: bool,
}

impl AuditLogger {
    pub fn new(log_path: Option<String>, enabled: bool) -> (r: AuditLogger)
        ensures
            r.log_path@ == (match log_path {
                Some(p) => p@,
                None => DEFAULT_AUDIT_LOG_PATH@,
            }),
            r.enabled == enabled,
    {
        let log_path = match log_path {
            Some(p) => p,
            None => String::from_str(DEFAULT_AUDIT_LOG_PATH),
        };
        AuditLogger { log_path, enabled }
    }
}

/// Output formats of the command line.
#[derive(Clone, Copy, Debug, PartialEq, Eq, Structural)]
pub enum OutputFormat {
    Text,
    Json,
    Yaml,
    Table,
}

/// What the command line can list.
#[derive(Clone, Copy, Debug, PartialEq, Eq, Structural)]
pub enum ListResource {
    Interfaces,
    Routes,
    Rules,
    Scripts,
}

/// What the command line can show.
#[derive(Clone, Copy, Debug, PartialEq, Eq, Structural)]
pub enum ShowResource {
    Interface,
    Route,
    Rule,
    Status,
}

} // verus!
