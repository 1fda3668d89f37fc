//! GCP client settings.

use vstd::prelude::*;

verus! {

pub struct GcpClient {
    pub project_id: String,
    pub zone: String,
}

impl GcpClient {
    pub fn new(project_id: String, zone: String) -> (r: GcpClient)
        ensures
            r.project_id == project_id,
            r.zone == zone,
    {
        GcpClient { project_id, zone }
    }
}

pub struct InstanceMetadata {
    pub instance_id: String,
    pub zone: String,
    pub project: String,
}

pub struct AccessConfig {
    pub name: String,
    pub nat_ip: Option<String>,
}

pub struct NetworkInterface {
    pub network: String,
    pub subnetwork: String,
    pub access_configs: Vec<AccessConfig>,
}

#[derive(Clone, Copy, Debug, PartialEq, Eq, Structural)]
pub enum FirewallAction {
    Allow,
    Deny,
}

} // verus!
