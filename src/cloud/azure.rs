//! Azure client settings.

use vstd::prelude::*;

verus! {

pub struct AzureClient {
    pub subscription_id: String,
    pub resource_group: String,
}

impl AzureClient {
    pub fn new(subscription_id: String, resource_group: String) -> (r: AzureClient)
        ensures
            r.subscription_id == subscription_id,
            r.resource_group == resource_group,
    {
        AzureClient { subscription_id, resource_group }
    }
}

pub struct InstanceMetadata {
    pub vm_id: String,
    pub location: String,
    pub resource_group: String,
}

#[derive(Clone, Copy, Debug, PartialEq, Eq, Structural)]
pub enum NsgAction {
    Allow,
    Deny,
}

} // verus!
