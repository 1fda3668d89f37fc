//! Cloud providers the host may run on, and their clients' settings.

use vstd::prelude::*;

pub mod aws;
pub mod azure;
pub mod gcp;

verus! {

#[derive(Clone, Copy, Debug, PartialEq, Eq, Structural)]
pub enum CloudProvider {
    AWS,
    Azure,
    GCP,
    Unknown,
}

impl CloudProvider {
    /// The provider from the host's probes, tried in the order AWS, Azure,
    /// GCP.
    pub fn detect(is_aws: bool, is_azure: bool, is_gcp: bool) -> (r: CloudProvider)
        ensures
            r == (if is_aws {
                CloudProvider::AWS
            } else if is_azure {
                CloudProvider::Azure
            } else if is_gcp {
                CloudProvider::GCP
            } else {
                CloudProvider::Unknown
            }),
    {
        if is_aws {
            CloudProvider::AWS
        } else if is_azure {
            CloudProvider::Azure
        } else if is_gcp {
            CloudProvider::GCP
        } else {
            CloudProvider::Unknown
        }
    }
}

} // verus!
