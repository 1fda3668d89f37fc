//! AWS client settings.

use vstd::prelude::*;

verus! {

pub struct AwsClient {
    pub region: String,
    pub instance_id: Option<String>,
}

impl AwsClient {
    pub fn new(region: String) -> (r: AwsClient)
        ensures
            r.region == region,
            r.instance_id is None,
    {
        AwsClient { region, instance_id: None }
    }
}

#[derive(Clone, Copy, Debug, PartialEq, Eq, Structural)]
pub enum SecurityGroupAction {
    Allow,
    Deny,
}

} // verus!
