use netevd::cloud::aws::AwsClient;
use netevd::cloud::azure::AzureClient;
use netevd::cloud::gcp::GcpClient;
use netevd::cloud::CloudProvider;
use netevd::models::{AuditLogger, DEFAULT_AUDIT_LOG_PATH};

#[test]
fn provider_detection_order() {
    assert_eq!(CloudProvider::detect(true, true, true), CloudProvider::AWS);
    assert_eq!(CloudProvider::detect(false, true, true), CloudProvider::Azure);
    assert_eq!(CloudProvider::detect(false, false, true), CloudProvider::GCP);
    assert_eq!(CloudProvider::detect(false, false, false), CloudProvider::Unknown);
}

#[test]
fn client_settings() {
    let aws = AwsClient::new("eu-west-1".to_string());
    assert_eq!(aws.region, "eu-west-1");
    assert!(aws.instance_id.is_none());
    let az = AzureClient::new("sub".to_string(), "rg".to_string());
    assert_eq!(az.resource_group, "rg");
    let gcp = GcpClient::new("proj".to_string(), "zone-a".to_string());
    assert_eq!(gcp.zone, "zone-a");
}

#[test]
fn audit_logger_path() {
    let a = AuditLogger::new(None, true);
    assert_eq!(a.log_path, DEFAULT_AUDIT_LOG_PATH);
    assert!(a.enabled);
    let b = AuditLogger::new(Some("/tmp/x.log".to_string()), false);
    assert_eq!(b.log_path, "/tmp/x.log");
}
