//! Configuration overrides and fallbacks.

use gold::config::Config;

fn base_config() -> Config {
    Config::new(
        "base-access".to_string(),
        "base-secret".to_string(),
        "base-bucket".to_string(),
        "us-east-1".to_string(),
        None,
    )
}

#[test]
fn getters_fall_back_to_base_values() {
    let c = base_config();
    assert_eq!(c.get_access_key(), "base-access");
    assert_eq!(c.get_secret_key(), "base-secret");
    assert_eq!(c.get_bucket_name(), "base-bucket");
    assert_eq!(c.get_aws_region(), "us-east-1");
    assert_eq!(c.get_s3_endpoint(), None);
}

#[test]
fn override_wins_over_base_value() {
    let mut c = base_config();
    c.set_override("ACCESS_KEY", "over-access");
    c.set_override("BUCKET_NAME", "over-bucket");
    assert_eq!(c.get_access_key(), "over-access");
    assert_eq!(c.get_bucket_name(), "over-bucket");
    assert_eq!(c.get_secret_key(), "base-secret");
}

#[test]
fn latest_override_wins() {
    let mut c = base_config();
    c.set_override("AWS_REGION", "eu-west-1");
    c.set_override("AWS_REGION", "ap-south-1");
    assert_eq!(c.get_aws_region(), "ap-south-1");
}

#[test]
fn unrelated_override_changes_nothing() {
    let mut c = base_config();
    c.set_override("SOMETHING_ELSE", "value");
    assert_eq!(c.get_access_key(), "base-access");
    assert_eq!(c.get_s3_endpoint(), None);
}

#[test]
fn endpoint_falls_back_to_base_option() {
    let c = Config::new(
        "a".to_string(),
        "s".to_string(),
        "b".to_string(),
        "r".to_string(),
        Some("http://localhost:9000".to_string()),
    );
    assert_eq!(c.get_s3_endpoint(), Some("http://localhost:9000"));
}

#[test]
fn endpoint_override_wins_over_base_option() {
    let mut c = Config::new(
        "a".to_string(),
        "s".to_string(),
        "b".to_string(),
        "r".to_string(),
        Some("http://localhost:9000".to_string()),
    );
    c.set_override("S3_ENDPOINT", "http://minio:9000");
    assert_eq!(c.get_s3_endpoint(), Some("http://minio:9000"));
}
