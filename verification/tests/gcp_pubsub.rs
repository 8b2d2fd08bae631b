use omniqueue::error::QueueError;
use omniqueue::gcp_pubsub::{
    subscription_found, topic_found, GcpPubSubBackend, GcpPubSubConfig,
};
use std::path::PathBuf;

#[test]
fn credentials_come_from_the_file_if_one_is_configured() {
    let mut config = GcpPubSubConfig {
        topic_id: "topic".to_owned(),
        subscription_id: "subscription".to_owned(),
        credentials_file: Some(PathBuf::from("/etc/creds.json")),
    };
    assert_eq!(config.credentials_file(), Some(&PathBuf::from("/etc/creds.json")));
    config.credentials_file = None;
    assert_eq!(config.credentials_file(), None);
    assert_eq!(config.clone(), config);
    assert_eq!(GcpPubSubBackend, GcpPubSubBackend);
}

#[test]
fn a_missing_topic_is_reported_by_name() {
    assert_eq!(topic_found(true, "orders"), Ok(()));
    assert_eq!(
        topic_found(false, "orders"),
        Err(QueueError::Generic("topic orders does not exist".to_owned()))
    );
}

#[test]
fn a_missing_subscription_is_reported_by_name() {
    assert_eq!(subscription_found(true, "orders-sub"), Ok(()));
    assert_eq!(
        subscription_found(false, "orders-sub"),
        Err(QueueError::Generic("subscription orders-sub does not exist".to_owned()))
    );
}
