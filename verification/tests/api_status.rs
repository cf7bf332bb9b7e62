use metric_videos::api::{
    metrics_fallback_body, metrics_response_status, watcher_response_status, STATUS_BAD_REQUEST,
    STATUS_FAILED_DEPENDENCY, STATUS_OK, STATUS_SERVICE_UNAVAILABLE,
};
use metric_videos::metrics::RegistryError;

#[test]
fn watcher_without_peer_is_failed_dependency() {
    assert_eq!(watcher_response_status(false, None), STATUS_FAILED_DEPENDENCY);
    assert_eq!(watcher_response_status(false, Some(Ok(()))), STATUS_FAILED_DEPENDENCY);
}

#[test]
fn watcher_without_registry_is_unavailable() {
    assert_eq!(watcher_response_status(true, None), STATUS_SERVICE_UNAVAILABLE);
    assert_eq!(
        watcher_response_status(true, Some(Err(RegistryError::Unavailable))),
        STATUS_SERVICE_UNAVAILABLE
    );
}

#[test]
fn watcher_reported_is_ok() {
    assert_eq!(watcher_response_status(true, Some(Ok(()))), STATUS_OK);
}

#[test]
fn watcher_bad_slot_is_rejected() {
    assert_eq!(
        watcher_response_status(true, Some(Err(RegistryError::InvalidSlot))),
        STATUS_BAD_REQUEST
    );
}

#[test]
fn metrics_statuses() {
    assert_eq!(metrics_response_status(true), STATUS_OK);
    assert_eq!(metrics_response_status(false), STATUS_SERVICE_UNAVAILABLE);
}

#[test]
fn metrics_fallback_is_zero_literal() {
    assert_eq!(metrics_fallback_body(), "0");
}
