use zenith::system::{DockerStatus, DockerStatusCache, DOCKER_STATUS_TTL_MILLIS};

fn status() -> DockerStatus {
    DockerStatus { is_available: false, is_running: false, version: None, error_message: None }
}

#[test]
fn docker_status_observation_expires_and_can_be_invalidated() {
    let mut cache = DockerStatusCache::new();
    assert!(cache.fresh(DOCKER_STATUS_TTL_MILLIS).is_none());

    cache.publish(status());
    assert!(cache.fresh(DOCKER_STATUS_TTL_MILLIS).is_some(), "a just-observed status answers");

    cache.invalidate();
    assert!(cache.fresh(DOCKER_STATUS_TTL_MILLIS).is_none());
}

#[test]
fn an_observation_answers_only_within_its_lifetime() {
    let mut cache = DockerStatusCache::new();
    cache.publish_at(status(), 10_000);
    assert!(cache.fresh_at(12_999, 3_000).is_some());
    assert!(cache.fresh_at(13_000, 3_000).is_none());
    assert!(cache.fresh_at(9_000, 3_000).is_some(), "a clock that went back counts as no time");
}
