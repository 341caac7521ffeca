use load_balancer::backend::{Backend, MAX_CONSECUTIVE_FAILURES_FOR_A_BACKEND};

#[test]
fn new_backend_is_healthy_and_enabled() {
    let backend = Backend::new("localhost:8000");
    assert_eq!(backend.addr, "localhost:8000");
    assert!(backend.healthy);
    assert!(backend.enabled);
    assert!(backend.is_enabled_and_healthy());
    assert_eq!(backend.consecutive_failures, 0);
    assert_eq!(backend.health_check_consecutive_successes, 0);
    assert_eq!(backend.health_check_consecutive_failures, 0);

    let owned = Backend::new(String::from("localhost:8001"));
    assert_eq!(owned.addr, "localhost:8001");
}

#[test]
fn disabled_backend_is_not_available() {
    let mut backend = Backend::new("localhost:8000");
    backend.disable();
    assert!(!backend.is_enabled_and_healthy());
    assert!(backend.healthy);
    backend.enable();
    assert!(backend.is_enabled_and_healthy());
}

#[test]
fn unhealthy_backend_is_not_available() {
    let mut backend = Backend::new("localhost:8000");
    backend.healthy = false;
    assert!(!backend.is_enabled_and_healthy());
    backend.enable();
    assert!(!backend.is_enabled_and_healthy());
}

#[test]
fn third_failure_in_a_row_takes_backend_down() {
    assert_eq!(MAX_CONSECUTIVE_FAILURES_FOR_A_BACKEND, 3);
    let mut backend = Backend::new("localhost:8000");
    backend.record_failure();
    backend.record_failure();
    assert!(backend.healthy);
    assert_eq!(backend.consecutive_failures, 2);
    backend.record_failure();
    assert!(!backend.healthy);
    assert_eq!(backend.consecutive_failures, 3);
    assert!(backend.enabled);
}

#[test]
fn answer_ends_row_of_failures() {
    let mut backend = Backend::new("localhost:8000");
    backend.record_failure();
    backend.record_failure();
    backend.record_answer();
    assert_eq!(backend.consecutive_failures, 0);
    backend.record_failure();
    backend.record_failure();
    assert!(backend.healthy);
}

#[test]
fn answer_does_not_revive_backend() {
    let mut backend = Backend::new("localhost:8000");
    for _ in 0..3 {
        backend.record_failure();
    }
    backend.record_answer();
    assert!(!backend.healthy);
    assert_eq!(backend.consecutive_failures, 0);
}

#[test]
fn failure_count_wraps_around() {
    let mut backend = Backend::new("localhost:8000");
    backend.consecutive_failures = 255;
    backend.record_failure();
    assert_eq!(backend.consecutive_failures, 0);
    assert!(backend.healthy);
}

#[test]
fn clone_copies_everything() {
    let mut backend = Backend::new("localhost:8000");
    backend.record_failure();
    backend.disable();
    backend.health_check_consecutive_successes = 2;
    backend.health_check_consecutive_failures = 1;
    let mut copy = backend.clone();
    assert_eq!(copy.addr, "localhost:8000");
    assert!(copy.healthy);
    assert!(!copy.enabled);
    assert_eq!(copy.consecutive_failures, 1);
    assert_eq!(copy.health_check_consecutive_successes, 2);
    assert_eq!(copy.health_check_consecutive_failures, 1);
    copy.enable();
    assert!(!backend.enabled);
}
