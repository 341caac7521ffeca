use load_balancer::backend::Backend;
use load_balancer::balancer::Balancer;
use load_balancer::health::{
    health_check_request, http_health_check, record_health_check, HealthChange, ProbeOutcome,
    CONSECUTIVE_SUCCESSES_TO_MARK_HEALTHY, HEALTH_CHECK_CONNECT_TIMEOUT_SECS,
    HEALTH_CHECK_RESPONSE_TIMEOUT_SECS,
};
use load_balancer::pool::ConnectionPools;
use load_balancer::retry_budget::RetryBudget;

fn pools() -> ConnectionPools<u32> {
    ConnectionPools::new(2, 100, vec!["a:1", "b:2"])
}

#[test]
fn check_asks_for_the_root() {
    let request = health_check_request("localhost:8000");
    assert_eq!(request.method, "GET");
    assert_eq!(request.path, "/");
    assert_eq!(request.host, "localhost:8000");
    assert_eq!(HEALTH_CHECK_CONNECT_TIMEOUT_SECS, 3);
    assert_eq!(HEALTH_CHECK_RESPONSE_TIMEOUT_SECS, 2);
}

#[test]
fn only_a_success_passes() {
    assert!(http_health_check(ProbeOutcome::Response { status: 200 }));
    assert!(!http_health_check(ProbeOutcome::Response { status: 302 }));
    assert!(!http_health_check(ProbeOutcome::Response { status: 503 }));
    assert!(!http_health_check(ProbeOutcome::ConnectTimedOut));
    assert!(!http_health_check(ProbeOutcome::ConnectFailed));
    assert!(!http_health_check(ProbeOutcome::HandshakeFailed));
    assert!(!http_health_check(ProbeOutcome::ResponseTimedOut));
    assert!(!http_health_check(ProbeOutcome::RequestFailed));
}

#[test]
fn passing_while_up_changes_nothing() {
    let mut backend = Backend::new("a:1");
    backend.record_failure();
    let change = record_health_check(&mut backend, true, &mut pools());
    assert_eq!(change, HealthChange::Unchanged);
    assert!(backend.healthy);
    assert_eq!(backend.consecutive_failures, 1);
    assert_eq!(backend.health_check_consecutive_successes, 0);
}

#[test]
fn one_failed_check_takes_backend_down_and_empties_its_pool() {
    let mut pools = pools();
    pools.return_connection(&String::from("a:1"), 1, 0);
    pools.return_connection(&String::from("b:2"), 2, 0);
    let mut backend = Backend::new("a:1");
    backend.record_failure();
    let change = record_health_check(&mut backend, false, &mut pools);
    assert_eq!(change, HealthChange::WentDown);
    assert!(!backend.healthy);
    assert_eq!(backend.consecutive_failures, 1);
    assert_eq!(backend.health_check_consecutive_failures, 0);
    assert_eq!(pools.get_connection("a:1", 0), None);
    assert_eq!(pools.get_connection("b:2", 0), Some(2));
}

#[test]
fn failing_while_down_changes_nothing() {
    let mut backend = Backend::new("a:1");
    record_health_check(&mut backend, false, &mut pools());
    let change = record_health_check(&mut backend, false, &mut pools());
    assert_eq!(change, HealthChange::Unchanged);
    assert!(!backend.healthy);
    assert_eq!(backend.health_check_consecutive_failures, 0);
}

#[test]
fn third_pass_brings_backend_back_with_a_clean_record() {
    assert_eq!(CONSECUTIVE_SUCCESSES_TO_MARK_HEALTHY, 3);
    let mut pools = pools();
    let mut backend = Backend::new("a:1");
    for _ in 0..3 {
        backend.record_failure();
    }
    assert!(!backend.healthy);
    assert_eq!(record_health_check(&mut backend, true, &mut pools), HealthChange::Unchanged);
    assert_eq!(record_health_check(&mut backend, true, &mut pools), HealthChange::Unchanged);
    assert_eq!(backend.health_check_consecutive_successes, 2);
    assert!(!backend.healthy);
    assert_eq!(record_health_check(&mut backend, true, &mut pools), HealthChange::CameUp);
    assert!(backend.healthy);
    assert_eq!(backend.consecutive_failures, 0);
    assert_eq!(backend.health_check_consecutive_successes, 0);
    assert_eq!(backend.health_check_consecutive_failures, 0);
}

#[test]
fn failed_checks_while_down_do_not_start_the_count_anew() {
    let mut pools = pools();
    let mut backend = Backend::new("a:1");
    record_health_check(&mut backend, false, &mut pools);
    for passed in [true, false, true, false] {
        record_health_check(&mut backend, passed, &mut pools);
        assert!(!backend.healthy);
    }
    assert_eq!(backend.health_check_consecutive_successes, 2);
    assert_eq!(record_health_check(&mut backend, true, &mut pools), HealthChange::CameUp);
}

#[test]
fn checks_do_not_enable_a_disabled_backend() {
    let mut pools = pools();
    let mut backend = Backend::new("a:1");
    backend.disable();
    record_health_check(&mut backend, false, &mut pools);
    for _ in 0..3 {
        record_health_check(&mut backend, true, &mut pools);
    }
    assert!(backend.healthy);
    assert!(!backend.enabled);
}

#[test]
fn full_counters_do_not_overflow() {
    let mut pools = pools();
    let mut backend = Backend::new("a:1");
    backend.healthy = false;
    backend.health_check_consecutive_successes = 255;
    assert_eq!(record_health_check(&mut backend, true, &mut pools), HealthChange::CameUp);
    backend.health_check_consecutive_failures = 255;
    assert_eq!(record_health_check(&mut backend, false, &mut pools), HealthChange::WentDown);
}

#[test]
fn round_judges_each_backend_by_its_own_result() {
    let mut pools = pools();
    pools.return_connection(&String::from("a:1"), 1, 0);
    pools.return_connection(&String::from("b:2"), 2, 0);
    let mut balancer = Balancer::new(&vec!["a:1", "b:2", "c:3"], RetryBudget::new(100, 10));
    balancer.backends[2].healthy = false;
    assert_eq!(balancer.health_check_targets(), vec!["a:1", "b:2", "c:3"]);
    let results = [true, false, true];
    let changes: Vec<HealthChange> = results
        .iter()
        .enumerate()
        .map(|(position, passed)| balancer.record_health_check(position, *passed, &mut pools))
        .collect();
    assert_eq!(
        changes,
        vec![HealthChange::Unchanged, HealthChange::WentDown, HealthChange::Unchanged]
    );
    let healthy: Vec<bool> = balancer.backends.iter().map(|b| b.healthy).collect();
    assert_eq!(healthy, vec![true, false, false]);
    assert_eq!(balancer.backends[2].health_check_consecutive_successes, 1);
    assert_eq!(pools.get_connection("a:1", 0), Some(1));
    assert_eq!(pools.get_connection("b:2", 0), None);
}
