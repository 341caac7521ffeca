//! Health checks: what is asked of a backend from time to time, and what its
//! answers are taken to mean.

use vstd::prelude::*;

use crate::backend::{Backend, BackendState};
use crate::balancer::{Balancer, BalancerState};
use crate::http::response_validator;
use crate::pool::ConnectionPools;

verus! {

/// What a health check asks for.
pub const HEALTH_CHECK_PATH: &'static str = "/";

/// How many seconds a backend has to accept the connection of a health check.
pub const HEALTH_CHECK_CONNECT_TIMEOUT_SECS: u64 = 3;

/// How many seconds a backend has to answer a health check.
pub const HEALTH_CHECK_RESPONSE_TIMEOUT_SECS: u64 = 2;

/// Passed checks after which a backend that was down counts as healthy.
pub const CONSECUTIVE_SUCCESSES_TO_MARK_HEALTHY: u8 = 3;

/// Failed checks after which a backend that was up no longer does.
pub const CONSECUTIVE_FAILURES_TO_MARK_UNHEALTHY: u8 = 1;

/// The request that a health check consists of. It has no body.
pub struct HealthCheckRequest {
    pub method: String,
    pub path: String,
    /// What the `Host` header says.
    pub host: String,
}

/// The request with which the backend at `backend_addr` is checked.
pub fn health_check_request(backend_addr: &str) -> (res: HealthCheckRequest)
    ensures
        res.method@ == "GET"@,
        res.path@ == HEALTH_CHECK_PATH@,
        res.path@ == "/"@,
        res.host@ == backend_addr@,
{
    HealthCheckRequest {
        method: "GET".to_string(),
        path: HEALTH_CHECK_PATH.to_string(),
        host: backend_addr.to_string(),
    }
}

/// How far a health check got.
pub enum ProbeOutcome {
    /// No connection within the time allowed.
    ConnectTimedOut,
    /// The connection was refused or broke.
    ConnectFailed,
    /// The two sides could not agree to speak HTTP.
    HandshakeFailed,
    /// No answer within the time allowed.
    ResponseTimedOut,
    /// The request could not be sent, or the answer broke off.
    RequestFailed,
    /// An answer with this status.
    Response { status: u16 },
}

/// Whether a backend passed a check that went like this. Only an answer that says
/// success will do.
pub fn http_health_check(outcome: ProbeOutcome) -> (passed: bool)
    ensures
        passed <==> (outcome matches ProbeOutcome::Response { status } && 200 <= status < 300),
{
    match outcome {
        ProbeOutcome::Response { status } => response_validator(status),
        _ => false,
    }
}

/// What a check changed about whether a backend gets requests.
#[derive(Clone, Copy, PartialEq, Eq, Structural, Debug)]
pub enum HealthChange {
    Unchanged,
    CameUp,
    WentDown,
}

/// One more than `n`, or the largest value if there is no room.
pub open spec fn counted(n: u8) -> u8 {
    if n < 255 {
        (n + 1) as u8
    } else {
        255
    }
}

impl BackendState {
    /// What a check with this result changes about the backend. Checks that agree
    /// with what is known change nothing.
    pub open spec fn health_change(self, passed: bool) -> HealthChange {
        if passed && !self.healthy && counted(self.health_check_consecutive_successes)
            >= CONSECUTIVE_SUCCESSES_TO_MARK_HEALTHY {
            HealthChange::CameUp
        } else if !passed && self.healthy && counted(self.health_check_consecutive_failures)
            >= CONSECUTIVE_FAILURES_TO_MARK_UNHEALTHY {
            HealthChange::WentDown
        } else {
            HealthChange::Unchanged
        }
    }

    /// The record after a check with this result. What was counted towards a change
    /// starts anew with it, and a backend that comes up is also cleared of the
    /// requests that it failed.
    pub open spec fn after_health_check(self, passed: bool) -> BackendState {
        match self.health_change(passed) {
            HealthChange::CameUp => BackendState {
                healthy: true,
                health_check_consecutive_successes: 0,
                health_check_consecutive_failures: 0,
                consecutive_failures: 0,
                ..self
            },
            HealthChange::WentDown => BackendState {
                healthy: false,
                health_check_consecutive_successes: 0,
                health_check_consecutive_failures: 0,
                ..self
            },
            HealthChange::Unchanged => if passed && !self.healthy {
                BackendState {
                    health_check_consecutive_successes: counted(
                        self.health_check_consecutive_successes,
                    ),
                    ..self
                }
            } else if !passed && self.healthy {
                BackendState {
                    health_check_consecutive_failures: counted(
                        self.health_check_consecutive_failures,
                    ),
                    ..self
                }
            } else {
                self
            },
        }
    }

    /// The record after checks with these results, in order.
    pub open spec fn after_health_checks(self, results: Seq<bool>) -> BackendState
        decreases results.len(),
    {
        if results.len() == 0 {
            self
        } else {
            self.after_health_checks(results.drop_last()).after_health_check(results.last())
        }
    }

    /// What checks have counted is short of what would have changed the backend.
    pub open spec fn counts_in_bounds(self) -> bool {
        &&& self.health_check_consecutive_successes < CONSECUTIVE_SUCCESSES_TO_MARK_HEALTHY
        &&& self.health_check_consecutive_failures < CONSECUTIVE_FAILURES_TO_MARK_UNHEALTHY
    }
}

/// Records the result of a health check and says what it changed. When the backend
/// went down, its idle connections are thrown away.
pub fn record_health_check<C>(
    backend: &mut Backend,
    passed: bool,
    connection_pools: &mut ConnectionPools<C>,
) -> (change: HealthChange)
    ensures
        change == old(backend)@.health_change(passed),
        final(backend)@ == old(backend)@.after_health_check(passed),
        change is WentDown <==> old(backend).healthy && !passed,
        change is WentDown <==> old(backend).healthy && !final(backend).healthy,
        change is CameUp <==> !old(backend).healthy && final(backend).healthy,
        change is CameUp <==> !old(backend).healthy && passed && old(
            backend,
        ).health_check_consecutive_successes >= 2,
        final(backend).addr == old(backend).addr,
        final(backend).enabled == old(backend).enabled,
        old(backend).healthy == passed ==> *final(backend) == *old(backend),
        change is WentDown ==> *final(backend) == (Backend {
            healthy: false,
            health_check_consecutive_successes: 0,
            health_check_consecutive_failures: 0,
            ..*old(backend)
        }),
        change is CameUp ==> *final(backend) == (Backend {
            healthy: true,
            consecutive_failures: 0,
            health_check_consecutive_successes: 0,
            health_check_consecutive_failures: 0,
            ..*old(backend)
        }),
        passed && !final(backend).healthy ==> *final(backend) == (Backend {
            health_check_consecutive_successes: (old(backend).health_check_consecutive_successes
                + 1) as u8,
            ..*old(backend)
        }),
        final(connection_pools)@ == (if change is WentDown {
            old(connection_pools)@.emptied(old(backend)@.addr)
        } else {
            old(connection_pools)@
        }),
{
    if passed {
        if !backend.healthy {
            let successes: u8 = backend.health_check_consecutive_successes.saturating_add(1);
            backend.health_check_consecutive_successes = successes;
            if successes >= CONSECUTIVE_SUCCESSES_TO_MARK_HEALTHY {
                backend.healthy = true;
                backend.health_check_consecutive_successes = 0;
                backend.health_check_consecutive_failures = 0;
                backend.consecutive_failures = 0;
                return HealthChange::CameUp;
            }
        }
    } else {
        if backend.healthy {
            let failures: u8 = backend.health_check_consecutive_failures.saturating_add(1);
            backend.health_check_consecutive_failures = failures;
            if failures >= CONSECUTIVE_FAILURES_TO_MARK_UNHEALTHY {
                backend.healthy = false;
                backend.health_check_consecutive_successes = 0;
                backend.health_check_consecutive_failures = 0;
                connection_pools.empty_backend_connections(&backend.addr);
                return HealthChange::WentDown;
            }
        }
    }
    HealthChange::Unchanged
}

impl Balancer {
    /// The addresses to check in a round of health checks, one for each backend and in
    /// the same order.
    pub fn health_check_targets(&self) -> (targets: Vec<String>)
        ensures
            targets@.len() == self@.backends.len(),
            forall|i: int|
                0 <= i < targets@.len() ==> (#[trigger] targets@[i])@ == self@.backends[i].addr,
    {
        let mut targets: Vec<String> = Vec::new();
        let mut i: usize = 0;
        while i < self.backends.len()
            invariant
                i <= self.backends.len(),
                targets@.len() == i,
                forall|j: int| 0 <= j < i ==> (#[trigger] targets@[j])@ == self@.backends[j].addr,
            decreases self.backends.len() - i,
        {
            targets.push(self.backends[i].addr.clone());
            assert(targets@[i as int]@ == self@.backends[i as int].addr);
            i += 1;
        }
        targets
    }

    /// Records the result of checking the backend at `position`, and says what it
    /// changed. When the backend went down, its idle connections are thrown away.
    pub fn record_health_check<C>(
        &mut self,
        position: usize,
        passed: bool,
        connection_pools: &mut ConnectionPools<C>,
    ) -> (change: HealthChange)
        requires
            position < old(self)@.backends.len(),
        ensures
            change == old(self)@.backends[position as int].health_change(passed),
            final(self)@ == old(self)@.after_health_check(position as int, passed),
            final(connection_pools)@ == (if change is WentDown {
                old(connection_pools)@.emptied(old(self)@.backends[position as int].addr)
            } else {
                old(connection_pools)@
            }),
    {
        let ghost before = self@;
        let change = record_health_check(&mut self.backends[position], passed, connection_pools);
        assert(self@.backends =~= before.backends.update(
            position as int,
            before.backends[position as int].after_health_check(passed),
        ));
        change
    }
}

impl BalancerState {
    /// The state after the backend at `i` was checked with this result.
    pub open spec fn after_health_check(self, i: int, passed: bool) -> BalancerState {
        self.with_backend(i, self.backends[i].after_health_check(passed))
    }

    /// The state after the first backends were checked, with these results.
    pub open spec fn after_round(self, results: Seq<bool>) -> BalancerState
        decreases results.len(),
    {
        if results.len() == 0 {
            self
        } else {
            self.after_round(results.drop_last()).after_health_check(
                results.len() - 1,
                results.last(),
            )
        }
    }
}

/// A round of checks judges each backend by its own result, once, and changes nothing
/// else that requests share.
pub proof fn law_round_judges_each_backend_by_its_own_result(
    balancer: BalancerState,
    results: Seq<bool>,
)
    requires
        results.len() <= balancer.backends.len(),
    ensures
        balancer.after_round(results).backends.len() == balancer.backends.len(),
        forall|i: int|
            0 <= i < balancer.backends.len() ==> #[trigger] balancer.after_round(
                results,
            ).backends[i] == if i < results.len() {
                balancer.backends[i].after_health_check(results[i])
            } else {
                balancer.backends[i]
            },
        balancer.after_round(results).retry_budget == balancer.retry_budget,
        balancer.after_round(results).index == balancer.index,
        forall|i: int|
            #![trigger balancer.after_round(results).backends[i]]
            0 <= i < results.len() && balancer.backends[i].healthy ==> (balancer.after_round(
                results,
            ).backends[i].healthy <==> results[i]),
    decreases results.len(),
{
    if results.len() > 0 {
        law_round_judges_each_backend_by_its_own_result(balancer, results.drop_last());
    }
}

/// How many of the checks were passed.
pub open spec fn passes(results: Seq<bool>) -> nat
    decreases results.len(),
{
    if results.len() == 0 {
        0
    } else {
        passes(results.drop_last()) + if results.last() { 1nat } else { 0 }
    }
}

/// A backend that goes down starts from nothing: a failed check of a healthy backend
/// leaves both counts of checks at zero, and all else as it was.
pub proof fn law_going_down_starts_from_nothing(backend: BackendState)
    requires
        backend.healthy,
    ensures
        !backend.after_health_check(false).healthy,
        backend.after_health_check(false).health_check_consecutive_successes == 0,
        backend.after_health_check(false).health_check_consecutive_failures == 0,
        backend.after_health_check(false).consecutive_failures == backend.consecutive_failures,
        backend.after_health_check(false).addr == backend.addr,
        backend.after_health_check(false).enabled == backend.enabled,
{
}

/// Coming back takes three passed checks after going down, no more and no fewer: whatever
/// the healthy backend looked like before, it is still down while fewer than three of the
/// checks since were passed, and up with the third.
pub proof fn law_recovery_takes_three_passes(backend: BackendState, results: Seq<bool>)
    requires
        backend.healthy,
    ensures
        passes(results) < 3 ==> {
            let now = backend.after_health_check(false).after_health_checks(results);
            &&& !now.healthy
            &&& now.health_check_consecutive_successes == passes(results)
            &&& now.health_check_consecutive_failures == 0
            &&& now.consecutive_failures == backend.consecutive_failures
            &&& now.addr == backend.addr
            &&& now.enabled == backend.enabled
        },
        passes(results) == 3 && results.len() > 0 && results.last() ==> {
            let now = backend.after_health_check(false).after_health_checks(results);
            &&& now.healthy
            &&& now.health_check_consecutive_successes == 0
            &&& now.health_check_consecutive_failures == 0
            &&& now.consecutive_failures == 0
            &&& now.addr == backend.addr
            &&& now.enabled == backend.enabled
        },
{
    let down = backend.after_health_check(false);
    if passes(results) < 3 {
        law_backend_stays_down_until_it_passed_enough_checks(down, results);
    } else if passes(results) == 3 && results.len() > 0 && results.last() {
        law_backend_recovers_by_passing_enough_checks(down, results);
    }
}

/// A check that agrees with what is known of the backend leaves its record as it is,
/// down to the last count.
pub proof fn law_checks_that_agree_change_nothing(backend: BackendState, passed: bool)
    requires
        backend.healthy == passed,
    ensures
        backend.health_change(passed) is Unchanged,
        backend.after_health_check(passed).healthy == backend.healthy,
        backend.after_health_check(passed).consecutive_failures == backend.consecutive_failures,
        backend.after_health_check(passed).health_check_consecutive_successes
            == backend.health_check_consecutive_successes,
        backend.after_health_check(passed).health_check_consecutive_failures
            == backend.health_check_consecutive_failures,
        backend.after_health_check(passed).addr == backend.addr,
        backend.after_health_check(passed).enabled == backend.enabled,
{
}

/// A check passed by a backend that is down counts for one. It brings the backend up, with
/// all counts cleared, exactly if two were counted before it.
pub proof fn law_each_pass_counts_for_one(backend: BackendState)
    requires
        !backend.healthy,
    ensures
        backend.after_health_check(true).healthy <==> backend.health_check_consecutive_successes
            >= 2,
        backend.health_check_consecutive_successes < 2 ==> {
            let now = backend.after_health_check(true);
            &&& now.health_check_consecutive_successes == backend.health_check_consecutive_successes
                + 1
            &&& now.health_check_consecutive_failures == backend.health_check_consecutive_failures
            &&& now.consecutive_failures == backend.consecutive_failures
        },
        backend.health_check_consecutive_successes >= 2 ==> {
            let now = backend.after_health_check(true);
            &&& now.health_check_consecutive_successes == 0
            &&& now.health_check_consecutive_failures == 0
            &&& now.consecutive_failures == 0
        },
        backend.after_health_check(true).addr == backend.addr,
        backend.after_health_check(true).enabled == backend.enabled,
{
}

/// A check is reported to have changed something exactly if it did: the backend went down
/// or came up, and which of the two.
pub proof fn law_changes_are_reported_as_they_are(backend: BackendState, passed: bool)
    ensures
        backend.health_change(passed) is WentDown <==> backend.healthy
            && !backend.after_health_check(passed).healthy,
        backend.health_change(passed) is CameUp <==> !backend.healthy
            && backend.after_health_check(passed).healthy,
        backend.health_change(passed) is Unchanged <==> backend.healthy
            == backend.after_health_check(passed).healthy,
{
}

/// The time that a backend has for a check, in seconds.
pub proof fn law_check_time_limits()
    ensures
        HEALTH_CHECK_CONNECT_TIMEOUT_SECS == 3,
        HEALTH_CHECK_RESPONSE_TIMEOUT_SECS == 2,
{
}

/// One failed check takes a healthy backend down.
pub proof fn law_one_failed_check_takes_a_backend_down(backend: BackendState)
    requires
        backend.healthy,
    ensures
        backend.health_change(false) is WentDown,
        !backend.after_health_check(false).healthy,
{
}

/// A backend that is down stays down until it has passed three checks, and counts
/// the ones that it passed so far; checks that it fails meanwhile change nothing.
pub proof fn law_backend_stays_down_until_it_passed_enough_checks(
    backend: BackendState,
    results: Seq<bool>,
)
    requires
        !backend.healthy,
        backend.health_check_consecutive_successes + passes(results)
            < CONSECUTIVE_SUCCESSES_TO_MARK_HEALTHY,
    ensures
        backend.after_health_checks(results) == (BackendState {
            health_check_consecutive_successes: (backend.health_check_consecutive_successes
                + passes(results)) as u8,
            ..backend
        }),
    decreases results.len(),
{
    if results.len() > 0 {
        law_backend_stays_down_until_it_passed_enough_checks(backend, results.drop_last());
    }
}

/// The third passed check brings a backend that went down back up, with a clean
/// record.
pub proof fn law_backend_recovers_by_passing_enough_checks(
    backend: BackendState,
    results: Seq<bool>,
)
    requires
        !backend.healthy,
        results.len() > 0,
        results.last(),
        backend.health_check_consecutive_successes + passes(results)
            == CONSECUTIVE_SUCCESSES_TO_MARK_HEALTHY,
    ensures
        backend.after_health_checks(results) == (BackendState {
            healthy: true,
            consecutive_failures: 0,
            health_check_consecutive_successes: 0,
            health_check_consecutive_failures: 0,
            ..backend
        }),
{
    law_backend_stays_down_until_it_passed_enough_checks(backend, results.drop_last());
}

/// Checks never touch a backend's address or what an operator decided about it.
pub proof fn law_checks_leave_address_and_switch_alone(backend: BackendState, results: Seq<bool>)
    ensures
        backend.after_health_checks(results).addr == backend.addr,
        backend.after_health_checks(results).enabled == backend.enabled,
    decreases results.len(),
{
    if results.len() > 0 {
        law_checks_leave_address_and_switch_alone(backend, results.drop_last());
    }
}

/// The counts of passed and failed checks stay short of their thresholds, from a
/// fresh backend on and whatever happens to it.
pub proof fn law_check_counts_stay_in_bounds(backend: BackendState, passed: bool, addr: Seq<char>)
    ensures
        BackendState::fresh(addr).counts_in_bounds(),
        backend.counts_in_bounds() ==> {
            &&& backend.after_health_check(passed).counts_in_bounds()
            &&& backend.after_failure().counts_in_bounds()
            &&& backend.after_answer().counts_in_bounds()
        },
{
}

} // verus!
