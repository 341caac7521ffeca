//! Backends and the record that is kept of each.

use vstd::prelude::*;

verus! {

/// Failed requests in a row after which a backend is no longer healthy.
pub const MAX_CONSECUTIVE_FAILURES_FOR_A_BACKEND: u8 = 3;

/// One server that requests can be forwarded to.
pub struct Backend {
    /// Where the backend listens, as `host:port`.
    pub addr: String,
    /// Whether requests may be sent there, as far as is known.
    pub healthy: bool,
    /// Failed requests since the last one that was answered.
    pub consecutive_failures: u8,
    /// Health checks passed while the backend was down.
    pub health_check_consecutive_successes: u8,
    /// Health checks failed while the backend was up.
    pub health_check_consecutive_failures: u8,
    /// Whether an operator lets requests go there.
    pub enabled: bool,
}

/// What a [`Backend`] records, with the address as a sequence of characters.
pub struct BackendState {
    pub addr: Seq<char>,
    pub healthy: bool,
    pub consecutive_failures: u8,
    pub health_check_consecutive_successes: u8,
    pub health_check_consecutive_failures: u8,
    pub enabled: bool,
}

impl View for Backend {
    type V = BackendState;

    open spec fn view(&self) -> BackendState {
        BackendState {
            addr: self.addr@,
            healthy: self.healthy,
            consecutive_failures: self.consecutive_failures,
            health_check_consecutive_successes: self.health_check_consecutive_successes,
            health_check_consecutive_failures: self.health_check_consecutive_failures,
            enabled: self.enabled,
        }
    }
}

impl BackendState {
    /// A backend that nothing has happened to yet.
    pub open spec fn fresh(addr: Seq<char>) -> BackendState {
        BackendState {
            addr,
            healthy: true,
            consecutive_failures: 0,
            health_check_consecutive_successes: 0,
            health_check_consecutive_failures: 0,
            enabled: true,
        }
    }

    /// Requests go only to backends that are both healthy and enabled.
    pub open spec fn available(self) -> bool {
        self.enabled && self.healthy
    }

    /// The record after an operator switched the backend on or off.
    pub open spec fn switched(self, on: bool) -> BackendState {
        BackendState { enabled: on, ..self }
    }

    /// The record after one more failed request. The counter is eight bits wide
    /// and wraps around.
    pub open spec fn after_failure(self) -> BackendState {
        let failures = ((self.consecutive_failures + 1) % 256) as u8;
        BackendState {
            consecutive_failures: failures,
            healthy: self.healthy && failures < MAX_CONSECUTIVE_FAILURES_FOR_A_BACKEND,
            ..self
        }
    }

    /// The record after a request that was answered.
    pub open spec fn after_answer(self) -> BackendState {
        BackendState { consecutive_failures: 0, ..self }
    }

    /// The record after `n` failed requests in a row.
    pub open spec fn after_failures(self, n: nat) -> BackendState
        decreases n,
    {
        if n == 0 {
            self
        } else {
            self.after_failures((n - 1) as nat).after_failure()
        }
    }
}

/// `<String as From<&str>>::from` of std, which `Into<String>` on a string slice
/// goes through: the string that comes out has the characters of the slice.
pub assume_specification<'a>[ <String as From<&'a str>>::from ](s: &str) -> (res: String)
    ensures
        res@ == s@,
;

/// The conversion of a type into itself of std, `<Same as From<Same>>::from`, which
/// `Into<String>` on an owned string goes through: it hands back what it was given.
pub assume_specification<Same>[ <Same as From<Same>>::from ](same: Same) -> (res: Same)
    ensures
        res == same,
;

impl Clone for Backend {
    fn clone(&self) -> (res: Self)
        ensures
            res@ == self@,
            res.addr@ == self.addr@,
            res.healthy == self.healthy,
            res.consecutive_failures == self.consecutive_failures,
            res.health_check_consecutive_successes == self.health_check_consecutive_successes,
            res.health_check_consecutive_failures == self.health_check_consecutive_failures,
            res.enabled == self.enabled,
    {
        let mut copy: Backend = Backend::new(self.addr.clone());
        copy.healthy = self.healthy;
        copy.consecutive_failures = self.consecutive_failures;
        copy.health_check_consecutive_successes = self.health_check_consecutive_successes;
        copy.health_check_consecutive_failures = self.health_check_consecutive_failures;
        copy.enabled = self.enabled;
        copy
    }
}

impl Backend {
    /// A backend at `addr`, healthy and enabled, with nothing counted yet.
    pub fn new<T: Into<String>>(addr: T) -> (res: Backend)
        ensures
            call_ensures(<T as Into<String>>::into, (addr,), res.addr),
            res@ == BackendState::fresh(res.addr@),
            res.healthy && res.enabled,
            res.consecutive_failures == 0,
            res.health_check_consecutive_successes == 0,
            res.health_check_consecutive_failures == 0,
    {
        Backend {
            addr: addr.into(),
            healthy: true,
            consecutive_failures: 0,
            health_check_consecutive_successes: 0,
            health_check_consecutive_failures: 0,
            enabled: true,
        }
    }

    /// Whether requests may be forwarded to this backend.
    pub fn is_enabled_and_healthy(&self) -> (res: bool)
        ensures
            res == self@.available(),
            res <==> self.enabled && self.healthy,
    {
        self.enabled && self.healthy
    }

    /// Lets requests go to this backend again.
    pub fn enable(&mut self)
        ensures
            final(self)@ == old(self)@.switched(true),
            *final(self) == (Backend { enabled: true, ..*old(self) }),
    {
        self.enabled = true;
    }

    /// Keeps requests away from this backend.
    pub fn disable(&mut self)
        ensures
            final(self)@ == old(self)@.switched(false),
            *final(self) == (Backend { enabled: false, ..*old(self) }),
    {
        self.enabled = false;
    }

    /// Counts a request that could not be delivered or was not answered. The
    /// backend stops being healthy when too many fail in a row.
    pub fn record_failure(&mut self)
        ensures
            final(self)@ == old(self)@.after_failure(),
            old(self).consecutive_failures < 255 ==> final(self).consecutive_failures == old(
                self,
            ).consecutive_failures + 1,
            old(self).consecutive_failures == 255 ==> final(self).consecutive_failures == 0,
            final(self).healthy <==> old(self).healthy && final(self).consecutive_failures < 3,
            *final(self) == (Backend {
                consecutive_failures: final(self).consecutive_failures,
                healthy: final(self).healthy,
                ..*old(self)
            }),
    {
        self.consecutive_failures = self.consecutive_failures.wrapping_add(1);
        if self.consecutive_failures >= MAX_CONSECUTIVE_FAILURES_FOR_A_BACKEND {
            self.healthy = false;
        }
    }

    /// Notes that a request was answered: the row of failures ends.
    pub fn record_answer(&mut self)
        ensures
            final(self)@ == old(self)@.after_answer(),
            *final(self) == (Backend { consecutive_failures: 0, ..*old(self) }),
    {
        self.consecutive_failures = 0;
    }
}

/// Failed requests act as a health check of their own: a healthy backend stays so
/// through fewer than three failures in a row, and the third takes it down.
pub proof fn law_failures_in_a_row_take_a_backend_down(backend: BackendState, n: nat)
    requires
        backend.healthy,
        backend.consecutive_failures < MAX_CONSECUTIVE_FAILURES_FOR_A_BACKEND,
    ensures
        backend.after_failures(n).healthy <==> backend.consecutive_failures + n
            < MAX_CONSECUTIVE_FAILURES_FOR_A_BACKEND,
        backend.after_failures(n).consecutive_failures == (backend.consecutive_failures + n) % 256,
    decreases n,
{
    if n > 0 {
        law_failures_in_a_row_take_a_backend_down(backend, (n - 1) as nat);
    }
}

/// An answered request wipes out the failures before it: what follows counts as
/// if the backend had never failed.
pub proof fn law_answer_ends_a_row_of_failures(backend: BackendState, before: nat, after: nat)
    requires
        backend.healthy,
        backend.consecutive_failures == 0,
        before < MAX_CONSECUTIVE_FAILURES_FOR_A_BACKEND,
    ensures
        backend.after_failures(before).after_answer() == backend,
        backend.after_failures(before).after_answer().after_failures(after)
            == backend.after_failures(after),
{
    lemma_failures_touch_only_the_count_and_health(backend, before);
    law_failures_in_a_row_take_a_backend_down(backend, before);
}

/// Serving requests never brings a backend back: failures and answers leave an
/// unhealthy backend unhealthy, and touch neither its address, nor what health
/// checks counted, nor what an operator decided.
pub proof fn law_requests_never_revive_a_backend(backend: BackendState)
    ensures
        !backend.healthy ==> !backend.after_failure().healthy && !backend.after_answer().healthy,
        backend.after_failure() == (BackendState {
            healthy: backend.after_failure().healthy,
            consecutive_failures: backend.after_failure().consecutive_failures,
            ..backend
        }),
        backend.after_answer() == (BackendState {
            consecutive_failures: 0,
            ..backend
        }),
{
}

/// A backend that is switched off gets no requests, however healthy it is. Switching
/// it on again undoes just that: everything else is as it was.
pub proof fn law_switching_off_and_on(backend: BackendState)
    ensures
        !backend.switched(false).available(),
        backend.switched(false).switched(true) == backend.switched(true),
        backend.enabled ==> backend.switched(false).switched(true) == backend,
        backend.switched(true).available() <==> backend.healthy,
{
}

/// A new backend is up and switched on, and nothing counts against it.
pub proof fn law_new_backends_start_clean(addr: Seq<char>)
    ensures
        BackendState::fresh(addr).addr == addr,
        BackendState::fresh(addr).healthy,
        BackendState::fresh(addr).enabled,
        BackendState::fresh(addr).consecutive_failures == 0,
        BackendState::fresh(addr).health_check_consecutive_successes == 0,
        BackendState::fresh(addr).health_check_consecutive_failures == 0,
{
}

/// Every failed request counts for one, and a backend is healthy afterwards exactly if it
/// was before and the count is below three.
pub proof fn law_each_failure_counts_for_one(backend: BackendState)
    ensures
        backend.consecutive_failures < 255 ==> backend.after_failure().consecutive_failures
            == backend.consecutive_failures + 1,
        backend.consecutive_failures == 255 ==> backend.after_failure().consecutive_failures == 0,
        backend.after_failure().healthy <==> backend.healthy
            && backend.after_failure().consecutive_failures < 3,
        backend.after_failure().addr == backend.addr,
        backend.after_failure().enabled == backend.enabled,
        backend.after_failure().health_check_consecutive_successes
            == backend.health_check_consecutive_successes,
        backend.after_failure().health_check_consecutive_failures
            == backend.health_check_consecutive_failures,
{
}

/// An answered request changes nothing but the count of failures, which it clears.
pub proof fn law_answers_clear_the_failures_alone(backend: BackendState)
    ensures
        backend.after_answer().consecutive_failures == 0,
        backend.after_answer().healthy == backend.healthy,
        backend.after_answer().addr == backend.addr,
        backend.after_answer().enabled == backend.enabled,
        backend.after_answer().health_check_consecutive_successes
            == backend.health_check_consecutive_successes,
        backend.after_answer().health_check_consecutive_failures
            == backend.health_check_consecutive_failures,
{
}

/// A backend gets requests exactly if it is healthy and switched on, and the switch
/// moves nothing but itself.
pub proof fn law_available_means_healthy_and_enabled(backend: BackendState, on: bool)
    ensures
        backend.available() <==> backend.healthy && backend.enabled,
        backend.switched(on).enabled == on,
        backend.switched(on).healthy == backend.healthy,
        backend.switched(on).addr == backend.addr,
        backend.switched(on).consecutive_failures == backend.consecutive_failures,
        backend.switched(on).health_check_consecutive_successes
            == backend.health_check_consecutive_successes,
        backend.switched(on).health_check_consecutive_failures
            == backend.health_check_consecutive_failures,
{
}

/// What is said of a backend's record is said of the backend itself.
pub proof fn law_record_is_the_backend(backend: Backend)
    ensures
        backend@.addr == backend.addr@,
        backend@.healthy == backend.healthy,
        backend@.enabled == backend.enabled,
        backend@.consecutive_failures == backend.consecutive_failures,
        backend@.health_check_consecutive_successes == backend.health_check_consecutive_successes,
        backend@.health_check_consecutive_failures == backend.health_check_consecutive_failures,
{
}

proof fn lemma_failures_touch_only_the_count_and_health(backend: BackendState, n: nat)
    ensures
        backend.after_failures(n) == (BackendState {
            healthy: backend.after_failures(n).healthy,
            consecutive_failures: backend.after_failures(n).consecutive_failures,
            ..backend
        }),
    decreases n,
{
    if n > 0 {
        lemma_failures_touch_only_the_count_and_health(backend, (n - 1) as nat);
    }
}

} // verus!
