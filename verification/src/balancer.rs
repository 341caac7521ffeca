//! What all requests share, and which backend the next one goes to.

use vstd::prelude::*;

use crate::backend::{Backend, BackendState};
use crate::http::{error_response, reply, ErrorResponse};
use crate::octets::octets;
use crate::retry_budget::{BudgetState, RetryBudget};
use crate::sequences::{
    lemma_filter_keeps_distinct, lemma_filter_keeps_increasing, lemma_filter_picks,
    lemma_increasing_is_unique,
};

verus! {

/// The backends, the budget for retries, and the turn in the round robin.
pub struct Balancer {
    pub backends: Vec<Backend>,
    pub retry_budget: RetryBudget,
    /// Counts the requests that were routed; wraps around.
    pub index: usize,
}

/// What a [`Balancer`] records.
#[verifier::ext_equal]
pub struct BalancerState {
    pub backends: Seq<BackendState>,
    pub retry_budget: BudgetState,
    pub index: usize,
}

impl View for Balancer {
    type V = BalancerState;

    open spec fn view(&self) -> BalancerState {
        BalancerState {
            backends: self.backends@.map_values(|backend: Backend| backend@),
            retry_budget: self.retry_budget@,
            index: self.index,
        }
    }
}

impl BalancerState {
    /// Whether any backend is healthy.
    pub open spec fn any_healthy(self) -> bool {
        exists|i: int| 0 <= i < self.backends.len() && (#[trigger] self.backends[i]).healthy
    }

    /// The state with something changed about one backend.
    pub open spec fn with_backend(self, i: int, backend: BackendState) -> BalancerState {
        BalancerState { backends: self.backends.update(i, backend), ..self }
    }

    /// The state with the tokens counted anew.
    pub open spec fn with_budget(self, retry_budget: BudgetState) -> BalancerState {
        BalancerState { retry_budget, ..self }
    }

    /// Whether a request that failed at the addresses in `tried` can go to the
    /// backend at `i`: it has to be healthy and enabled, and not tried yet.
    pub open spec fn usable(self, i: int, tried: Seq<Seq<char>>) -> bool {
        self.backends[i].available() && !tried.contains(self.backends[i].addr)
    }

    /// The backends that such a request can go to, in order.
    pub open spec fn candidates(self, tried: Seq<Seq<char>>) -> Seq<int> {
        Seq::new(self.backends.len(), |i: int| i).filter(|i: int| self.usable(i, tried))
    }

    /// The candidate whose turn it is.
    pub open spec fn turn(self, tried: Seq<Seq<char>>) -> Option<int> {
        let candidates = self.candidates(tried);
        if candidates.len() == 0 {
            None
        } else {
            Some(candidates[self.index as int % candidates.len() as int])
        }
    }

    /// The state after a request was given its turn.
    pub open spec fn advanced(self) -> BalancerState {
        BalancerState {
            index: if self.index < usize::MAX {
                (self.index + 1) as usize
            } else {
                0
            },
            ..self
        }
    }
}

/// The characters of each address.
pub open spec fn addresses(tried: Seq<String>) -> Seq<Seq<char>> {
    tried.map_values(|addr: String| addr@)
}

fn contains_address(tried: &Vec<String>, addr: &String) -> (res: bool)
    ensures
        res == addresses(tried@).contains(addr@),
{
    let mut i: usize = 0;
    while i < tried.len()
        invariant
            i <= tried.len(),
            forall|j: int| 0 <= j < i ==> addresses(tried@)[j] != addr@,
        decreases tried.len() - i,
    {
        if tried[i] == *addr {
            assert(addresses(tried@)[i as int] == addr@);
            return true;
        }
        i += 1;
    }
    false
}

impl Balancer {
    /// A balancer over fresh backends at the given addresses.
    pub fn new(backends_addresses: &Vec<&str>, retry_budget: RetryBudget) -> (res: Self)
        ensures
            res@.backends.len() == backends_addresses@.len(),
            forall|i: int|
                0 <= i < backends_addresses@.len() ==> #[trigger] res@.backends[i]
                    == BackendState::fresh(backends_addresses@[i]@),
            res@.retry_budget == retry_budget@,
            res@.index == 0,
            res.backends@.len() == backends_addresses@.len(),
            forall|i: int|
                0 <= i < backends_addresses@.len() ==> {
                    &&& (#[trigger] res.backends@[i]).addr@ == backends_addresses@[i]@
                    &&& res.backends@[i].healthy
                    &&& res.backends@[i].enabled
                    &&& res.backends@[i].consecutive_failures == 0
                    &&& res.backends@[i].health_check_consecutive_successes == 0
                    &&& res.backends@[i].health_check_consecutive_failures == 0
                },
            res.retry_budget == retry_budget,
            res.index == 0,
    {
        let mut backends: Vec<Backend> = Vec::new();
        let mut i: usize = 0;
        while i < backends_addresses.len()
            invariant
                i <= backends_addresses.len(),
                backends@.len() == i,
                forall|j: int|
                    0 <= j < i ==> (#[trigger] backends@[j])@ == BackendState::fresh(
                        backends_addresses@[j]@,
                    ),
                forall|j: int|
                    0 <= j < i ==> {
                        &&& (#[trigger] backends@[j]).addr@ == backends_addresses@[j]@
                        &&& backends@[j].healthy
                        &&& backends@[j].enabled
                        &&& backends@[j].consecutive_failures == 0
                        &&& backends@[j].health_check_consecutive_successes == 0
                        &&& backends@[j].health_check_consecutive_failures == 0
                    },
            decreases backends_addresses.len() - i,
        {
            let addr: &str = backends_addresses[i];
            backends.push(Backend::new(addr));
            i += 1;
        }
        Balancer { backends, retry_budget, index: 0 }
    }

    /// Lets a request in, if any backend is healthy: it brings a token for the retry
    /// budget. Otherwise this is what to answer.
    pub fn accept_request(&mut self) -> (res: Result<(), ErrorResponse>)
        ensures
            res is Ok <==> old(self)@.any_healthy(),
            res is Ok <==> exists|i: int|
                0 <= i < old(self).backends@.len() && (#[trigger] old(self).backends@[i]).healthy,
            final(self).backends == old(self).backends,
            final(self).index == old(self).index,
            res is Ok && old(self).retry_budget@.tokens < old(self).retry_budget@.max_tokens
                ==> final(self).retry_budget@.tokens == old(self).retry_budget@.tokens + 1,
            res matches Err(response) ==> {
                &&& response.status == 503
                &&& octets(response.body) == vstd::utf8::encode_utf8(
                    "no healthy backend available"@,
                )
                &&& final(self).retry_budget == old(self).retry_budget
            },
            match res {
                Ok(_) => final(self)@ == old(self)@.with_budget(
                    old(self)@.retry_budget.deposited(),
                ),
                Err(response) => {
                    &&& response@ == reply(503, "no healthy backend available"@)
                    &&& final(self)@ == old(self)@
                },
            },
    {
        let mut i: usize = 0;
        while i < self.backends.len()
            invariant
                i <= self.backends.len(),
                self@ == old(self)@,
                *self == *old(self),
                forall|j: int| 0 <= j < i ==> !(#[trigger] self@.backends[j]).healthy,
                forall|j: int| 0 <= j < i ==> !(#[trigger] self.backends@[j]).healthy,
            decreases self.backends.len() - i,
        {
            if self.backends[i].healthy {
                assert(self@.backends[i as int].healthy);
                self.retry_budget.deposit();
                return Ok(());
            }
            i += 1;
        }
        Err(error_response(503, "no healthy backend available"))
    }

    /// Picks the backend for a request that failed at the addresses in `tried`:
    /// takes turns among those that are healthy, enabled and not tried yet.
    pub fn pick_backend(&mut self, tried: &Vec<String>) -> (res: Option<usize>)
        ensures
            match res {
                Some(i) => {
                    &&& old(self)@.turn(addresses(tried@)) == Some(i as int)
                    &&& i < old(self)@.backends.len()
                    &&& final(self)@ == old(self)@.advanced()
                },
                None => {
                    &&& old(self)@.turn(addresses(tried@)) is None
                    &&& final(self)@ == old(self)@
                },
            },
            final(self).backends == old(self).backends,
            final(self).retry_budget == old(self).retry_budget,
            res matches Some(i) ==> {
                &&& i < old(self).backends@.len()
                &&& old(self).backends@[i as int].healthy
                &&& old(self).backends@[i as int].enabled
                &&& forall|k: int|
                    0 <= k < tried@.len() ==> (#[trigger] tried@[k])@ != old(
                        self,
                    ).backends@[i as int].addr@
                &&& old(self).index < usize::MAX ==> final(self).index == old(self).index + 1
                &&& old(self).index == usize::MAX ==> final(self).index == 0
            },
            res is None ==> final(self).index == old(self).index,
    {
        let ghost state = self@;
        let ghost gone = addresses(tried@);
        let ghost all = Seq::new(state.backends.len(), |i: int| i);
        let ghost usable = |i: int| state.usable(i, gone);
        let mut candidates: Vec<usize> = Vec::new();
        let mut i: usize = 0;
        assert(all.take(0).filter(usable) =~= Seq::<int>::empty()) by {
            reveal(Seq::filter);
        }
        while i < self.backends.len()
            invariant
                i <= self.backends.len(),
                self@ == state,
                *self == *old(self),
                gone == addresses(tried@),
                all == Seq::new(state.backends.len(), |i: int| i),
                usable == (|i: int| state.usable(i, gone)),
                candidates@.map_values(|i: usize| i as int) == all.take(i as int).filter(usable),
            decreases self.backends.len() - i,
        {
            let ghost before = candidates@.map_values(|i: usize| i as int);
            let backend: &Backend = &self.backends[i];
            assert(state.backends[i as int] == backend@);
            let fits: bool = backend.is_enabled_and_healthy() && !contains_address(
                tried,
                &backend.addr,
            );
            if fits {
                candidates.push(i);
                assert(candidates@.map_values(|i: usize| i as int) =~= before.push(i as int));
            }
            proof {
                let more = all.take(i + 1);
                assert(more.drop_last() =~= all.take(i as int));
                assert(more.last() == i as int);
                reveal(Seq::filter);
            }
            i += 1;
        }
        assert(all.take(all.len() as int) =~= all);
        assert(candidates@.map_values(|i: usize| i as int) == state.candidates(gone));
        if candidates.len() == 0 {
            return None;
        }
        let turn: usize = self.index % candidates.len();
        let picked: usize = candidates[turn];
        proof {
            assert(state.candidates(gone)[turn as int] == picked as int);
            lemma_candidate(state, gone, turn as int);
            assert(state.backends[picked as int] == self.backends@[picked as int]@);
            assert forall|k: int| 0 <= k < tried@.len() implies (#[trigger] tried@[k])@
                != self.backends@[picked as int].addr@ by {
                assert(gone[k] == tried@[k]@);
            }
        }
        self.index = self.index.wrapping_add(1);
        Some(picked)
    }
}

/// Candidates are usable backends.
pub(crate) proof fn lemma_candidate(state: BalancerState, tried: Seq<Seq<char>>, k: int)
    requires
        0 <= k < state.candidates(tried).len(),
    ensures
        0 <= state.candidates(tried)[k] < state.backends.len(),
        state.usable(state.candidates(tried)[k], tried),
{
    let all = Seq::new(state.backends.len(), |i: int| i);
    let usable = |i: int| state.usable(i, tried);
    all.lemma_filter_pred(usable, k);
    assert(usable(state.candidates(tried)[k]));
    lemma_filter_picks(all, usable, k);
}

/// Every usable backend is a candidate.
proof fn lemma_usable_is_candidate(state: BalancerState, tried: Seq<Seq<char>>, i: int)
    requires
        0 <= i < state.backends.len(),
        state.usable(i, tried),
    ensures
        state.candidates(tried).contains(i),
{
    let all = Seq::new(state.backends.len(), |i: int| i);
    let usable = |i: int| state.usable(i, tried);
    assert(usable(all[i]));
    all.lemma_filter_contains(usable, i);
}

/// No backend is a candidate twice.
proof fn lemma_candidates_differ(state: BalancerState, tried: Seq<Seq<char>>)
    ensures
        state.candidates(tried).no_duplicates(),
{
    let all = Seq::new(state.backends.len(), |i: int| i);
    lemma_filter_keeps_distinct(all, |i: int| state.usable(i, tried));
}

impl BalancerState {
    /// The state after `n` requests were given their turns.
    pub open spec fn after_turns(self, n: nat) -> BalancerState
        decreases n,
    {
        if n == 0 {
            self
        } else {
            self.after_turns((n - 1) as nat).advanced()
        }
    }
}

/// How many values the count of requests can have.
pub open spec fn index_values() -> int {
    usize::MAX + 1
}

proof fn lemma_after_turns(state: BalancerState, n: nat)
    requires
        n <= index_values(),
    ensures
        state.after_turns(n) == (BalancerState {
            index: (if state.index + n < index_values() {
                state.index + n
            } else {
                state.index + n - index_values()
            }) as usize,
            ..state
        }),
    decreases n,
{
    if n > 0 {
        lemma_after_turns(state, (n - 1) as nat);
    }
}

/// Where `k` steps from `index` lead on a round of `n`.
proof fn lemma_step_round(index: int, k: int, n: int)
    requires
        0 <= index,
        0 <= k < n,
    ensures
        (index + k) % n == if index % n + k < n {
            index % n + k
        } else {
            index % n + k - n
        },
{
    let round = index / n;
    let at = index % n;
    vstd::arithmetic::div_mod::lemma_fundamental_div_mod(index, n);
    vstd::arithmetic::div_mod::lemma_mod_multiples_vanish(round, at + k, n);
    if at + k < n {
        vstd::arithmetic::div_mod::lemma_small_mod((at + k) as nat, n as nat);
    } else {
        vstd::arithmetic::div_mod::lemma_mod_multiples_vanish(1, at + k - n, n);
        vstd::arithmetic::div_mod::lemma_small_mod((at + k - n) as nat, n as nat);
    }
}

/// Choosing a backend is done round robin: while the backends stay as they are, each
/// one that a request can go to gets exactly one of as many turns in a row as there
/// are such backends. (A round in which the count of requests wraps around may be cut
/// short, unless the rounds before it came out even.)
pub proof fn law_backends_take_turns(state: BalancerState, tried: Seq<Seq<char>>, i: int)
    requires
        0 <= i < state.backends.len(),
        state.usable(i, tried),
        state.index + state.candidates(tried).len() <= index_values() || index_values()
            % state.candidates(tried).len() as int == 0,
    ensures
        exists|k: nat|
            k < state.candidates(tried).len() && #[trigger] state.after_turns(k).turn(tried)
                == Some(i),
        forall|k: nat, l: nat|
            k < state.candidates(tried).len() && l < state.candidates(tried).len()
                && #[trigger] state.after_turns(k).turn(tried) == Some(i)
                && #[trigger] state.after_turns(l).turn(tried) == Some(i) ==> k == l,
{
    let candidates = state.candidates(tried);
    let n = candidates.len() as int;
    let index = state.index as int;
    lemma_usable_is_candidate(state, tried, i);
    lemma_candidates_differ(state, tried);
    let j = choose|j: int| 0 <= j < candidates.len() && candidates[j] == i;
    let at = index % n;
    assert forall|k: nat| k < n implies #[trigger] state.after_turns(k).turn(tried) == Some(
        candidates[if at + k < n {
            at + k
        } else {
            at + k - n
        }],
    ) by {
        if index_values() % n == 0 {
            vstd::arithmetic::div_mod::lemma_fundamental_div_mod(index_values(), n);
            let rounds = index_values() / n;
            vstd::arithmetic::div_mod::lemma_mod_multiples_vanish(-rounds, index + k, n);
            assert(n * -rounds == -(n * rounds)) by (nonlinear_arith);
            assert(n <= index_values()) by (nonlinear_arith)
                requires
                    index_values() == n * rounds,
                    index_values() > 0,
                    n > 0,
            ;
            assert((index + k - index_values()) % n == (index + k) % n);
        }
        lemma_after_turns(state, k);
        lemma_step_round(index, k as int, n);
        assert(state.after_turns(k).candidates(tried) == candidates) by {
            lemma_same_candidates(state, state.after_turns(k), tried);
        }
    }
    let k: nat = if j >= at {
        (j - at) as nat
    } else {
        (j - at + n) as nat
    };
    assert(state.after_turns(k).turn(tried) == Some(i));
    assert forall|k: nat, l: nat|
        k < n && l < n && #[trigger] state.after_turns(k).turn(tried) == Some(i)
            && #[trigger] state.after_turns(l).turn(tried) == Some(i) implies k == l by {
        let p = if at + k < n {
            at + k
        } else {
            at + k - n
        };
        let q = if at + l < n {
            at + l
        } else {
            at + l - n
        };
        assert(candidates[p] == i && candidates[q] == i);
        assert(p == q);
    }
}

/// The candidates depend on the backends alone.
proof fn lemma_same_candidates(a: BalancerState, b: BalancerState, tried: Seq<Seq<char>>)
    requires
        a.backends == b.backends,
    ensures
        a.candidates(tried) == b.candidates(tried),
{
    let usable_a = |i: int| a.usable(i, tried);
    let usable_b = |i: int| b.usable(i, tried);
    assert(usable_a =~= usable_b);
}

/// The backends that a request can go to are those that are healthy, enabled and at an
/// address not tried, each of them, in the order in which they stand.
proof fn lemma_candidates_in_order(state: BalancerState, tried: Seq<Seq<char>>, order: Seq<int>)
    requires
        forall|k: int, l: int| 0 <= k < l < order.len() ==> order[k] < order[l],
        forall|i: int| #[trigger]
            order.contains(i) <==> 0 <= i < state.backends.len() && state.backends[i].healthy
                && state.backends[i].enabled && !tried.contains(state.backends[i].addr),
    ensures
        state.candidates(tried) == order,
{
    let candidates = state.candidates(tried);
    let all = Seq::new(state.backends.len(), |i: int| i);
    lemma_filter_keeps_increasing(all, |i: int| state.usable(i, tried));
    assert forall|i: int|
        #![trigger candidates.contains(i)]
        #![trigger order.contains(i)]
        candidates.contains(i) <==> order.contains(i) by {
        if candidates.contains(i) {
            let k = choose|k: int| 0 <= k < candidates.len() && candidates[k] == i;
            lemma_candidate(state, tried, k);
        }
        if order.contains(i) {
            lemma_usable_is_candidate(state, tried, i);
        }
    }
    lemma_increasing_is_unique(candidates, order);
}

/// Whose turn it is: of the backends that are healthy, enabled and at an address not tried,
/// in the order in which they stand, the one at the count of requests modulo their number.
pub proof fn law_turn_goes_by_the_count_of_requests(
    state: BalancerState,
    tried: Seq<Seq<char>>,
    order: Seq<int>,
)
    requires
        forall|k: int, l: int| 0 <= k < l < order.len() ==> order[k] < order[l],
        forall|i: int| #[trigger]
            order.contains(i) <==> 0 <= i < state.backends.len() && state.backends[i].healthy
                && state.backends[i].enabled && !tried.contains(state.backends[i].addr),
    ensures
        order.len() == 0 ==> state.turn(tried) is None,
        order.len() > 0 ==> state.turn(tried) == Some(
            order[state.index as int % order.len() as int],
        ),
{
    lemma_candidates_in_order(state, tried, order);
}

/// Giving a request its turn moves the count on by one, round at the end, and touches
/// nothing else.
pub proof fn law_each_turn_counts_for_one(state: BalancerState)
    ensures
        state.index < usize::MAX ==> state.advanced().index == state.index + 1,
        state.index == usize::MAX ==> state.advanced().index == 0,
        state.advanced().backends == state.backends,
        state.advanced().retry_budget == state.retry_budget,
{
}

/// Requests are let in exactly while some backend, wherever it stands, is healthy.
pub proof fn law_any_healthy_backend_lets_requests_in(state: BalancerState, i: int)
    ensures
        0 <= i < state.backends.len() && state.backends[i].healthy ==> state.any_healthy(),
        (forall|j: int| 0 <= j < state.backends.len() ==> !(#[trigger] state.backends[j]).healthy)
            ==> !state.any_healthy(),
{
}

/// A change to one backend, or to the budget, is a change to nothing else.
pub proof fn law_changes_touch_one_thing(
    state: BalancerState,
    i: int,
    backend: BackendState,
    retry_budget: BudgetState,
)
    requires
        0 <= i < state.backends.len(),
    ensures
        state.with_backend(i, backend).backends.len() == state.backends.len(),
        state.with_backend(i, backend).backends[i] == backend,
        forall|j: int|
            0 <= j < state.backends.len() && j != i ==> #[trigger] state.with_backend(
                i,
                backend,
            ).backends[j] == state.backends[j],
        state.with_backend(i, backend).retry_budget == state.retry_budget,
        state.with_backend(i, backend).index == state.index,
        state.with_budget(retry_budget).retry_budget == retry_budget,
        state.with_budget(retry_budget).backends == state.backends,
        state.with_budget(retry_budget).index == state.index,
{
}

/// What is said of a balancer's record is said of the balancer itself, backend by backend,
/// and what is said of addresses is said of the strings.
pub proof fn law_record_is_the_balancer(balancer: Balancer, tried: Seq<String>)
    ensures
        balancer@.backends.len() == balancer.backends@.len(),
        forall|i: int|
            0 <= i < balancer.backends@.len() ==> #[trigger] balancer@.backends[i]
                == balancer.backends@[i]@,
        balancer@.retry_budget == balancer.retry_budget@,
        balancer@.index == balancer.index,
        addresses(tried).len() == tried.len(),
        forall|k: int| 0 <= k < tried.len() ==> #[trigger] addresses(tried)[k] == tried[k]@,
{
}

/// Where the count of requests stands after `k` more, on a round of `n`.
pub(crate) proof fn lemma_place_in_round(index: int, k: int, n: int)
    requires
        0 <= index < index_values(),
        0 <= k < n,
        index + n <= index_values() || index_values() % n == 0,
    ensures
        n <= index_values(),
        (if index + k < index_values() {
            index + k
        } else {
            index + k - index_values()
        }) % n == if index % n + k < n {
            index % n + k
        } else {
            index % n + k - n
        },
{
    lemma_step_round(index, k, n);
    if index_values() % n == 0 {
        vstd::arithmetic::div_mod::lemma_fundamental_div_mod(index_values(), n);
        let rounds = index_values() / n;
        vstd::arithmetic::div_mod::lemma_mod_multiples_vanish(-rounds, index + k, n);
        assert(n * -rounds == -(n * rounds)) by (nonlinear_arith);
        assert(n <= index_values()) by (nonlinear_arith)
            requires
                index_values() == n * rounds,
                index_values() > 0,
                n > 0,
        ;
        assert((index + k - index_values()) % n == (index + k) % n);
    }
}

/// Turns go only to backends that are healthy and enabled and that the request has
/// not failed at, and some such backend gets the turn whenever there is one.
pub proof fn law_turns_go_to_usable_backends(state: BalancerState, tried: Seq<Seq<char>>)
    ensures
        state.turn(tried) matches Some(i) ==> {
            &&& 0 <= i < state.backends.len()
            &&& state.backends[i].healthy
            &&& state.backends[i].enabled
            &&& !tried.contains(state.backends[i].addr)
        },
        state.turn(tried) is Some <==> exists|i: int|
            0 <= i < state.backends.len() && #[trigger] state.usable(i, tried),
        state.turn(tried) is Some <==> exists|i: int|
            #![trigger state.backends[i]]
            0 <= i < state.backends.len() && state.backends[i].healthy && state.backends[i].enabled
                && !tried.contains(state.backends[i].addr),
{
    let candidates = state.candidates(tried);
    if candidates.len() > 0 {
        let k = state.index as int % candidates.len() as int;
        lemma_candidate(state, tried, k);
        assert(state.usable(candidates[k], tried));
    }
    if exists|i: int| 0 <= i < state.backends.len() && #[trigger] state.usable(i, tried) {
        let i = choose|i: int|
            0 <= i < state.backends.len() && #[trigger] state.usable(i, tried);
        lemma_usable_is_candidate(state, tried, i);
    }
    if exists|i: int|
        #![trigger state.backends[i]]
        0 <= i < state.backends.len() && state.backends[i].healthy && state.backends[i].enabled
            && !tried.contains(state.backends[i].addr) {
        let i = choose|i: int|
            #![trigger state.backends[i]]
            0 <= i < state.backends.len() && state.backends[i].healthy && state.backends[i].enabled
                && !tried.contains(state.backends[i].addr);
        assert(state.usable(i, tried));
    }
}

} // verus!
