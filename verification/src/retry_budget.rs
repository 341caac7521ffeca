//! A budget of tokens that retries are paid from.
//!
//! Every request puts one token in, up to a maximum, and every retry takes a
//! fixed number out. So while backends struggle, retries stay a bounded share of
//! the requests.

use vstd::prelude::*;

verus! {

/// The tokens at hand, how many there can be, and what a retry costs.
pub struct RetryBudget {
    tokens: u8,
    max_tokens: u8,
    retry_cost: u8,
}

/// The numbers in a [`RetryBudget`].
pub struct BudgetState {
    pub tokens: nat,
    pub max_tokens: nat,
    pub retry_cost: nat,
}

impl View for RetryBudget {
    type V = BudgetState;

    closed spec fn view(&self) -> BudgetState {
        BudgetState {
            tokens: self.tokens as nat,
            max_tokens: self.max_tokens as nat,
            retry_cost: self.retry_cost as nat,
        }
    }
}

impl BudgetState {
    /// There are never more tokens than the maximum.
    pub open spec fn valid(self) -> bool {
        self.tokens <= self.max_tokens
    }

    /// The budget after a request came in.
    pub open spec fn deposited(self) -> BudgetState {
        BudgetState {
            tokens: if self.tokens < self.max_tokens {
                self.tokens + 1
            } else {
                self.max_tokens
            },
            ..self
        }
    }

    /// Whether a retry can be paid for.
    pub open spec fn affordable(self) -> bool {
        self.tokens >= self.retry_cost
    }

    /// The budget after a retry was asked for: paid if it could be, and
    /// untouched if not.
    pub open spec fn withdrawn(self) -> BudgetState {
        if self.affordable() {
            BudgetState { tokens: (self.tokens - self.retry_cost) as nat, ..self }
        } else {
            self
        }
    }
}

impl RetryBudget {
    #[verifier::type_invariant]
    spec fn within_maximum(self) -> bool {
        self@.valid()
    }

    /// A full budget of `max_tokens`, from which each retry takes `retry_cost`.
    pub fn new(max_tokens: u8, retry_cost: u8) -> (res: Self)
        ensures
            res@ == (BudgetState {
                tokens: max_tokens as nat,
                max_tokens: max_tokens as nat,
                retry_cost: retry_cost as nat,
            }),
            res@.valid(),
    {
        RetryBudget { tokens: max_tokens, max_tokens, retry_cost }
    }

    /// Puts in the token that a request brings along.
    pub fn deposit(&mut self)
        ensures
            final(self)@ == old(self)@.deposited(),
            final(self)@.valid(),
            final(self)@.tokens <= final(self)@.max_tokens,
            old(self)@.tokens < old(self)@.max_tokens ==> final(self)@.tokens == old(self)@.tokens
                + 1,
            old(self)@.tokens >= old(self)@.max_tokens ==> final(self)@.tokens == old(
                self,
            )@.max_tokens,
            final(self)@.max_tokens == old(self)@.max_tokens,
            final(self)@.retry_cost == old(self)@.retry_cost,
    {
        proof {
            use_type_invariant(&*self);
        }
        let more: u8 = self.tokens.saturating_add(1);
        self.tokens = if more <= self.max_tokens {
            more
        } else {
            self.max_tokens
        };
    }

    /// Pays for one retry. Returns whether there were enough tokens; none are
    /// taken if there were not.
    pub fn try_withdraw(&mut self) -> (paid: bool)
        ensures
            paid == old(self)@.affordable(),
            final(self)@ == old(self)@.withdrawn(),
            final(self)@.valid(),
            paid <==> old(self)@.tokens >= old(self)@.retry_cost,
            paid ==> final(self)@.tokens + old(self)@.retry_cost == old(self)@.tokens,
            !paid ==> final(self)@.tokens == old(self)@.tokens,
            final(self)@.max_tokens == old(self)@.max_tokens,
            final(self)@.retry_cost == old(self)@.retry_cost,
    {
        proof {
            use_type_invariant(&*self);
        }
        if self.tokens >= self.retry_cost {
            self.tokens = self.tokens - self.retry_cost;
            true
        } else {
            false
        }
    }
}

/// What can happen to a budget.
pub enum BudgetEvent {
    /// A request came in.
    Deposit,
    /// A retry was asked for.
    Withdraw,
}

/// The budget after `events`, in order.
pub open spec fn budget_after(budget: BudgetState, events: Seq<BudgetEvent>) -> BudgetState
    decreases events.len(),
{
    if events.len() == 0 {
        budget
    } else {
        let before = budget_after(budget, events.drop_last());
        match events.last() {
            BudgetEvent::Deposit => before.deposited(),
            BudgetEvent::Withdraw => before.withdrawn(),
        }
    }
}

/// How many requests came in among `events`.
pub open spec fn requests_in(events: Seq<BudgetEvent>) -> nat
    decreases events.len(),
{
    if events.len() == 0 {
        0
    } else {
        requests_in(events.drop_last()) + if events.last() is Deposit { 1nat } else { 0 }
    }
}

/// How many of the retries among `events` were paid for, starting from `budget`.
pub open spec fn retries_paid(budget: BudgetState, events: Seq<BudgetEvent>) -> nat
    decreases events.len(),
{
    if events.len() == 0 {
        0
    } else {
        let before = budget_after(budget, events.drop_last());
        retries_paid(budget, events.drop_last()) + if events.last() is Withdraw
            && before.affordable() {
            1nat
        } else {
            0
        }
    }
}

/// The budget limits the ratio of retries to requests: over any run, what the
/// retries cost is no more than the tokens at the start and one per request.
pub proof fn law_retries_are_a_bounded_share_of_requests(
    budget: BudgetState,
    events: Seq<BudgetEvent>,
)
    ensures
        budget.retry_cost * retries_paid(budget, events) + budget_after(budget, events).tokens
            <= budget.tokens + requests_in(events),
        budget_after(budget, events).retry_cost == budget.retry_cost,
        budget_after(budget, events).max_tokens == budget.max_tokens,
    decreases events.len(),
{
    if events.len() > 0 {
        law_retries_are_a_bounded_share_of_requests(budget, events.drop_last());
        let paid = retries_paid(budget, events.drop_last());
        assert(budget.retry_cost * (paid + 1) == budget.retry_cost * paid + budget.retry_cost)
            by (nonlinear_arith);
        assert(retries_paid(budget, events) == paid || retries_paid(budget, events) == paid + 1);
    } else {
        assert(budget.retry_cost * 0 == 0) by (nonlinear_arith);
    }
}

/// No run of requests and retries takes the tokens past the maximum.
pub proof fn law_tokens_never_exceed_the_maximum(budget: BudgetState, events: Seq<BudgetEvent>)
    requires
        budget.valid(),
    ensures
        budget_after(budget, events).valid(),
        budget_after(budget, events).max_tokens == budget.max_tokens,
    decreases events.len(),
{
    if events.len() > 0 {
        law_tokens_never_exceed_the_maximum(budget, events.drop_last());
    }
}

/// Every request brings one token until the maximum is reached: so many requests, with
/// nothing taken out, fill the budget by as much, and no further than to the maximum.
pub proof fn law_every_request_brings_a_token(budget: BudgetState, events: Seq<BudgetEvent>)
    requires
        budget.tokens <= budget.max_tokens,
        forall|i: int| 0 <= i < events.len() ==> #[trigger] events[i] is Deposit,
    ensures
        budget.tokens + events.len() <= budget.max_tokens ==> budget_after(budget, events).tokens
            == budget.tokens + events.len(),
        budget.tokens + events.len() >= budget.max_tokens ==> budget_after(budget, events).tokens
            == budget.max_tokens,
        budget_after(budget, events).max_tokens == budget.max_tokens,
        budget_after(budget, events).retry_cost == budget.retry_cost,
    decreases events.len(),
{
    if events.len() > 0 {
        assert(events.last() is Deposit);
        law_every_request_brings_a_token(budget, events.drop_last());
    }
}

/// What one request or one retry does to the tokens, whatever their number: a request
/// adds one below the maximum; a retry is paid exactly if there is enough for it, takes
/// its price then, and takes nothing otherwise. The terms stay as they are.
pub proof fn law_tokens_move_one_in_and_one_price_out(budget: BudgetState)
    ensures
        budget.tokens < budget.max_tokens ==> budget.deposited().tokens == budget.tokens + 1,
        budget.tokens >= budget.max_tokens ==> budget.deposited().tokens == budget.max_tokens,
        budget.affordable() <==> budget.tokens >= budget.retry_cost,
        budget.tokens >= budget.retry_cost ==> budget.withdrawn().tokens + budget.retry_cost
            == budget.tokens,
        budget.tokens < budget.retry_cost ==> budget.withdrawn().tokens == budget.tokens,
        budget.deposited().max_tokens == budget.max_tokens,
        budget.deposited().retry_cost == budget.retry_cost,
        budget.withdrawn().max_tokens == budget.max_tokens,
        budget.withdrawn().retry_cost == budget.retry_cost,
        budget.valid() <==> budget.tokens <= budget.max_tokens,
{
}

/// Retries are granted for as long as the tokens last: of so many asked for in a row, all
/// are paid if there are tokens for all, and the tokens left over are fewer than a retry
/// costs if not.
pub proof fn law_retries_are_granted_while_tokens_last(
    budget: BudgetState,
    events: Seq<BudgetEvent>,
)
    requires
        forall|i: int| 0 <= i < events.len() ==> #[trigger] events[i] is Withdraw,
    ensures
        budget.retry_cost * events.len() <= budget.tokens ==> retries_paid(budget, events)
            == events.len(),
        retries_paid(budget, events) < events.len() ==> budget_after(budget, events).tokens
            < budget.retry_cost,
        budget_after(budget, events).tokens + budget.retry_cost * retries_paid(budget, events)
            == budget.tokens,
        budget_after(budget, events).max_tokens == budget.max_tokens,
        budget_after(budget, events).retry_cost == budget.retry_cost,
    decreases events.len(),
{
    let cost = budget.retry_cost;
    if events.len() > 0 {
        let fewer = events.drop_last();
        assert(events.last() is Withdraw);
        law_retries_are_granted_while_tokens_last(budget, fewer);
        let paid = retries_paid(budget, fewer);
        assert(cost * (paid + 1) == cost * paid + cost) by (nonlinear_arith);
        assert(cost * events.len() == cost * fewer.len() + cost) by (nonlinear_arith)
            requires
                events.len() == fewer.len() + 1,
        ;
        assert(cost * fewer.len() >= 0) by (nonlinear_arith);
        assert(retries_paid(budget, events) == paid || retries_paid(budget, events) == paid + 1);
    } else {
        assert(cost * 0 == 0) by (nonlinear_arith);
    }
}

/// A drained budget grants no retry until enough requests have come in: as many
/// as a retry costs.
pub proof fn law_drained_budget_recovers_one_request_at_a_time(
    budget: BudgetState,
    events: Seq<BudgetEvent>,
)
    requires
        budget.tokens == 0,
        requests_in(events) < budget.retry_cost,
    ensures
        retries_paid(budget, events) == 0,
{
    law_retries_are_a_bounded_share_of_requests(budget, events);
    let paid = retries_paid(budget, events);
    assert(paid >= 1 ==> budget.retry_cost * paid >= budget.retry_cost) by (nonlinear_arith);
}

} // verus!
