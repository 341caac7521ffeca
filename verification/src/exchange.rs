//! One request on its way to a backend: connecting, sending, and what to do when
//! either fails.
//!
//! A request is [`Connecting`] while a connection to a backend is looked for and
//! [`Sending`] while the backend has it. Each failure leads to the next backend to
//! try, or to the answer that the client gets instead. Other requests may change
//! the [`Balancer`] in between.

use vstd::prelude::*;

use crate::backend::{
    law_answers_clear_the_failures_alone, law_each_failure_counts_for_one, Backend,
};
use crate::balancer::{
    addresses, index_values, law_turn_goes_by_the_count_of_requests,
    law_turns_go_to_usable_backends, lemma_candidate, lemma_place_in_round, Balancer,
    BalancerState,
};
use crate::body::{
    intake, law_only_bodies_of_retriable_requests_are_kept, AttemptBody, BodyInput, BodyStep,
    PrefixBody, RequestBody,
};
use crate::http::{error_response, reply, retriable, ErrorResponse, Reply};
use crate::octets::octets;

verus! {

/// At how many backends a request may fail, all in all.
pub const MAX_RETRY_ATTEMPTS_FOR_GET_CONNECTION: u8 = 3;

/// How many seconds a backend has to answer a request.
pub const REQUEST_TIMEOUT_SECS: u64 = 5;

/// Why no backend could be picked.
pub enum ConnectionError {
    NoHealthyBackend,
    CouldNotConnect,
}

impl ConnectionError {
    /// What the client is told.
    pub open spec fn answer(self) -> Reply {
        match self {
            ConnectionError::NoHealthyBackend => reply(503, "no healthy backend available"@),
            ConnectionError::CouldNotConnect => reply(502, "could not connect to backend"@),
        }
    }

    fn response(self) -> (res: ErrorResponse)
        ensures
            res@ == self.answer(),
    {
        match self {
            ConnectionError::NoHealthyBackend => error_response(
                503,
                "no healthy backend available",
            ),
            ConnectionError::CouldNotConnect => error_response(
                502,
                "could not connect to backend",
            ),
        }
    }
}

/// Why a backend that had a request gave no response.
pub enum RequestError {
    Failed,
    TimedOut,
}

impl RequestError {
    /// What the client is told if nothing else is tried.
    pub open spec fn answer(self) -> Reply {
        match self {
            RequestError::Failed => reply(502, "backend closed connection or failed mid-request"@),
            RequestError::TimedOut => reply(504, "request to backend timed out"@),
        }
    }

    fn response(self) -> (res: ErrorResponse)
        ensures
            res@ == self.answer(),
    {
        match self {
            RequestError::Failed => error_response(
                502,
                "backend closed connection or failed mid-request",
            ),
            RequestError::TimedOut => error_response(504, "request to backend timed out"),
        }
    }
}

/// A request for which a connection to a backend is being looked for.
pub struct Connecting<S> {
    body: RequestBody<S>,
    tried: Vec<String>,
    attempt: u8,
    backend: usize,
    addr: String,
}

/// A request that a backend was sent.
pub struct Sending<S> {
    body: RequestBody<S>,
    tried: Vec<String>,
    attempt: u8,
    backend: usize,
    addr: String,
}

/// What to do with a request next.
pub enum Step<S> {
    /// Get a connection to the backend that it names.
    Connect(Connecting<S>),
    /// Answer the client: nothing else will be tried.
    Reply(ErrorResponse),
}

/// Where a request is going and where it has been.
#[verifier::ext_equal]
pub struct ExchangeState {
    /// The addresses of the backends that it failed at.
    pub tried: Seq<Seq<char>>,
    /// How many times it was sent and not answered.
    pub attempt: nat,
    /// How many times it may be sent.
    pub allowed: nat,
    /// Which backend it is at.
    pub backend: int,
    /// The address of that backend.
    pub addr: Seq<char>,
}

/// What becomes of a request.
#[verifier::ext_equal]
pub enum Outcome {
    Connect(ExchangeState),
    Reply(Reply),
}

impl<S> View for Connecting<S> {
    type V = ExchangeState;

    closed spec fn view(&self) -> ExchangeState {
        ExchangeState {
            tried: addresses(self.tried@),
            attempt: self.attempt as nat,
            allowed: self.body.attempts() as nat,
            backend: self.backend as int,
            addr: self.addr@,
        }
    }
}

impl<S> View for Sending<S> {
    type V = ExchangeState;

    closed spec fn view(&self) -> ExchangeState {
        ExchangeState {
            tried: addresses(self.tried@),
            attempt: self.attempt as nat,
            allowed: self.body.attempts() as nat,
            backend: self.backend as int,
            addr: self.addr@,
        }
    }
}

impl<S> View for Step<S> {
    type V = Outcome;

    open spec fn view(&self) -> Outcome {
        match *self {
            Step::Connect(connecting) => Outcome::Connect(connecting@),
            Step::Reply(response) => Outcome::Reply(response@),
        }
    }
}

impl ExchangeState {
    /// A request fails at fewer than three backends before it goes to another, never
    /// goes to the same address twice, and is sent no more often than it may be.
    pub open spec fn valid(self) -> bool {
        &&& self.tried.len() < MAX_RETRY_ATTEMPTS_FOR_GET_CONNECTION
        &&& self.tried.no_duplicates()
        &&& !self.tried.contains(self.addr)
        &&& self.attempt < self.allowed
        &&& self.attempt <= self.tried.len()
        &&& self.backend >= 0
    }

    /// The addresses at which the request failed, once it fails here too.
    pub open spec fn tried_here(self) -> Seq<Seq<char>> {
        self.tried.push(self.addr)
    }
}

impl BalancerState {
    /// Picks a backend for a request that failed at the addresses in `tried`.
    /// Trying another one in the same search has to be paid for.
    pub open spec fn search(self, tried: Seq<Seq<char>>, first: bool) -> (
        BalancerState,
        Result<int, ConnectionError>,
    ) {
        if tried.len() >= MAX_RETRY_ATTEMPTS_FOR_GET_CONNECTION || (!first
            && !self.retry_budget.affordable()) {
            (self, Err(ConnectionError::CouldNotConnect))
        } else {
            let paid = if first {
                self
            } else {
                self.with_budget(self.retry_budget.withdrawn())
            };
            match paid.turn(tried) {
                Some(i) => (paid.advanced(), Ok(i)),
                None => (paid, Err(ConnectionError::NoHealthyBackend)),
            }
        }
    }

    /// Sends a request on its way, or ends it, after such a search.
    pub open spec fn route(
        self,
        tried: Seq<Seq<char>>,
        attempt: nat,
        allowed: nat,
        first: bool,
    ) -> (BalancerState, Outcome) {
        let (after, found) = self.search(tried, first);
        match found {
            Ok(backend) => (
                after,
                Outcome::Connect(
                    ExchangeState {
                        tried,
                        attempt,
                        allowed,
                        backend,
                        addr: self.backends[backend].addr,
                    },
                ),
            ),
            Err(error) => (after, Outcome::Reply(error.answer())),
        }
    }

    /// Takes up a request that may be sent `allowed` times.
    pub open spec fn started(self, allowed: nat) -> (BalancerState, Outcome) {
        self.route(Seq::empty(), 0, allowed, true)
    }

    /// The state with a failure noted against the backend that a request is at.
    pub open spec fn blamed(self, exchange: ExchangeState) -> BalancerState {
        self.with_backend(
            exchange.backend,
            self.backends[exchange.backend].after_failure(),
        )
    }

    /// Goes on after no connection could be had.
    pub open spec fn after_connect_failure(self, exchange: ExchangeState) -> (
        BalancerState,
        Outcome,
    ) {
        self.blamed(exchange).route(
            exchange.tried_here(),
            exchange.attempt,
            exchange.allowed,
            false,
        )
    }

    /// Goes on after a backend that had the request gave no response. Sending it
    /// again is done only while it is allowed and can be paid for.
    pub open spec fn after_request_failure(
        self,
        exchange: ExchangeState,
        error: RequestError,
    ) -> (BalancerState, Outcome) {
        let blamed = self.blamed(exchange);
        if exchange.attempt + 1 >= exchange.allowed || !blamed.retry_budget.affordable() {
            (blamed, Outcome::Reply(error.answer()))
        } else {
            blamed.with_budget(blamed.retry_budget.withdrawn()).route(
                exchange.tried_here(),
                exchange.attempt + 1,
                exchange.allowed,
                true,
            )
        }
    }

    /// The state after a backend answered the request that it had.
    pub open spec fn after_response(self, exchange: ExchangeState) -> BalancerState {
        self.with_backend(
            exchange.backend,
            self.backends[exchange.backend].after_answer(),
        )
    }
}

/// Picks the backend to connect to, for a request that failed at the addresses in
/// `tried`. Another try in the same search is paid for from the retry budget.
fn get_connection(balancer: &mut Balancer, tried: &Vec<String>, first: bool) -> (res: Result<
    usize,
    ConnectionError,
>)
    ensures
        old(balancer)@.search(addresses(tried@), first).0 == final(balancer)@,
        match res {
            Ok(i) => {
                &&& old(balancer)@.search(addresses(tried@), first).1 == Ok::<
                    int,
                    ConnectionError,
                >(i as int)
                &&& i < final(balancer)@.backends.len()
                &&& final(balancer)@.backends == old(balancer)@.backends
                &&& final(balancer)@.backends[i as int].available()
                &&& !addresses(tried@).contains(final(balancer)@.backends[i as int].addr)
                &&& tried@.len() < MAX_RETRY_ATTEMPTS_FOR_GET_CONNECTION
            },
            Err(error) => old(balancer)@.search(addresses(tried@), first).1 == Err::<
                int,
                ConnectionError,
            >(error),
        },
{
    if tried.len() >= MAX_RETRY_ATTEMPTS_FOR_GET_CONNECTION as usize {
        return Err(ConnectionError::CouldNotConnect);
    }
    if !first && !balancer.retry_budget.try_withdraw() {
        return Err(ConnectionError::CouldNotConnect);
    }
    let ghost paid = balancer@;
    match balancer.pick_backend(tried) {
        Some(i) => {
            proof {
                let gone = addresses(tried@);
                let turn = paid.index as int % paid.candidates(gone).len() as int;
                lemma_candidate(paid, gone, turn);
            }
            Ok(i)
        },
        None => Err(ConnectionError::NoHealthyBackend),
    }
}

/// Sends a request on its way to the backend that is found, or ends it.
fn route<S>(
    balancer: &mut Balancer,
    body: RequestBody<S>,
    tried: Vec<String>,
    attempt: u8,
    first: bool,
) -> (step: Step<S>)
    requires
        addresses(tried@).no_duplicates(),
        attempt < body.attempts(),
        attempt <= tried@.len(),
    ensures
        (final(balancer)@, step@) == old(balancer)@.route(
            addresses(tried@),
            attempt as nat,
            body.attempts() as nat,
            first,
        ),
        step matches Step::Connect(connecting) ==> {
            &&& connecting.body() == body
            &&& connecting@.valid()
            &&& connecting@.backend < final(balancer)@.backends.len()
        },
{
    match get_connection(balancer, &tried, first) {
        Ok(backend) => {
            let addr: String = balancer.backends[backend].addr.clone();
            assert(balancer@.backends[backend as int].addr == addr@);
            Step::Connect(Connecting { body, tried, attempt, backend, addr })
        },
        Err(error) => Step::Reply(error.response()),
    }
}

/// Notes a failure against the backend at `backend`.
fn blame(balancer: &mut Balancer, backend: usize)
    requires
        backend < old(balancer)@.backends.len(),
    ensures
        final(balancer)@ == old(balancer)@.with_backend(
            backend as int,
            old(balancer)@.backends[backend as int].after_failure(),
        ),
{
    let ghost before = balancer@;
    balancer.backends[backend].record_failure();
    assert(balancer@.backends =~= before.backends.update(
        backend as int,
        before.backends[backend as int].after_failure(),
    ));
}

/// One more address at the end.
proof fn lemma_pushed(tried: Seq<String>, addr: String)
    ensures
        addresses(tried.push(addr)) == addresses(tried).push(addr@),
        addresses(tried).no_duplicates() && !addresses(tried).contains(addr@) ==> addresses(
            tried.push(addr),
        ).no_duplicates(),
{
    let before = addresses(tried);
    let after = addresses(tried.push(addr));
    assert(after =~= before.push(addr@));
    if before.no_duplicates() && !before.contains(addr@) {
        assert forall|i: int, j: int|
            0 <= i < after.len() && 0 <= j < after.len() && i != j implies after[i] != after[j] by {
            assert(i < before.len() ==> before.contains(before[i]));
            assert(j < before.len() ==> before.contains(before[j]));
        }
    }
}

/// Takes up a request that was let in, and picks the backend that it goes to first.
pub fn handle_connection<S>(balancer: &mut Balancer, body: RequestBody<S>) -> (step: Step<S>)
    ensures
        (final(balancer)@, step@) == old(balancer)@.started(body.attempts() as nat),
        step matches Step::Connect(connecting) ==> {
            &&& connecting.body() == body
            &&& connecting@.valid()
            &&& connecting@.backend < final(balancer)@.backends.len()
        },
        final(balancer)@.backends == old(balancer)@.backends,
        final(balancer)@.retry_budget == old(balancer)@.retry_budget,
        step is Connect <==> exists|i: int|
            #![trigger old(balancer).backends@[i]]
            0 <= i < old(balancer).backends@.len() && old(balancer).backends@[i].healthy && old(
                balancer,
            ).backends@[i].enabled,
        step matches Step::Connect(connecting) ==> {
            &&& 0 <= connecting@.backend < old(balancer).backends@.len()
            &&& old(balancer).backends@[connecting@.backend].healthy
            &&& old(balancer).backends@[connecting@.backend].enabled
            &&& connecting@.addr == old(balancer).backends@[connecting@.backend].addr@
            &&& connecting@.tried.len() == 0
            &&& connecting@.attempt == 0
            &&& body is Retriable ==> connecting@.allowed == 3
            &&& body is OneShot ==> connecting@.allowed == 1
            &&& old(balancer).index < usize::MAX ==> final(balancer).index == old(balancer).index
                + 1
            &&& old(balancer).index == usize::MAX ==> final(balancer).index == 0
        },
        step matches Step::Reply(response) ==> {
            &&& response.status == 503
            &&& octets(response.body) == vstd::utf8::encode_utf8("no healthy backend available"@)
            &&& final(balancer).index == old(balancer).index
        },
{
    let ghost before = *balancer;
    let tried: Vec<String> = Vec::new();
    assert(addresses(tried@) =~= Seq::<Seq<char>>::empty());
    let step = route(balancer, body, tried, 0, true);
    proof {
        let none = Seq::<Seq<char>>::empty();
        law_turns_go_to_usable_backends(before@, none);
        if step is Connect {
            let i = choose|i: int|
                #![trigger before@.backends[i]]
                0 <= i < before@.backends.len() && before@.backends[i].healthy
                    && before@.backends[i].enabled && !none.contains(before@.backends[i].addr);
            assert(before.backends@[i].healthy && before.backends@[i].enabled);
        } else {
            assert forall|i: int|
                #![trigger before.backends@[i]]
                0 <= i < before.backends@.len() implies !(before.backends@[i].healthy
                && before.backends@[i].enabled) by {
                assert(before@.backends[i] == before.backends@[i]@);
            }
        }
    }
    step
}

impl<S> Connecting<S> {
    #[verifier::type_invariant]
    spec fn well_formed(self) -> bool {
        self@.valid()
    }

    /// The body that the request has.
    pub closed spec fn body(self) -> RequestBody<S> {
        self.body
    }

    /// The backend to connect to, as its position among the backends.
    pub fn backend(&self) -> (res: usize)
        ensures
            res == self@.backend,
    {
        self.backend
    }

    /// The address of the backend to connect to.
    pub fn backend_addr(&self) -> (res: &String)
        ensures
            res@ == self@.addr,
    {
        &self.addr
    }

    /// There is a connection: send the request over it with the body that comes out.
    /// `empty` takes the place of a stream that can be sent only once.
    pub fn connected(self, empty: S) -> (res: (Sending<S>, AttemptBody<S>))
        ensures
            res.0@ == self@,
            res.0@.valid(),
            match self.body() {
                RequestBody::Retriable { bytes } => {
                    &&& res.1 matches AttemptBody::Buffered(copy)
                    &&& octets(copy) == octets(bytes)
                    &&& res.0.body() == self.body()
                },
                RequestBody::OneShot(stream) => {
                    &&& res.1 == AttemptBody::Streamed(stream)
                    &&& res.0.body() == RequestBody::OneShot(empty)
                },
            },
    {
        proof {
            use_type_invariant(&self);
        }
        let mut body: RequestBody<S> = self.body;
        let attempt_body = body.attempt_body(empty);
        (
            Sending {
                body,
                tried: self.tried,
                attempt: self.attempt,
                backend: self.backend,
                addr: self.addr,
            },
            attempt_body,
        )
    }

    /// There is no connection to be had: the backend is to blame, and the request goes
    /// to another one if there is one and the retry can be paid for.
    pub fn failed(self, balancer: &mut Balancer) -> (step: Step<S>)
        requires
            self@.backend < old(balancer)@.backends.len(),
        ensures
            (final(balancer)@, step@) == old(balancer)@.after_connect_failure(self@),
            step matches Step::Connect(connecting) ==> {
                &&& connecting.body() == self.body()
                &&& connecting@.valid()
                &&& connecting@.backend < final(balancer)@.backends.len()
            },
            step is Connect <==> {
                &&& self@.tried.len() + 1 < 3
                &&& old(balancer).retry_budget@.tokens >= old(balancer).retry_budget@.retry_cost
                &&& exists|i: int|
                    #![trigger final(balancer).backends@[i]]
                    {
                        &&& 0 <= i < final(balancer).backends@.len()
                        &&& final(balancer).backends@[i].healthy
                        &&& final(balancer).backends@[i].enabled
                        &&& final(balancer).backends@[i].addr@ != self@.addr
                        &&& !self@.tried.contains(final(balancer).backends@[i].addr@)
                    }
            },
            self@.tried.len() + 1 >= 3 || old(balancer).retry_budget@.tokens < old(
                balancer,
            ).retry_budget@.retry_cost ==> {
                &&& step matches Step::Reply(response)
                &&& response.status == 502
                &&& octets(response.body) == vstd::utf8::encode_utf8(
                    "could not connect to backend"@,
                )
            },
    {
        let ghost before = balancer@;
        proof {
            use_type_invariant(&self);
            lemma_pushed(self.tried@, self.addr);
        }
        blame(balancer, self.backend);
        let mut tried: Vec<String> = self.tried;
        tried.push(self.addr);
        let step = route(balancer, self.body, tried, self.attempt, false);
        proof {
            lemma_goes_on(before, self@, Mishap::NoConnection, *balancer);
        }
        step
    }
}

impl<S> Sending<S> {
    #[verifier::type_invariant]
    spec fn well_formed(self) -> bool {
        self@.valid()
    }

    /// The body that the request has.
    pub closed spec fn body(self) -> RequestBody<S> {
        self.body
    }

    /// The backend that has the request, as its position among the backends.
    pub fn backend(&self) -> (res: usize)
        ensures
            res == self@.backend,
    {
        self.backend
    }

    /// The backend gave no response: it is to blame, and the request is sent again if
    /// that is allowed, can be paid for, and there is another backend.
    pub fn failed(self, error: RequestError, balancer: &mut Balancer) -> (step: Step<S>)
        requires
            self@.backend < old(balancer)@.backends.len(),
        ensures
            (final(balancer)@, step@) == old(balancer)@.after_request_failure(self@, error),
            step matches Step::Connect(connecting) ==> {
                &&& connecting.body() == self.body()
                &&& connecting@.valid()
                &&& connecting@.backend < final(balancer)@.backends.len()
            },
            step is Connect <==> {
                &&& self@.attempt + 1 < self@.allowed
                &&& self@.tried.len() + 1 < 3
                &&& old(balancer).retry_budget@.tokens >= old(balancer).retry_budget@.retry_cost
                &&& exists|i: int|
                    #![trigger final(balancer).backends@[i]]
                    {
                        &&& 0 <= i < final(balancer).backends@.len()
                        &&& final(balancer).backends@[i].healthy
                        &&& final(balancer).backends@[i].enabled
                        &&& final(balancer).backends@[i].addr@ != self@.addr
                        &&& !self@.tried.contains(final(balancer).backends@[i].addr@)
                    }
            },
            self@.attempt + 1 >= self@.allowed || old(balancer).retry_budget@.tokens < old(
                balancer,
            ).retry_budget@.retry_cost ==> {
                &&& step matches Step::Reply(response)
                &&& error is Failed ==> response.status == 502 && octets(response.body)
                    == vstd::utf8::encode_utf8("backend closed connection or failed mid-request"@)
                &&& error is TimedOut ==> response.status == 504 && octets(response.body)
                    == vstd::utf8::encode_utf8("request to backend timed out"@)
            },
    {
        let ghost before = balancer@;
        proof {
            use_type_invariant(&self);
            lemma_pushed(self.tried@, self.addr);
        }
        blame(balancer, self.backend);
        let attempt: u8 = self.attempt + 1;
        if attempt >= self.body.max_attempts() || !balancer.retry_budget.try_withdraw() {
            return Step::Reply(error.response());
        }
        let mut tried: Vec<String> = self.tried;
        tried.push(self.addr);
        let step = route(balancer, self.body, tried, attempt, true);
        proof {
            lemma_goes_on(before, self@, Mishap::NoResponse(error), *balancer);
        }
        step
    }

    /// The backend answered: its response goes to the client, and the connection goes
    /// back to the pool for the address that comes out.
    pub fn answered(self, balancer: &mut Balancer) -> (addr: String)
        requires
            self@.backend < old(balancer)@.backends.len(),
        ensures
            addr@ == self@.addr,
            final(balancer)@ == old(balancer)@.after_response(self@),
            final(balancer).backends@ == old(balancer).backends@.update(
                self@.backend,
                Backend { consecutive_failures: 0, ..old(balancer).backends@[self@.backend] },
            ),
            final(balancer).retry_budget == old(balancer).retry_budget,
            final(balancer).index == old(balancer).index,
    {
        let ghost before = balancer@;
        balancer.backends[self.backend].record_answer();
        assert(balancer@.backends =~= before.backends.update(
            self.backend as int,
            before.backends[self.backend as int].after_answer(),
        ));
        self.addr
    }
}

/// What can go wrong with a request while it is at a backend.
pub enum Mishap {
    /// No connection to the backend could be had.
    NoConnection,
    /// The backend had the request and gave no response.
    NoResponse(RequestError),
}

impl BalancerState {
    /// Goes on after a mishap.
    pub open spec fn after_mishap(self, exchange: ExchangeState, mishap: Mishap) -> (
        BalancerState,
        Outcome,
    ) {
        match mishap {
            Mishap::NoConnection => self.after_connect_failure(exchange),
            Mishap::NoResponse(error) => self.after_request_failure(exchange, error),
        }
    }
}

/// What becomes of a request that meets with these mishaps, in order. Other requests
/// and health checks go on meanwhile, so each mishap comes with the state in which it
/// finds the balancer. There is nothing more to go wrong once the client has its
/// answer.
pub open spec fn after_mishaps(
    exchange: ExchangeState,
    mishaps: Seq<(BalancerState, Mishap)>,
) -> Outcome
    decreases mishaps.len(),
{
    if mishaps.len() == 0 {
        Outcome::Connect(exchange)
    } else {
        match after_mishaps(exchange, mishaps.drop_last()) {
            Outcome::Connect(before) => {
                let (balancer, mishap) = mishaps.last();
                balancer.after_mishap(before, mishap).1
            },
            Outcome::Reply(answer) => Outcome::Reply(answer),
        }
    }
}

/// How many of the mishaps came after the request had been sent.
pub open spec fn sends_lost(mishaps: Seq<(BalancerState, Mishap)>) -> nat
    decreases mishaps.len(),
{
    if mishaps.len() == 0 {
        0
    } else {
        sends_lost(mishaps.drop_last()) + if mishaps.last().1 is NoResponse { 1nat } else { 0 }
    }
}

/// A request goes only to a backend that is healthy, enabled, and not one that it
/// failed at before.
pub proof fn law_requests_go_to_available_backends(
    balancer: BalancerState,
    tried: Seq<Seq<char>>,
    attempt: nat,
    allowed: nat,
    first: bool,
)
    ensures
        balancer.route(tried, attempt, allowed, first).1 matches Outcome::Connect(exchange) ==> {
            &&& 0 <= exchange.backend < balancer.backends.len()
            &&& balancer.backends[exchange.backend].healthy
            &&& balancer.backends[exchange.backend].enabled
            &&& exchange.addr == balancer.backends[exchange.backend].addr
            &&& !tried.contains(exchange.addr)
        },
{
    law_turns_go_to_usable_backends(balancer, tried);
    let paid = balancer.with_budget(balancer.retry_budget.withdrawn());
    law_turns_go_to_usable_backends(paid, tried);
}

/// A request that is let in goes to some backend if there is one that is healthy and
/// enabled, and is answered that there is none otherwise.
pub proof fn law_requests_are_served_when_a_backend_is_available(
    balancer: BalancerState,
    allowed: nat,
)
    ensures
        (exists|i: int|
            0 <= i < balancer.backends.len() && (#[trigger] balancer.backends[i]).available()) ==>
            balancer.started(allowed).1 is Connect,
        !(exists|i: int|
            0 <= i < balancer.backends.len() && (#[trigger] balancer.backends[i]).available()) ==>
            balancer.started(allowed).1 == Outcome::Reply(
            reply(503, "no healthy backend available"@),
        ),
{
    let none = Seq::<Seq<char>>::empty();
    law_turns_go_to_usable_backends(balancer, none);
    if exists|i: int|
        0 <= i < balancer.backends.len() && (#[trigger] balancer.backends[i]).available() {
        let i = choose|i: int|
            0 <= i < balancer.backends.len() && (#[trigger] balancer.backends[i]).available();
        assert(balancer.usable(i, none));
    }
    if balancer.turn(none) is Some {
        let i = choose|i: int|
            0 <= i < balancer.backends.len() && #[trigger] balancer.usable(i, none);
        assert(balancer.backends[i].available());
    }
}

/// From the start and after every mishap, a request that goes on is one that failed at
/// fewer than three backends, goes to no address twice, and was sent fewer times than
/// it may be.
pub proof fn law_exchanges_stay_valid(
    balancer: BalancerState,
    exchange: ExchangeState,
    mishap: Mishap,
    allowed: nat,
)
    requires
        allowed > 0,
    ensures
        balancer.started(allowed).1 matches Outcome::Connect(started) ==> started.valid(),
        exchange.valid() ==> (balancer.after_mishap(exchange, mishap).1 matches Outcome::Connect(
            next,
        ) ==> {
            &&& next.valid()
            &&& next.tried == exchange.tried_here()
            &&& next.allowed == exchange.allowed
            &&& next.attempt == exchange.attempt + if mishap is NoResponse { 1nat } else { 0 }
        }),
{
    law_requests_go_to_available_backends(balancer, Seq::empty(), 0, allowed, true);
    let blamed = balancer.blamed(exchange);
    let paid = blamed.with_budget(blamed.retry_budget.withdrawn());
    let tried = exchange.tried_here();
    law_requests_go_to_available_backends(
        blamed,
        tried,
        exchange.attempt,
        exchange.allowed,
        false,
    );
    law_requests_go_to_available_backends(
        paid,
        tried,
        exchange.attempt + 1,
        exchange.allowed,
        true,
    );
    if exchange.valid() {
        assert forall|i: int, j: int|
            0 <= i < tried.len() && 0 <= j < tried.len() && i != j implies tried[i] != tried[j] by {
            assert(i < exchange.tried.len() ==> exchange.tried.contains(exchange.tried[i]));
            assert(j < exchange.tried.len() ==> exchange.tried.contains(exchange.tried[j]));
        }
    }
}

/// However the balancer changes meanwhile, a request goes to at most three backends,
/// all at different addresses, and is sent at most as often as it may be: after three
/// mishaps, or once it was lost that often, the client has its answer.
pub proof fn law_attempts_are_bounded(
    exchange: ExchangeState,
    mishaps: Seq<(BalancerState, Mishap)>,
)
    requires
        exchange.valid(),
    ensures
        after_mishaps(exchange, mishaps) matches Outcome::Connect(now) ==> {
            &&& now.valid()
            &&& now.tried.len() == exchange.tried.len() + mishaps.len()
            &&& now.attempt == exchange.attempt + sends_lost(mishaps)
            &&& now.allowed == exchange.allowed
        },
        exchange.tried.len() + mishaps.len() >= MAX_RETRY_ATTEMPTS_FOR_GET_CONNECTION
            ==> after_mishaps(exchange, mishaps) is Reply,
        exchange.attempt + sends_lost(mishaps) >= exchange.allowed ==> after_mishaps(
            exchange,
            mishaps,
        ) is Reply,
    decreases mishaps.len(),
{
    if mishaps.len() > 0 {
        law_attempts_are_bounded(exchange, mishaps.drop_last());
        if let Outcome::Connect(before) = after_mishaps(exchange, mishaps.drop_last()) {
            law_exchanges_stay_valid(mishaps.last().0, before, mishaps.last().1, 1);
        }
    }
}

/// A request whose body can be sent only once is sent only once: if the backend that
/// had it gives no response, the client is told so, and no token is spent.
pub proof fn law_one_shot_requests_are_sent_once<S>(
    balancer: BalancerState,
    exchange: ExchangeState,
    error: RequestError,
    stream: S,
)
    requires
        exchange.allowed == RequestBody::OneShot(stream).attempts(),
    ensures
        balancer.after_request_failure(exchange, error) == (
            balancer.blamed(exchange),
            Outcome::Reply(error.answer()),
        ),
{
}

/// Retries are idempotent: a request that was lost after it had been sent goes to another
/// backend only if its method may be repeated and all of its body was kept. This holds of
/// any body that the intake of a request with this method comes to.
pub proof fn law_only_idempotent_requests_are_sent_again<I>(
    method: Seq<char>,
    inputs: Seq<BodyInput>,
    step: BodyStep<I>,
    body: RequestBody<PrefixBody<I>>,
    exchange: ExchangeState,
    mishaps: Seq<(BalancerState, Mishap)>,
)
    requires
        step@ == intake(method, inputs),
        step == BodyStep::Send(body),
        exchange.valid(),
        exchange.allowed == body.attempts(),
        sends_lost(mishaps) > 0,
        after_mishaps(exchange, mishaps) is Connect,
    ensures
        retriable(method),
        body is Retriable,
        intake(method, inputs) is Retriable,
{
    law_attempts_are_bounded(exchange, mishaps);
    law_only_bodies_of_retriable_requests_are_kept(method, inputs);
}

/// A request that may not be repeated is sent at most once: whatever happens, one that
/// was lost after it had been sent is over.
pub proof fn law_other_requests_are_sent_once<I>(
    method: Seq<char>,
    inputs: Seq<BodyInput>,
    step: BodyStep<I>,
    body: RequestBody<PrefixBody<I>>,
    exchange: ExchangeState,
    mishaps: Seq<(BalancerState, Mishap)>,
)
    requires
        !retriable(method),
        step@ == intake(method, inputs),
        step == BodyStep::Send(body),
        exchange.valid(),
        exchange.allowed == body.attempts(),
        sends_lost(mishaps) > 0,
    ensures
        after_mishaps(exchange, mishaps) is Reply,
{
    if after_mishaps(exchange, mishaps) is Connect {
        law_only_idempotent_requests_are_sent_again(
            method,
            inputs,
            step,
            body,
            exchange,
            mishaps,
        );
    }
}

/// Every retry is paid for: a request goes on after a mishap only if the budget could
/// afford it, and costs it exactly the price of one retry. The first try is free.
pub proof fn law_retries_are_paid_for(
    balancer: BalancerState,
    exchange: ExchangeState,
    mishap: Mishap,
    allowed: nat,
)
    ensures
        balancer.started(allowed).0.retry_budget == balancer.retry_budget,
        balancer.after_mishap(exchange, mishap).1 is Connect ==> {
            &&& balancer.retry_budget.affordable()
            &&& balancer.after_mishap(exchange, mishap).0.retry_budget
                == balancer.retry_budget.withdrawn()
        },
        balancer.after_mishap(exchange, mishap).0.retry_budget == balancer.retry_budget
            || balancer.after_mishap(exchange, mishap).0.retry_budget
            == balancer.retry_budget.withdrawn(),
{
}

/// A mishap is noted against the backend that it happened at, once, and against no
/// other; an answer clears that backend alone.
pub proof fn law_only_the_backend_at_fault_is_blamed(
    balancer: BalancerState,
    exchange: ExchangeState,
    mishap: Mishap,
)
    requires
        0 <= exchange.backend < balancer.backends.len(),
    ensures
        balancer.after_mishap(exchange, mishap).0.backends == balancer.backends.update(
            exchange.backend,
            balancer.backends[exchange.backend].after_failure(),
        ),
        balancer.after_response(exchange) == (BalancerState {
            backends: balancer.backends.update(
                exchange.backend,
                balancer.backends[exchange.backend].after_answer(),
            ),
            ..balancer
        }),
{
}

/// What a client is told when its request comes to nothing: that no backend is left,
/// that none could be reached, or how the last one that had the request failed.
pub proof fn law_refused_requests_are_answered(
    balancer: BalancerState,
    exchange: ExchangeState,
    mishap: Mishap,
)
    ensures
        balancer.after_mishap(exchange, mishap).1 matches Outcome::Reply(answer) ==> {
            ||| answer == reply(503, "no healthy backend available"@)
            ||| answer == reply(502, "could not connect to backend"@)
            ||| mishap == Mishap::NoResponse(RequestError::Failed) && answer == reply(
                502,
                "backend closed connection or failed mid-request"@,
            )
            ||| mishap == Mishap::NoResponse(RequestError::TimedOut) && answer == reply(
                504,
                "request to backend timed out"@,
            )
        },
{
}

/// The numbers that bound a request: it may fail at three backends, and each has five
/// seconds for it.
pub proof fn law_bounds_of_a_request(exchange: ExchangeState)
    ensures
        exchange.valid() <==> {
            &&& exchange.tried.len() < 3
            &&& forall|i: int, j: int|
                0 <= i < j < exchange.tried.len() ==> exchange.tried[i] != exchange.tried[j]
            &&& forall|i: int| 0 <= i < exchange.tried.len() ==> exchange.tried[i] != exchange.addr
            &&& exchange.attempt < exchange.allowed
            &&& exchange.attempt <= exchange.tried.len()
            &&& exchange.backend >= 0
        },
        REQUEST_TIMEOUT_SECS == 5,
{
    assert(exchange.tried.contains(exchange.addr) ==> exists|i: int|
        0 <= i < exchange.tried.len() && exchange.tried[i] == exchange.addr);
    if forall|i: int| 0 <= i < exchange.tried.len() ==> exchange.tried[i] != exchange.addr {
        assert(!exchange.tried.contains(exchange.addr));
    }
    if !exchange.tried.contains(exchange.addr) {
        assert forall|i: int| 0 <= i < exchange.tried.len() implies exchange.tried[i]
            != exchange.addr by {
            assert(exchange.tried.contains(exchange.tried[i]));
        }
    }
}

/// What a client is told, word for word.
pub proof fn law_wording_of_the_answers()
    ensures
        ConnectionError::NoHealthyBackend.answer() == (Reply {
            status: 503,
            body: vstd::utf8::encode_utf8("no healthy backend available"@),
        }),
        ConnectionError::CouldNotConnect.answer() == (Reply {
            status: 502,
            body: vstd::utf8::encode_utf8("could not connect to backend"@),
        }),
        RequestError::Failed.answer() == (Reply {
            status: 502,
            body: vstd::utf8::encode_utf8("backend closed connection or failed mid-request"@),
        }),
        RequestError::TimedOut.answer() == (Reply {
            status: 504,
            body: vstd::utf8::encode_utf8("request to backend timed out"@),
        }),
{
}

/// Where a request goes first: of the backends that are healthy and enabled, in the order
/// in which they stand, to the one at the count of requests modulo their number, and the
/// count moves on by one. If there is none, nothing changes and the client is told so.
pub proof fn law_requests_are_taken_up_in_turn(
    balancer: BalancerState,
    allowed: nat,
    order: Seq<int>,
)
    requires
        forall|k: int, l: int| 0 <= k < l < order.len() ==> order[k] < order[l],
        forall|i: int| #[trigger]
            order.contains(i) <==> 0 <= i < balancer.backends.len() && balancer.backends[i].healthy
                && balancer.backends[i].enabled,
    ensures
        balancer.started(allowed).0.backends == balancer.backends,
        balancer.started(allowed).0.retry_budget == balancer.retry_budget,
        order.len() == 0 ==> {
            &&& balancer.started(allowed).0.index == balancer.index
            &&& balancer.started(allowed).1 == Outcome::Reply(
                Reply {
                    status: 503,
                    body: vstd::utf8::encode_utf8("no healthy backend available"@),
                },
            )
        },
        order.len() > 0 ==> {
            let backend = order[balancer.index as int % order.len() as int];
            &&& balancer.index < usize::MAX ==> balancer.started(allowed).0.index == balancer.index
                + 1
            &&& balancer.index == usize::MAX ==> balancer.started(allowed).0.index == 0
            &&& balancer.started(allowed).1 == Outcome::Connect(
                ExchangeState {
                    tried: Seq::empty(),
                    attempt: 0,
                    allowed,
                    backend,
                    addr: balancer.backends[backend].addr,
                },
            )
        },
{
    law_turn_goes_by_the_count_of_requests(balancer, Seq::empty(), order);
}

/// What a mishap does to the balancer, however it ends: the backend that it happened at has
/// one more failure in a row and goes down with the third, no other backend is touched, and
/// at most the price of one retry is taken.
pub proof fn law_mishaps_count_for_one(
    balancer: BalancerState,
    exchange: ExchangeState,
    mishap: Mishap,
)
    requires
        0 <= exchange.backend < balancer.backends.len(),
    ensures
        ({
            let before = balancer.backends;
            let after = balancer.after_mishap(exchange, mishap).0.backends;
            let at = exchange.backend;
            &&& after.len() == before.len()
            &&& forall|j: int| 0 <= j < before.len() && j != at ==> #[trigger] after[j] == before[j]
            &&& before[at].consecutive_failures < 255 ==> after[at].consecutive_failures
                == before[at].consecutive_failures + 1
            &&& before[at].consecutive_failures == 255 ==> after[at].consecutive_failures == 0
            &&& after[at].healthy <==> before[at].healthy && after[at].consecutive_failures < 3
            &&& after[at].addr == before[at].addr
            &&& after[at].enabled == before[at].enabled
            &&& after[at].health_check_consecutive_successes
                == before[at].health_check_consecutive_successes
            &&& after[at].health_check_consecutive_failures
                == before[at].health_check_consecutive_failures
        }),
        balancer.after_mishap(exchange, mishap).0.retry_budget.max_tokens
            == balancer.retry_budget.max_tokens,
        balancer.after_mishap(exchange, mishap).0.retry_budget.retry_cost
            == balancer.retry_budget.retry_cost,
        balancer.retry_budget.tokens < balancer.retry_budget.retry_cost ==> {
            &&& balancer.after_mishap(exchange, mishap).0.retry_budget.tokens
                == balancer.retry_budget.tokens
            &&& balancer.after_mishap(exchange, mishap).1 is Reply
        },
        balancer.after_mishap(exchange, mishap).1 is Reply
            ==> balancer.after_mishap(exchange, mishap).0.index == balancer.index,
        balancer.after_mishap(exchange, mishap).1 is Connect ==> {
            &&& balancer.index < usize::MAX ==> balancer.after_mishap(exchange, mishap).0.index
                == balancer.index + 1
            &&& balancer.index == usize::MAX ==> balancer.after_mishap(exchange, mishap).0.index
                == 0
        },
{
    law_each_failure_counts_for_one(balancer.backends[exchange.backend]);
}

/// Where a request goes when no connection could be had. It is over if this was the third
/// backend or the retry cannot be paid for. Otherwise the retry is paid for, and the request
/// goes to the backend whose turn it is among those, in order, that are still healthy and
/// enabled and at an address that it did not fail at.
pub proof fn law_requests_without_a_connection_go_on(
    balancer: BalancerState,
    exchange: ExchangeState,
    order: Seq<int>,
)
    requires
        0 <= exchange.backend < balancer.backends.len(),
        forall|k: int, l: int| 0 <= k < l < order.len() ==> order[k] < order[l],
        forall|i: int| #[trigger]
            order.contains(i) <==> {
                let left = balancer.after_mishap(exchange, Mishap::NoConnection).0.backends;
                &&& 0 <= i < left.len()
                &&& left[i].healthy
                &&& left[i].enabled
                &&& !exchange.tried.contains(left[i].addr)
                &&& left[i].addr != exchange.addr
            },
    ensures
        ({
            let (after, outcome) = balancer.after_mishap(exchange, Mishap::NoConnection);
            let tokens = balancer.retry_budget.tokens;
            let cost = balancer.retry_budget.retry_cost;
            if exchange.tried.len() + 1 >= 3 || tokens < cost {
                &&& after.retry_budget.tokens == tokens
                &&& outcome == Outcome::Reply(
                    Reply {
                        status: 502,
                        body: vstd::utf8::encode_utf8("could not connect to backend"@),
                    },
                )
            } else {
                &&& after.retry_budget.tokens + cost == tokens
                &&& order.len() == 0 ==> outcome == Outcome::Reply(
                    Reply {
                        status: 503,
                        body: vstd::utf8::encode_utf8("no healthy backend available"@),
                    },
                )
                &&& order.len() > 0 ==> {
                    let next = order[balancer.index as int % order.len() as int];
                    outcome == Outcome::Connect(
                        ExchangeState {
                            tried: exchange.tried.push(exchange.addr),
                            attempt: exchange.attempt,
                            allowed: exchange.allowed,
                            backend: next,
                            addr: balancer.backends[next].addr,
                        },
                    )
                }
            }
        }),
{
    let blamed = balancer.blamed(exchange);
    let paid = blamed.with_budget(blamed.retry_budget.withdrawn());
    law_mishaps_count_for_one(balancer, exchange, Mishap::NoConnection);
    lemma_turn_after_mishap(paid, exchange, order);
}

/// Where a request goes when the backend that had it failed or took too long, which makes
/// no difference but to what the client is told. It is over if it may not be sent again or
/// the retry cannot be paid for. Otherwise the retry is paid for, and the request goes to
/// the backend whose turn it is among those, in order, that are still healthy and enabled
/// and at an address that it did not fail at, unless this was the third backend.
pub proof fn law_lost_requests_go_on(
    balancer: BalancerState,
    exchange: ExchangeState,
    error: RequestError,
    order: Seq<int>,
)
    requires
        0 <= exchange.backend < balancer.backends.len(),
        forall|k: int, l: int| 0 <= k < l < order.len() ==> order[k] < order[l],
        forall|i: int| #[trigger]
            order.contains(i) <==> {
                let left = balancer.after_mishap(exchange, Mishap::NoResponse(error)).0.backends;
                &&& 0 <= i < left.len()
                &&& left[i].healthy
                &&& left[i].enabled
                &&& !exchange.tried.contains(left[i].addr)
                &&& left[i].addr != exchange.addr
            },
    ensures
        ({
            let (after, outcome) = balancer.after_mishap(exchange, Mishap::NoResponse(error));
            let tokens = balancer.retry_budget.tokens;
            let cost = balancer.retry_budget.retry_cost;
            if exchange.attempt + 1 >= exchange.allowed || tokens < cost {
                &&& after.retry_budget.tokens == tokens
                &&& error is Failed ==> outcome == Outcome::Reply(
                    Reply {
                        status: 502,
                        body: vstd::utf8::encode_utf8(
                            "backend closed connection or failed mid-request"@,
                        ),
                    },
                )
                &&& error is TimedOut ==> outcome == Outcome::Reply(
                    Reply {
                        status: 504,
                        body: vstd::utf8::encode_utf8("request to backend timed out"@),
                    },
                )
            } else {
                &&& after.retry_budget.tokens + cost == tokens
                &&& exchange.tried.len() + 1 >= 3 ==> outcome == Outcome::Reply(
                    Reply {
                        status: 502,
                        body: vstd::utf8::encode_utf8("could not connect to backend"@),
                    },
                )
                &&& exchange.tried.len() + 1 < 3 && order.len() == 0 ==> outcome == Outcome::Reply(
                    Reply {
                        status: 503,
                        body: vstd::utf8::encode_utf8("no healthy backend available"@),
                    },
                )
                &&& exchange.tried.len() + 1 < 3 && order.len() > 0 ==> {
                    let next = order[balancer.index as int % order.len() as int];
                    outcome == Outcome::Connect(
                        ExchangeState {
                            tried: exchange.tried.push(exchange.addr),
                            attempt: exchange.attempt + 1,
                            allowed: exchange.allowed,
                            backend: next,
                            addr: balancer.backends[next].addr,
                        },
                    )
                }
            }
        }),
{
    let blamed = balancer.blamed(exchange);
    let paid = blamed.with_budget(blamed.retry_budget.withdrawn());
    law_mishaps_count_for_one(balancer, exchange, Mishap::NoResponse(error));
    lemma_turn_after_mishap(paid, exchange, order);
}

/// Whose turn it is for a request that failed here too.
proof fn lemma_turn_after_mishap(state: BalancerState, exchange: ExchangeState, order: Seq<int>)
    requires
        forall|k: int, l: int| 0 <= k < l < order.len() ==> order[k] < order[l],
        forall|i: int| #[trigger]
            order.contains(i) <==> 0 <= i < state.backends.len() && state.backends[i].healthy
                && state.backends[i].enabled && !exchange.tried.contains(state.backends[i].addr)
                && state.backends[i].addr != exchange.addr,
    ensures
        order.len() == 0 ==> state.turn(exchange.tried_here()) is None,
        order.len() > 0 ==> {
            let next = order[state.index as int % order.len() as int];
            &&& state.turn(exchange.tried_here()) == Some(next)
            &&& 0 <= next < state.backends.len()
        },
{
    let tried = exchange.tried_here();
    assert forall|i: int| #[trigger]
        order.contains(i) <==> 0 <= i < state.backends.len() && state.backends[i].healthy
            && state.backends[i].enabled && !tried.contains(state.backends[i].addr) by {
        lemma_tried_here(exchange, state.backends[i].addr);
    }
    law_turn_goes_by_the_count_of_requests(state, tried, order);
    law_turns_go_to_usable_backends(state, tried);
}

/// The addresses that count as tried are those before and this one.
proof fn lemma_tried_here(exchange: ExchangeState, addr: Seq<char>)
    ensures
        exchange.tried_here().contains(addr) <==> exchange.tried.contains(addr) || addr
            == exchange.addr,
{
    let tried = exchange.tried_here();
    if exchange.tried.contains(addr) {
        let k = choose|k: int| 0 <= k < exchange.tried.len() && exchange.tried[k] == addr;
        assert(tried[k] == addr);
    }
    if addr == exchange.addr {
        assert(tried[exchange.tried.len() as int] == addr);
    }
    if tried.contains(addr) {
        let k = choose|k: int| 0 <= k < tried.len() && tried[k] == addr;
        assert(k < exchange.tried.len() ==> exchange.tried[k] == addr);
    }
}

/// When a request goes on after a mishap, said of the balancer as it is then.
proof fn lemma_goes_on(
    before: BalancerState,
    exchange: ExchangeState,
    mishap: Mishap,
    after: Balancer,
)
    requires
        0 <= exchange.backend < before.backends.len(),
        after@ == before.after_mishap(exchange, mishap).0,
    ensures
        before.after_mishap(exchange, mishap).1 is Connect <==> {
            &&& mishap is NoResponse ==> exchange.attempt + 1 < exchange.allowed
            &&& exchange.tried.len() + 1 < 3
            &&& before.retry_budget.tokens >= before.retry_budget.retry_cost
            &&& exists|i: int|
                #![trigger after.backends@[i]]
                0 <= i < after.backends@.len() && after.backends@[i].healthy
                    && after.backends@[i].enabled && after.backends@[i].addr@ != exchange.addr
                    && !exchange.tried.contains(after.backends@[i].addr@)
        },
{
    if before.after_mishap(exchange, mishap).1 is Connect {
        let blamed = before.blamed(exchange);
        let paid = blamed.with_budget(blamed.retry_budget.withdrawn());
        law_turns_go_to_usable_backends(paid, exchange.tried_here());
        let i = paid.turn(exchange.tried_here())->0;
        lemma_tried_here(exchange, paid.backends[i].addr);
        assert(after@.backends[i] == after.backends@[i]@);
        assert(after.backends@[i].healthy && after.backends@[i].enabled);
    }
    if exists|i: int|
        #![trigger after.backends@[i]]
        0 <= i < after.backends@.len() && after.backends@[i].healthy && after.backends@[i].enabled
            && after.backends@[i].addr@ != exchange.addr && !exchange.tried.contains(
            after.backends@[i].addr@,
        ) {
        let i = choose|i: int|
            #![trigger after.backends@[i]]
            0 <= i < after.backends@.len() && after.backends@[i].healthy
                && after.backends@[i].enabled && after.backends@[i].addr@ != exchange.addr
                && !exchange.tried.contains(after.backends@[i].addr@);
        assert(after@.backends[i] == after.backends@[i]@);
        if (mishap is NoResponse ==> exchange.attempt + 1 < exchange.allowed)
            && exchange.tried.len() + 1 < 3 && before.retry_budget.tokens
            >= before.retry_budget.retry_cost {
            law_retries_happen_when_they_may(before, exchange, mishap, i);
        }
    }
}

/// A retry happens whenever it may: a request that met with a mishap, whatever it was, goes
/// on if this was not the third backend, the budget has the price of a retry, some backend
/// at another address than it failed at is left healthy and enabled, and, where the request
/// had been sent, it may be sent once more.
pub proof fn law_retries_happen_when_they_may(
    balancer: BalancerState,
    exchange: ExchangeState,
    mishap: Mishap,
    i: int,
)
    requires
        0 <= exchange.backend < balancer.backends.len(),
        exchange.tried.len() + 1 < 3,
        mishap is NoResponse ==> exchange.attempt + 1 < exchange.allowed,
        balancer.retry_budget.tokens >= balancer.retry_budget.retry_cost,
        ({
            let left = balancer.after_mishap(exchange, mishap).0.backends;
            &&& 0 <= i < left.len()
            &&& left[i].healthy
            &&& left[i].enabled
            &&& left[i].addr != exchange.addr
            &&& !exchange.tried.contains(left[i].addr)
        }),
    ensures
        balancer.after_mishap(exchange, mishap).1 matches Outcome::Connect(next) && {
            &&& next.tried == exchange.tried.push(exchange.addr)
            &&& next.attempt == exchange.attempt + if mishap is NoResponse { 1nat } else { 0 }
            &&& next.allowed == exchange.allowed
        },
{
    let blamed = balancer.blamed(exchange);
    let paid = blamed.with_budget(blamed.retry_budget.withdrawn());
    let tried = exchange.tried_here();
    lemma_tried_here(exchange, paid.backends[i].addr);
    law_turns_go_to_usable_backends(paid, tried);
    assert(paid.turn(tried) is Some);
}

/// What an answer does to the balancer: the backend that gave it has no failures in a row
/// any more, and nothing else changes.
pub proof fn law_answers_clear_one_backend(balancer: BalancerState, exchange: ExchangeState)
    requires
        0 <= exchange.backend < balancer.backends.len(),
    ensures
        ({
            let before = balancer.backends;
            let after = balancer.after_response(exchange).backends;
            let at = exchange.backend;
            &&& after.len() == before.len()
            &&& forall|j: int| 0 <= j < before.len() && j != at ==> #[trigger] after[j] == before[j]
            &&& after[at].consecutive_failures == 0
            &&& after[at].healthy == before[at].healthy
            &&& after[at].addr == before[at].addr
            &&& after[at].enabled == before[at].enabled
            &&& after[at].health_check_consecutive_successes
                == before[at].health_check_consecutive_successes
            &&& after[at].health_check_consecutive_failures
                == before[at].health_check_consecutive_failures
        }),
        balancer.after_response(exchange).retry_budget == balancer.retry_budget,
        balancer.after_response(exchange).index == balancer.index,
{
    law_answers_clear_the_failures_alone(balancer.backends[exchange.backend]);
}

impl BalancerState {
    /// The state after `n` requests were taken up one after the other, each of which the
    /// backend that it went to answered.
    pub open spec fn after_requests(self, allowed: nat, n: nat) -> BalancerState
        decreases n,
    {
        if n == 0 {
            self
        } else {
            let (taken, outcome) = self.after_requests(allowed, (n - 1) as nat).started(allowed);
            match outcome {
                Outcome::Connect(exchange) => taken.after_response(exchange),
                Outcome::Reply(_) => taken,
            }
        }
    }
}

/// Requests that are answered move the count on and leave who is healthy, enabled and where
/// as it was.
proof fn lemma_after_requests(balancer: BalancerState, allowed: nat, n: nat, order: Seq<int>)
    requires
        order.len() > 0,
        forall|k: int, l: int| 0 <= k < l < order.len() ==> order[k] < order[l],
        forall|i: int| #[trigger]
            order.contains(i) <==> 0 <= i < balancer.backends.len() && balancer.backends[i].healthy
                && balancer.backends[i].enabled,
        n <= index_values(),
    ensures
        ({
            let after = balancer.after_requests(allowed, n);
            &&& after.index == if balancer.index + n < index_values() {
                balancer.index + n
            } else {
                balancer.index + n - index_values()
            }
            &&& after.backends.len() == balancer.backends.len()
            &&& forall|j: int|
                0 <= j < balancer.backends.len() ==> {
                    &&& (#[trigger] after.backends[j]).healthy == balancer.backends[j].healthy
                    &&& after.backends[j].enabled == balancer.backends[j].enabled
                }
        }),
    decreases n,
{
    if n > 0 {
        let before = balancer.after_requests(allowed, (n - 1) as nat);
        lemma_after_requests(balancer, allowed, (n - 1) as nat, order);
        law_requests_are_taken_up_in_turn(before, allowed, order);
        let backend = order[before.index as int % order.len() as int];
        assert(order.contains(backend));
        if let Outcome::Connect(exchange) = before.started(allowed).1 {
            law_answers_clear_one_backend(before.started(allowed).0, exchange);
        }
    }
}

/// Requests go round robin: while each is answered at its first try, and no backend goes
/// down, comes back or is switched meanwhile, as many requests in a row as there are healthy
/// and enabled backends go to each of these exactly once. (A round in which the count of
/// requests wraps around may be cut short, unless the rounds before it came out even.)
pub proof fn law_requests_take_turns(
    balancer: BalancerState,
    allowed: nat,
    order: Seq<int>,
    i: int,
)
    requires
        forall|k: int, l: int| 0 <= k < l < order.len() ==> order[k] < order[l],
        forall|j: int| #[trigger]
            order.contains(j) <==> 0 <= j < balancer.backends.len() && balancer.backends[j].healthy
                && balancer.backends[j].enabled,
        0 <= i < balancer.backends.len(),
        balancer.backends[i].healthy,
        balancer.backends[i].enabled,
        balancer.index + order.len() <= usize::MAX + 1 || (usize::MAX + 1) % order.len() as int
            == 0,
    ensures
        exists|k: nat|
            k < order.len() && (#[trigger] balancer.after_requests(allowed, k).started(
                allowed,
            ).1 matches Outcome::Connect(exchange) && exchange.backend == i),
        forall|k: nat, l: nat|
            k < order.len() && l < order.len() && (#[trigger] balancer.after_requests(
                allowed,
                k,
            ).started(allowed).1 matches Outcome::Connect(exchange) && exchange.backend == i) && (
            #[trigger] balancer.after_requests(allowed, l).started(
                allowed,
            ).1 matches Outcome::Connect(exchange) && exchange.backend == i) ==> k == l,
{
    assert(order.contains(i));
    let n = order.len() as int;
    let at = balancer.index as int % n;
    let j = choose|j: int| 0 <= j < order.len() && order[j] == i;
    assert forall|k: nat| k < n implies {
        &&& #[trigger] balancer.after_requests(allowed, k).started(
            allowed,
        ).1 matches Outcome::Connect(exchange)
        &&& exchange.backend == order[if at + k < n {
            at + k
        } else {
            at + k - n
        }]
    } by {
        lemma_place_in_round(balancer.index as int, k as int, n);
        lemma_after_requests(balancer, allowed, k, order);
        law_requests_are_taken_up_in_turn(
            balancer.after_requests(allowed, k),
            allowed,
            order,
        );
    }
    let k: nat = if j >= at {
        (j - at) as nat
    } else {
        (j - at + n) as nat
    };
    assert(balancer.after_requests(allowed, k).started(allowed).1 matches Outcome::Connect(exchange)
        && exchange.backend == i);
    assert forall|k: nat, l: nat|
        k < n && l < n && (#[trigger] balancer.after_requests(allowed, k).started(
            allowed,
        ).1 matches Outcome::Connect(exchange) && exchange.backend == i) && (
        #[trigger] balancer.after_requests(allowed, l).started(
            allowed,
        ).1 matches Outcome::Connect(exchange) && exchange.backend == i) implies k == l by {
        let p = if at + k < n {
            at + k
        } else {
            at + k - n
        };
        let q = if at + l < n {
            at + l
        } else {
            at + l - n
        };
        assert(order[p] == i && order[q] == i);
        assert(p == q);
    }
}

} // verus!
