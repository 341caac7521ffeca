//! Idle connections to backends, kept so that not every request opens a new one.

use vstd::prelude::*;

use crate::sequences::lemma_filter_picks;

verus! {

/// How many seconds opening a connection to a backend may take.
pub const CONNECT_TIMEOUT_SECS: u64 = 3;

/// A connection that nobody uses at the moment.
#[verifier::ext_equal]
pub struct PooledConnection<C> {
    pub sender: C,
    /// When it was put back, in nanoseconds on a clock that only goes forward.
    pub last_used: u128,
}

/// The idle connections to one backend, in the order in which they were put back.
struct HostPool<C> {
    addr: String,
    connections: Vec<PooledConnection<C>>,
}

/// The idle connections to all backends. `C` is a handle on a connection.
pub struct ConnectionPools<C> {
    pools: Vec<HostPool<C>>,
    max_idle_per_host: usize,
    idle_timeout: u128,
}

/// What [`ConnectionPools`] hold, by backend address.
#[verifier::ext_equal]
#[verifier::reject_recursive_types(C)]
pub struct PoolsState<C> {
    pub pools: Map<Seq<char>, Seq<PooledConnection<C>>>,
    pub max_idle_per_host: nat,
    pub idle_timeout: nat,
}

/// How much later than `since` it is at `now`; nothing, if it is not later.
pub open spec fn elapsed(now: u128, since: u128) -> int {
    if now >= since {
        now - since
    } else {
        0
    }
}

impl<C> PoolsState<C> {
    /// No pool holds more than the maximum.
    pub open spec fn valid(self) -> bool {
        forall|addr: Seq<char>| #[trigger]
            self.pools.contains_key(addr) ==> self.pools[addr].len() <= self.max_idle_per_host
    }

    /// The predicate for connections that have not been idle for too long.
    pub open spec fn fresh(self, now: u128) -> spec_fn(PooledConnection<C>) -> bool {
        |connection: PooledConnection<C>| elapsed(now, connection.last_used) < self.idle_timeout
    }

    /// The pools with one of them replaced.
    pub open spec fn with_pool(
        self,
        addr: Seq<char>,
        connections: Seq<PooledConnection<C>>,
    ) -> PoolsState<C> {
        PoolsState { pools: self.pools.insert(addr, connections), ..self }
    }

    /// The pools without the connections to `addr` that were idle for too long.
    pub open spec fn purged(self, addr: Seq<char>, now: u128) -> PoolsState<C> {
        self.with_pool(addr, self.pools[addr].filter(self.fresh(now)))
    }

    /// The connection to `addr` that was put back last.
    pub open spec fn latest(self, addr: Seq<char>) -> Option<C> {
        if self.pools[addr].len() > 0 {
            Some(self.pools[addr].last().sender)
        } else {
            None
        }
    }

    /// The pools without the connection to `addr` that was put back last.
    pub open spec fn without_latest(self, addr: Seq<char>) -> PoolsState<C> {
        if self.pools[addr].len() > 0 {
            self.with_pool(addr, self.pools[addr].drop_last())
        } else {
            self
        }
    }

    /// The pools after a connection to `addr` was put back, if there was room.
    pub open spec fn returned(self, addr: Seq<char>, sender: C, now: u128) -> PoolsState<C> {
        if self.pools[addr].len() < self.max_idle_per_host {
            self.with_pool(
                addr,
                self.pools[addr].push(PooledConnection { sender, last_used: now }),
            )
        } else {
            self
        }
    }

    /// The pools after the connections to `addr` were thrown away.
    pub open spec fn emptied(self, addr: Seq<char>) -> PoolsState<C> {
        if self.pools.contains_key(addr) {
            self.with_pool(addr, Seq::empty())
        } else {
            self
        }
    }
}

/// No two of the pools are for the same address.
spec fn distinct<C>(pools: Seq<HostPool<C>>) -> bool {
    forall|i: int, j: int|
        0 <= i < j < pools.len() ==> #[trigger] pools[i].addr@ != #[trigger] pools[j].addr@
}

/// Whether the pool at `i` is the one for `addr`.
spec fn serves<C>(pools: Seq<HostPool<C>>, addr: Seq<char>, i: int) -> bool {
    0 <= i < pools.len() && pools[i].addr@ == addr
}

/// Whether there is a pool for `addr`.
spec fn served<C>(pools: Seq<HostPool<C>>, addr: Seq<char>) -> bool {
    exists|i: int| serves(pools, addr, i)
}

/// The connections in `pools`, by address.
spec fn by_address<C>(pools: Seq<HostPool<C>>) -> Map<Seq<char>, Seq<PooledConnection<C>>> {
    Map::new(
        |addr: Seq<char>| served(pools, addr),
        |addr: Seq<char>| pools[choose|i: int| serves(pools, addr, i)].connections@,
    )
}

impl<C> View for ConnectionPools<C> {
    type V = PoolsState<C>;

    closed spec fn view(&self) -> PoolsState<C> {
        PoolsState {
            pools: by_address(self.pools@),
            max_idle_per_host: self.max_idle_per_host as nat,
            idle_timeout: self.idle_timeout as nat,
        }
    }
}

proof fn lemma_lookup<C>(pools: Seq<HostPool<C>>, addr: Seq<char>, i: int)
    requires
        distinct(pools),
        serves(pools, addr, i),
    ensures
        by_address(pools).contains_key(addr),
        by_address(pools)[addr] == pools[i].connections@,
{
    let j = choose|j: int| serves(pools, addr, j);
    assert(serves(pools, addr, j));
    assert(i == j) by {
        if i < j {
            assert(pools[i].addr@ != pools[j].addr@);
        } else if j < i {
            assert(pools[j].addr@ != pools[i].addr@);
        }
    }
}

/// Replacing the connections of the pool at `i` replaces them in the map.
proof fn lemma_replace<C>(before: Seq<HostPool<C>>, after: Seq<HostPool<C>>, i: int)
    requires
        distinct(before),
        0 <= i < before.len(),
        after.len() == before.len(),
        after[i].addr@ == before[i].addr@,
        forall|j: int| 0 <= j < before.len() && j != i ==> after[j] == before[j],
    ensures
        distinct(after),
        by_address(after) == by_address(before).insert(before[i].addr@, after[i].connections@),
{
    let addr = before[i].addr@;
    assert forall|j: int, k: int| 0 <= j < k < after.len() implies #[trigger] after[j].addr@
        != #[trigger] after[k].addr@ by {
        assert(before[j].addr@ != before[k].addr@);
    }
    assert(by_address(after) =~= by_address(before).insert(addr, after[i].connections@)) by {
        assert forall|a: Seq<char>, j: int| serves(before, a, j) == serves(after, a, j) by {}
        assert(serves(after, addr, i));
        assert forall|a: Seq<char>|
            by_address(after).contains_key(a) == by_address(before).insert(
                addr,
                after[i].connections@,
            ).contains_key(a) by {
            if by_address(after).contains_key(a) {
                let j = choose|j: int| serves(after, a, j);
                assert(serves(before, a, j));
            }
            if by_address(before).contains_key(a) {
                let j = choose|j: int| serves(before, a, j);
                assert(serves(after, a, j));
            }
        }
        assert forall|a: Seq<char>| by_address(after).contains_key(a) implies by_address(after)[a]
            == by_address(before).insert(addr, after[i].connections@)[a] by {
            let j = choose|j: int| serves(after, a, j);
            assert(serves(after, a, j) && serves(before, a, j));
            lemma_lookup(after, a, j);
            lemma_lookup(before, a, j);
        }
    }
}

/// The position of the pool for `addr`.
fn locate<C>(pools: &Vec<HostPool<C>>, addr: &str) -> (res: Option<usize>)
    ensures
        match res {
            Some(i) => serves(pools@, addr@, i as int),
            None => forall|i: int| !serves(pools@, addr@, i),
        },
{
    let key: String = addr.to_string();
    let mut i: usize = 0;
    while i < pools.len()
        invariant
            i <= pools.len(),
            key@ == addr@,
            forall|j: int| 0 <= j < i ==> !serves(pools@, addr@, j),
        decreases pools.len() - i,
    {
        if pools[i].addr == key {
            return Some(i);
        }
        i += 1;
    }
    None
}

/// The connections that have not been idle for too long, in the same order.
fn keep_fresh<C>(
    connections: Vec<PooledConnection<C>>,
    now: u128,
    idle_timeout: u128,
) -> (kept: Vec<PooledConnection<C>>)
    ensures
        kept@ == connections@.filter(
            |connection: PooledConnection<C>| elapsed(now, connection.last_used) < idle_timeout,
        ),
{
    let ghost fresh = |connection: PooledConnection<C>|
        elapsed(now, connection.last_used) < idle_timeout;
    let ghost all = connections@;
    let mut kept: Vec<PooledConnection<C>> = Vec::new();
    assert(all.take(0).filter(fresh) =~= Seq::<PooledConnection<C>>::empty()) by {
        reveal(Seq::filter);
    }
    for connection in iter: connections
        invariant
            iter.seq() == all,
            fresh == (|connection: PooledConnection<C>|
                elapsed(now, connection.last_used) < idle_timeout),
            kept@ == all.take(iter.index()).filter(fresh),
    {
        let idle: u128 = now.saturating_sub(connection.last_used);
        proof {
            let more = all.take(iter.index() + 1);
            assert(more.drop_last() =~= all.take(iter.index()));
            assert(more.last() == connection);
            reveal(Seq::filter);
        }
        if idle < idle_timeout {
            kept.push(connection);
        }
    }
    assert(all.take(all.len() as int) =~= all);
    kept
}

impl<C> ConnectionPools<C> {
    #[verifier::type_invariant]
    spec fn well_formed(self) -> bool {
        &&& distinct(self.pools@)
        &&& forall|i: int|
            0 <= i < self.pools@.len() ==> (#[trigger] self.pools@[i]).connections@.len()
                <= self.max_idle_per_host
    }

    proof fn lemma_valid(self)
        requires
            self.well_formed(),
        ensures
            self@.valid(),
    {
        assert forall|addr: Seq<char>| #[trigger] self@.pools.contains_key(addr) implies
            self@.pools[addr].len() <= self@.max_idle_per_host by {
            let i = choose|i: int| serves(self.pools@, addr, i);
            assert(serves(self.pools@, addr, i));
            lemma_lookup(self.pools@, addr, i);
        }
    }

    /// Pools for the given addresses, with no connections in them. A pool keeps up
    /// to `max_idle_per_host` connections, each for less than `idle_timeout`
    /// nanoseconds.
    pub fn new(
        max_idle_per_host: usize,
        idle_timeout: u128,
        backends_addresses: Vec<&str>,
    ) -> (res: Self)
        ensures
            res@.max_idle_per_host == max_idle_per_host,
            res@.idle_timeout == idle_timeout,
            forall|addr: Seq<char>| #[trigger]
                res@.pools.contains_key(addr) <==> exists|i: int|
                    0 <= i < backends_addresses@.len() && #[trigger] backends_addresses@[i]@
                        == addr,
            forall|addr: Seq<char>| #[trigger]
                res@.pools.contains_key(addr) ==> res@.pools[addr] == Seq::<
                    PooledConnection<C>,
                >::empty(),
            res@.valid(),
    {
        let mut pools: Vec<HostPool<C>> = Vec::new();
        let mut n: usize = 0;
        while n < backends_addresses.len()
            invariant
                n <= backends_addresses.len(),
                distinct(pools@),
                forall|j: int| 0 <= j < pools@.len() ==> (#[trigger] pools@[j]).connections@.len() == 0,
                forall|j: int| #![trigger pools@[j]]
                    0 <= j < pools@.len() ==> exists|i: int|
                        0 <= i < n && #[trigger] backends_addresses@[i]@ == pools@[j].addr@,
                forall|i: int| 0 <= i < n ==> #[trigger] served(pools@, backends_addresses@[i]@),
            decreases backends_addresses.len() - n,
        {
            let addr: &str = backends_addresses[n];
            let ghost before = pools@;
            match locate(&pools, addr) {
                Some(at) => {
                    assert(serves(pools@, addr@, at as int));
                    assert(served(pools@, addr@));
                },
                None => {
                    pools.push(HostPool { addr: addr.to_string(), connections: Vec::new() });
                    proof {
                        let last = before.len() as int;
                        assert(serves(pools@, addr@, last));
                        assert(served(pools@, addr@));
                        assert(backends_addresses@[n as int]@ == pools@[last].addr@);
                        assert forall|j: int, k: int| 0 <= j < k < pools@.len() implies
                            #[trigger] pools@[j].addr@ != #[trigger] pools@[k].addr@ by {
                            assert(!serves(before, addr@, j));
                        }
                        assert forall|i: int| 0 <= i < n implies #[trigger] served(
                            pools@,
                            backends_addresses@[i]@,
                        ) by {
                            assert(served(before, backends_addresses@[i]@));
                            let j = choose|j: int| serves(before, backends_addresses@[i]@, j);
                            assert(serves(pools@, backends_addresses@[i]@, j));
                        }
                    }
                },
            }
            n += 1;
        }
        let res = ConnectionPools { pools, max_idle_per_host, idle_timeout };
        proof {
            res.lemma_valid();
            assert forall|addr: Seq<char>| #[trigger] res@.pools.contains_key(addr) implies (exists|
                i: int,
            |
                0 <= i < backends_addresses@.len() && #[trigger] backends_addresses@[i]@ == addr)
                && res@.pools[addr] == Seq::<PooledConnection<C>>::empty() by {
                let j = choose|j: int| serves(res.pools@, addr, j);
                assert(serves(res.pools@, addr, j));
                lemma_lookup(res.pools@, addr, j);
            }
        }
        res
    }

    /// Starts looking for a connection to a backend: throws away those that were
    /// idle for too long and takes out the one that was put back last. It has to be
    /// found ready before it is used; if it is not, [`Self::next_connection`] gives
    /// another. `None` says to open a new connection.
    pub fn get_connection(&mut self, backend_addr: &str, now: u128) -> (res: Option<C>)
        requires
            old(self)@.pools.contains_key(backend_addr@),
        ensures
            res == old(self)@.purged(backend_addr@, now).latest(backend_addr@),
            final(self)@ == old(self)@.purged(backend_addr@, now).without_latest(backend_addr@),
            final(self)@.valid(),
    {
        proof {
            use_type_invariant(&*self);
        }
        let ghost state = self@;
        let mut pools: Vec<HostPool<C>> = Vec::new();
        std::mem::swap(&mut pools, &mut self.pools);
        let ghost before = pools@;
        let mut res: Option<C> = None;
        if let Some(i) = locate(&pools, backend_addr) {
            let mut idle: Vec<PooledConnection<C>> = Vec::new();
            std::mem::swap(&mut idle, &mut pools[i].connections);
            let mut kept: Vec<PooledConnection<C>> = keep_fresh(idle, now, self.idle_timeout);
            let ghost purged = kept@;
            if let Some(connection) = kept.pop() {
                res = Some(connection.sender);
            }
            let ghost rest = kept@;
            pools[i].connections = kept;
            proof {
                let addr = backend_addr@;
                lemma_lookup(before, addr, i as int);
                lemma_replace(before, pools@, i as int);
                assert(purged == state.pools[addr].filter(state.fresh(now)));
                state.pools[addr].lemma_filter_len(state.fresh(now));
                assert(state.pools.insert(addr, purged).insert(addr, rest) =~= state.pools.insert(
                    addr,
                    rest,
                ));
            }
        }
        self.pools = pools;
        proof {
            use_type_invariant(&*self);
            self.lemma_valid();
        }
        res
    }

    /// Goes on looking for a connection to a backend after one was found unusable:
    /// takes out the next one, which has to be found ready in its turn. `None` says
    /// to open a new connection.
    pub fn next_connection(&mut self, backend_addr: &str) -> (res: Option<C>)
        requires
            old(self)@.pools.contains_key(backend_addr@),
        ensures
            res == old(self)@.latest(backend_addr@),
            final(self)@ == old(self)@.without_latest(backend_addr@),
            final(self)@.valid(),
    {
        proof {
            use_type_invariant(&*self);
        }
        let ghost state = self@;
        let mut pools: Vec<HostPool<C>> = Vec::new();
        std::mem::swap(&mut pools, &mut self.pools);
        let ghost before = pools@;
        let mut res: Option<C> = None;
        if let Some(i) = locate(&pools, backend_addr) {
            if let Some(connection) = pools[i].connections.pop() {
                res = Some(connection.sender);
            }
            proof {
                lemma_lookup(before, backend_addr@, i as int);
                lemma_replace(before, pools@, i as int);
                assert(by_address(pools@) =~= state.without_latest(backend_addr@).pools);
            }
        }
        self.pools = pools;
        proof {
            use_type_invariant(&*self);
            self.lemma_valid();
        }
        res
    }

    /// Puts a connection back for later requests. It is dropped if the pool is full.
    pub fn return_connection(&mut self, backend_addr: &String, sender: C, now: u128)
        requires
            old(self)@.pools.contains_key(backend_addr@),
        ensures
            final(self)@ == old(self)@.returned(backend_addr@, sender, now),
            final(self)@.valid(),
    {
        proof {
            use_type_invariant(&*self);
        }
        let mut pools: Vec<HostPool<C>> = Vec::new();
        std::mem::swap(&mut pools, &mut self.pools);
        let ghost before = pools@;
        if let Some(i) = locate(&pools, backend_addr.as_str()) {
            proof {
                lemma_lookup(before, backend_addr@, i as int);
            }
            if pools[i].connections.len() < self.max_idle_per_host {
                pools[i].connections.push(PooledConnection { sender, last_used: now });
                proof {
                    lemma_replace(before, pools@, i as int);
                }
            }
        }
        self.pools = pools;
        proof {
            use_type_invariant(&*self);
            self.lemma_valid();
        }
    }

    /// Throws away the idle connections to a backend. There is nothing to do for an
    /// address without a pool.
    pub fn empty_backend_connections(&mut self, backend_addr: &String)
        ensures
            final(self)@ == old(self)@.emptied(backend_addr@),
            final(self)@.valid(),
    {
        proof {
            use_type_invariant(&*self);
        }
        let mut pools: Vec<HostPool<C>> = Vec::new();
        std::mem::swap(&mut pools, &mut self.pools);
        let ghost before = pools@;
        if let Some(i) = locate(&pools, backend_addr.as_str()) {
            pools[i].connections.clear();
            proof {
                lemma_lookup(before, backend_addr@, i as int);
                lemma_replace(before, pools@, i as int);
            }
        }
        self.pools = pools;
        proof {
            use_type_invariant(&*self);
            self.lemma_valid();
        }
    }

    /// Whether there is a pool for this address.
    pub fn has_pool(&self, backend_addr: &str) -> (res: bool)
        ensures
            res == self@.pools.contains_key(backend_addr@),
    {
        match locate(&self.pools, backend_addr) {
            Some(i) => {
                assert(serves(self.pools@, backend_addr@, i as int));
                true
            },
            None => false,
        }
    }
}

/// A connection that was put back is the next one handed out for its backend, if it
/// is asked for before it was idle for too long.
pub proof fn law_returned_connection_is_reused<C>(
    pools: PoolsState<C>,
    addr: Seq<char>,
    sender: C,
    now: u128,
    later: u128,
)
    requires
        pools.pools.contains_key(addr),
        pools.pools[addr].len() < pools.max_idle_per_host,
        elapsed(later, now) < pools.idle_timeout,
    ensures
        pools.returned(addr, sender, now).purged(addr, later).latest(addr) == Some(sender),
        pools.returned(addr, sender, now).purged(addr, later).without_latest(addr)
            == pools.purged(addr, later),
{
    let connection = PooledConnection { sender, last_used: now };
    let fresh = pools.fresh(later);
    let old = pools.pools[addr];
    assert(pools.returned(addr, sender, now).fresh(later) == fresh);
    assert(old.push(connection).drop_last() =~= old);
    assert(old.push(connection).filter(fresh) =~= old.filter(fresh).push(connection)) by {
        reveal(Seq::filter);
    }
    let back = pools.returned(addr, sender, now).purged(addr, later);
    assert(back.pools[addr] == old.filter(fresh).push(connection));
    assert(back.pools[addr].drop_last() =~= old.filter(fresh));
    assert(back.without_latest(addr).pools =~= pools.purged(addr, later).pools);
}

/// The pool for a backend with one more connection at the end.
pub open spec fn with_one_more<C>(
    pools: PoolsState<C>,
    addr: Seq<char>,
    connection: PooledConnection<C>,
) -> PoolsState<C> {
    PoolsState { pools: pools.pools.insert(addr, pools.pools[addr].push(connection)), ..pools }
}

/// Which connections a search throws away: of a pool with one more connection at the end,
/// it keeps what it keeps of the pool without, in the same order, and after that the one
/// more, exactly if it was put back less than the timeout ago. Nothing comes of nothing.
pub proof fn law_searches_keep_what_is_younger_than_the_timeout<C>(
    pools: PoolsState<C>,
    addr: Seq<char>,
    connection: PooledConnection<C>,
    now: u128,
)
    requires
        pools.pools.contains_key(addr),
    ensures
        pools.pools[addr].len() == 0 ==> pools.purged(addr, now).pools[addr].len() == 0,
        now < connection.last_used + pools.idle_timeout && pools.idle_timeout > 0
            ==> with_one_more(pools, addr, connection).purged(addr, now).pools[addr]
            == pools.purged(addr, now).pools[addr].push(connection),
        now >= connection.last_used + pools.idle_timeout || pools.idle_timeout == 0
            ==> with_one_more(pools, addr, connection).purged(addr, now).pools[addr]
            == pools.purged(addr, now).pools[addr],
        pools.purged(addr, now).idle_timeout == pools.idle_timeout,
        pools.purged(addr, now).max_idle_per_host == pools.max_idle_per_host,
{
    let more = with_one_more(pools, addr, connection);
    let fresh = pools.fresh(now);
    let old = pools.pools[addr];
    assert(more.fresh(now) == fresh);
    assert(old.push(connection).drop_last() =~= old);
    reveal(Seq::filter);
    if old.len() == 0 {
        old.lemma_filter_len(fresh);
    }
    assert(more.pools[addr] == old.push(connection));
    assert(old.push(connection).last() == connection);
}

/// A connection is put back at the end of its pool with the time of its return, exactly if
/// there are fewer than the maximum; otherwise the pool is as it was.
pub proof fn law_connections_are_put_back_while_there_is_room<C>(
    pools: PoolsState<C>,
    addr: Seq<char>,
    sender: C,
    now: u128,
)
    requires
        pools.pools.contains_key(addr),
    ensures
        pools.pools[addr].len() < pools.max_idle_per_host ==> pools.returned(
            addr,
            sender,
            now,
        ).pools[addr] == pools.pools[addr].push(PooledConnection { sender, last_used: now }),
        pools.pools[addr].len() >= pools.max_idle_per_host ==> pools.returned(
            addr,
            sender,
            now,
        ).pools[addr] == pools.pools[addr],
        pools.returned(addr, sender, now).idle_timeout == pools.idle_timeout,
        pools.returned(addr, sender, now).max_idle_per_host == pools.max_idle_per_host,
{
}

/// A connection that was put back is handed out by the next search for its backend, exactly
/// if that comes less than the timeout later.
pub proof fn law_reuse_lasts_as_long_as_the_timeout<C>(
    pools: PoolsState<C>,
    addr: Seq<char>,
    sender: C,
    now: u128,
    later: u128,
)
    requires
        pools.pools.contains_key(addr),
        pools.pools[addr].len() == 0,
        pools.max_idle_per_host > 0,
        now <= later,
    ensures
        later - now < pools.idle_timeout ==> pools.returned(addr, sender, now).purged(
            addr,
            later,
        ).latest(addr) == Some(sender),
        later - now >= pools.idle_timeout ==> pools.returned(addr, sender, now).purged(
            addr,
            later,
        ).latest(addr) is None,
{
    let connection = PooledConnection { sender, last_used: now };
    law_searches_keep_what_is_younger_than_the_timeout(pools, addr, connection, later);
    law_connections_are_put_back_while_there_is_room(pools, addr, sender, now);
    assert(pools.returned(addr, sender, now) == with_one_more(pools, addr, connection));
}

/// What a search takes out is the connection at the end of the pool, if there is any; the
/// others stay, in their order.
pub proof fn law_searches_take_from_the_end<C>(pools: PoolsState<C>, addr: Seq<char>)
    requires
        pools.pools.contains_key(addr),
    ensures
        pools.pools[addr].len() == 0 ==> pools.latest(addr) is None,
        pools.pools[addr].len() > 0 ==> pools.latest(addr) == Some(
            pools.pools[addr][pools.pools[addr].len() - 1].sender,
        ),
        pools.pools[addr].len() > 0 ==> pools.without_latest(addr).pools[addr].len()
            == pools.pools[addr].len() - 1,
        forall|i: int|
            0 <= i < pools.pools[addr].len() - 1 ==> #[trigger] pools.without_latest(
                addr,
            ).pools[addr][i] == pools.pools[addr][i],
        pools.without_latest(addr).idle_timeout == pools.idle_timeout,
        pools.without_latest(addr).max_idle_per_host == pools.max_idle_per_host,
{
}

/// Emptying the pool for a backend leaves it with nothing and the terms as they are; there
/// is nothing to do for an address without a pool.
pub proof fn law_emptying_leaves_nothing<C>(pools: PoolsState<C>, addr: Seq<char>)
    ensures
        pools.pools.contains_key(addr) ==> pools.emptied(addr).pools[addr].len() == 0,
        !pools.pools.contains_key(addr) ==> pools.emptied(addr) == pools,
        pools.emptied(addr).idle_timeout == pools.idle_timeout,
        pools.emptied(addr).max_idle_per_host == pools.max_idle_per_host,
{
}

/// Time does not run backwards: a moment that is not later is no time later.
pub proof fn law_elapsed_time(now: u128, since: u128)
    ensures
        now >= since ==> elapsed(now, since) + since == now,
        now < since ==> elapsed(now, since) == 0,
        CONNECT_TIMEOUT_SECS == 3,
{
}

/// A search for a connection begins with a pool from which those that were idle for too
/// long are gone, and to which nothing was added.
pub proof fn law_searches_begin_without_stale_connections<C>(
    pools: PoolsState<C>,
    addr: Seq<char>,
    now: u128,
)
    requires
        pools.pools.contains_key(addr),
    ensures
        forall|i: int|
            0 <= i < pools.purged(addr, now).pools[addr].len() ==> elapsed(
                now,
                (#[trigger] pools.purged(addr, now).pools[addr][i]).last_used,
            ) < pools.idle_timeout,
        forall|i: int|
            0 <= i < pools.purged(addr, now).pools[addr].len() ==> pools.pools[addr].contains(
                #[trigger] pools.purged(addr, now).pools[addr][i],
            ),
{
    let fresh = pools.fresh(now);
    let old = pools.pools[addr];
    let kept = pools.purged(addr, now).pools[addr];
    assert forall|i: int| 0 <= i < kept.len() implies elapsed(now, (#[trigger] kept[i]).last_used)
        < pools.idle_timeout by {
        old.lemma_filter_pred(fresh, i);
        assert(fresh(kept[i]));
    }
    assert forall|i: int| 0 <= i < kept.len() implies old.contains(#[trigger] kept[i]) by {
        lemma_filter_picks(old, fresh, i);
    }
}

/// A connection that is handed out leaves the pool: what was there is what is left
/// and, at the end, the one that was handed out.
pub proof fn law_connections_are_handed_out_once<C>(pools: PoolsState<C>, addr: Seq<char>)
    requires
        pools.pools.contains_key(addr),
    ensures
        match pools.latest(addr) {
            Some(sender) => {
                &&& pools.without_latest(addr).pools[addr].len() + 1 == pools.pools[addr].len()
                &&& pools.pools[addr] == pools.without_latest(addr).pools[addr].push(
                    pools.pools[addr].last(),
                )
                &&& sender == pools.pools[addr].last().sender
            },
            None => pools.without_latest(addr) == pools && pools.pools[addr].len() == 0,
        },
{
    if pools.pools[addr].len() > 0 {
        assert(pools.pools[addr] =~= pools.pools[addr].drop_last().push(pools.pools[addr].last()));
    }
}

impl<C> PoolsState<C> {
    /// The pools after `n` connections to `addr` were taken out, one by one.
    pub open spec fn without_latest_few(self, addr: Seq<char>, n: nat) -> PoolsState<C>
        decreases n,
    {
        if n == 0 {
            self
        } else {
            self.without_latest_few(addr, (n - 1) as nat).without_latest(addr)
        }
    }
}

/// While connections turn out unusable, the search goes through the pool from the one
/// put back last to the one put back first, each once, and then says to open a new one.
pub proof fn law_search_goes_through_the_pool_once<C>(
    pools: PoolsState<C>,
    addr: Seq<char>,
    n: nat,
)
    requires
        pools.pools.contains_key(addr),
    ensures
        pools.without_latest_few(addr, n).latest(addr) == (if n < pools.pools[addr].len() {
            Some(pools.pools[addr][pools.pools[addr].len() - 1 - n].sender)
        } else {
            None
        }),
        pools.without_latest_few(addr, n).pools.contains_key(addr),
        pools.without_latest_few(addr, n).pools[addr] == (if n < pools.pools[addr].len() {
            pools.pools[addr].take(pools.pools[addr].len() - n)
        } else {
            Seq::empty()
        }),
    decreases n,
{
    let all = pools.pools[addr];
    if n == 0 {
        assert(all.take(all.len() as int) =~= all);
        if all.len() == 0 {
            assert(all =~= Seq::empty());
        }
    } else {
        law_search_goes_through_the_pool_once(pools, addr, (n - 1) as nat);
        let before = pools.without_latest_few(addr, (n - 1) as nat).pools[addr];
        if before.len() > 0 {
            assert(before.drop_last() =~= all.take(all.len() - n));
            if n == all.len() {
                assert(before.drop_last() =~= Seq::empty());
            }
        }
    }
}

/// Once its pool was emptied, a backend gets a new connection.
pub proof fn law_emptied_pool_has_nothing_to_reuse<C>(
    pools: PoolsState<C>,
    addr: Seq<char>,
    now: u128,
)
    requires
        pools.pools.contains_key(addr),
    ensures
        pools.emptied(addr).latest(addr) is None,
        pools.emptied(addr).purged(addr, now).latest(addr) is None,
{
    pools.emptied(addr).pools[addr].lemma_filter_len(pools.emptied(addr).fresh(now));
}

/// What is done for one backend leaves the connections to every other one alone,
/// makes no pool and drops none, and keeps every pool within its bounds.
pub proof fn law_pools_are_independent_and_bounded<C>(
    pools: PoolsState<C>,
    addr: Seq<char>,
    sender: C,
    now: u128,
    other: Seq<char>,
)
    requires
        pools.valid(),
        pools.pools.contains_key(addr),
        other != addr,
    ensures
        pools.purged(addr, now).valid(),
        pools.without_latest(addr).valid(),
        pools.returned(addr, sender, now).valid(),
        pools.emptied(addr).valid(),
        pools.purged(addr, now).pools.dom() == pools.pools.dom(),
        pools.without_latest(addr).pools.dom() == pools.pools.dom(),
        pools.returned(addr, sender, now).pools.dom() == pools.pools.dom(),
        pools.emptied(addr).pools.dom() == pools.pools.dom(),
        pools.purged(addr, now).pools[other] == pools.pools[other],
        pools.without_latest(addr).pools[other] == pools.pools[other],
        pools.returned(addr, sender, now).pools[other] == pools.pools[other],
        pools.emptied(addr).pools[other] == pools.pools[other],
{
    pools.pools[addr].lemma_filter_len(pools.fresh(now));
    assert(pools.purged(addr, now).pools.dom() =~= pools.pools.dom());
    assert(pools.without_latest(addr).pools.dom() =~= pools.pools.dom());
    assert(pools.returned(addr, sender, now).pools.dom() =~= pools.pools.dom());
    assert(pools.emptied(addr).pools.dom() =~= pools.pools.dom());
}

} // verus!
