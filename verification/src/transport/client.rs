//! Outbound half of the transport: the per-peer circuit breaker and pool of
//! idle connections. Times are milliseconds on a clock that never runs back.

use vstd::prelude::*;

use crate::error::{ErrorView, PcsError};
use crate::table::Table;
use crate::text::{decimal, decimal_text};

verus! {

/// Per-message write timeout, in milliseconds.
pub const RPC_WRITE_TIMEOUT_MILLIS: u64 = 5_000;

/// Per-call response timeout, in milliseconds.
pub const RPC_READ_TIMEOUT_MILLIS: u64 = 5_000;

/// Timeout for establishing a new connection, in milliseconds.
pub const CONNECT_TIMEOUT_MILLIS: u64 = 3_000;

/// Maximum number of idle connections kept per peer.
pub const POOL_CAPACITY: usize = 4;

/// Maximum idle time of a pooled connection, in milliseconds.
pub const POOL_MAX_IDLE_MILLIS: u64 = 10_000;

/// Maximum number of concurrently accepted connections.
pub const MAX_ACCEPTED_CONNECTIONS: usize = 1024;

/// Idle-read timeout of a server connection, in milliseconds.
pub const IDLE_READ_TIMEOUT_MILLIS: u64 = 60_000;

/// Number of consecutive failures before a per-peer circuit opens.
pub const CIRCUIT_OPEN_THRESHOLD: u32 = 5;

/// How long a circuit stays open before a retry is allowed, in milliseconds.
pub const CIRCUIT_OPEN_MILLIS: u64 = 30_000;

/// Fine-grained transport error of the connection pool. Every one of them is
/// a send failure that may be retried.
#[derive(Debug, Clone, PartialEq, Eq)]
pub enum TransportError {
    /// TCP connect failed (peer unreachable or connection refused).
    ConnectFailed(String),
    /// Write to stream failed.
    WriteFailed(String),
    /// Write timed out; the peer send buffer is full.
    WriteTimeout,
    /// Other I/O error.
    Other(String),
}

/// The error's text.
pub open spec fn transport_error_text(e: TransportError) -> Seq<char> {
    match e {
        TransportError::ConnectFailed(m) => "connect failed: "@ + m@,
        TransportError::WriteFailed(m) => "write failed: "@ + m@,
        TransportError::WriteTimeout => "write timeout"@,
        TransportError::Other(m) => "transport error: "@ + m@,
    }
}

fn prefixed(head: &str, tail: &String) -> (r: String)
    ensures
        r@ == head@ + tail@,
{
    let mut m = head.to_owned();
    m.append(tail.as_str());
    m
}

impl TransportError {
    /// The error's text.
    pub fn describe(&self) -> (r: String)
        ensures
            r@ == transport_error_text(*self),
    {
        match self {
            TransportError::ConnectFailed(m) => prefixed("connect failed: ", m),
            TransportError::WriteFailed(m) => prefixed("write failed: ", m),
            TransportError::WriteTimeout => "write timeout".to_owned(),
            TransportError::Other(m) => prefixed("transport error: ", m),
        }
    }
}

/// Per-peer circuit-breaker state.
///
/// Closed until [`CIRCUIT_OPEN_THRESHOLD`] failures follow one another, then
/// open for [`CIRCUIT_OPEN_MILLIS`]. Any success starts the count anew.
#[derive(Debug, Clone, Copy, PartialEq, Eq, Structural)]
pub enum CircuitState {
    Closed { consecutive_failures: u32 },
    Open { opened_at: u64 },
}

/// How long ago `since` was.
pub open spec fn elapsed(since: u64, now: u64) -> int {
    if now >= since {
        now - since
    } else {
        0
    }
}

fn millis_since(since: u64, now: u64) -> (r: u64)
    ensures
        r == elapsed(since, now),
{
    now.saturating_sub(since)
}

/// The circuit blocks sends at `now`.
pub open spec fn blocking(c: CircuitState, now: u64) -> bool {
    c matches CircuitState::Open { opened_at } && elapsed(opened_at, now) < CIRCUIT_OPEN_MILLIS
}

/// The circuit after one more failure at `now`.
pub open spec fn after_failure(c: CircuitState, now: u64) -> CircuitState {
    match c {
        CircuitState::Closed { consecutive_failures } => if consecutive_failures + 1
            >= CIRCUIT_OPEN_THRESHOLD {
            CircuitState::Open { opened_at: now }
        } else {
            CircuitState::Closed { consecutive_failures: (consecutive_failures + 1) as u32 }
        },
        CircuitState::Open { opened_at } => if elapsed(opened_at, now) >= CIRCUIT_OPEN_MILLIS {
            CircuitState::Closed { consecutive_failures: 1 }
        } else {
            c
        },
    }
}

/// The circuit after `n` failures at the given times.
pub open spec fn after_failures(c: CircuitState, at: Seq<u64>) -> CircuitState
    decreases at.len(),
{
    if at.len() == 0 {
        c
    } else {
        after_failure(after_failures(c, at.drop_last()), at.last())
    }
}

impl CircuitState {
    /// A closed circuit counts fewer failures than open it.
    pub open spec fn wf(self) -> bool {
        self matches CircuitState::Closed { consecutive_failures } ==> consecutive_failures
            < CIRCUIT_OPEN_THRESHOLD
    }

    pub fn new() -> (r: Self)
        ensures
            r == (CircuitState::Closed { consecutive_failures: 0 }),
            r.wf(),
    {
        CircuitState::Closed { consecutive_failures: 0 }
    }

    /// Whether the circuit is open (blocking sends) at `now`.
    pub fn is_open(&self, now: u64) -> (r: bool)
        ensures
            r == blocking(*self, now),
    {
        match self {
            CircuitState::Open { opened_at } => millis_since(*opened_at, now)
                < CIRCUIT_OPEN_MILLIS,
            CircuitState::Closed { .. } => false,
        }
    }

    /// Record a successful send; resets the failure counter.
    pub fn record_success(&mut self)
        ensures
            *final(self) == (CircuitState::Closed { consecutive_failures: 0 }),
            final(self).wf(),
    {
        *self = CircuitState::Closed { consecutive_failures: 0 };
    }

    /// Record a failed send; may open the circuit. Once an open circuit has
    /// served its time, a failure counts as the first of a new series.
    pub fn record_failure(&mut self, now: u64)
        requires
            old(self).wf(),
        ensures
            *final(self) == after_failure(*old(self), now),
            final(self).wf(),
    {
        match *self {
            CircuitState::Closed { consecutive_failures } => {
                let n: u32 = consecutive_failures + 1;
                if n >= CIRCUIT_OPEN_THRESHOLD {
                    *self = CircuitState::Open { opened_at: now };
                } else {
                    *self = CircuitState::Closed { consecutive_failures: n };
                }
            },
            CircuitState::Open { opened_at } => {
                if millis_since(opened_at, now) >= CIRCUIT_OPEN_MILLIS {
                    *self = CircuitState::Closed { consecutive_failures: 1 };
                }
            },
        }
    }
}

/// A fresh circuit, or one that has just seen a success, stays closed through
/// fewer failures than the threshold, and the failure that reaches it opens it
/// until its time is over.
pub proof fn law_circuit_opens_at_threshold(at: Seq<u64>, now: u64)
    requires
        at.len() <= CIRCUIT_OPEN_THRESHOLD,
    ensures
        ({
            let c = after_failures(CircuitState::Closed { consecutive_failures: 0 }, at);
            if at.len() < CIRCUIT_OPEN_THRESHOLD {
                c == (CircuitState::Closed { consecutive_failures: at.len() as u32 }) && !blocking(
                    c,
                    now,
                )
            } else {
                c == (CircuitState::Open { opened_at: at.last() }) && (blocking(c, now) <==> elapsed(
                    at.last(),
                    now,
                ) < CIRCUIT_OPEN_MILLIS)
            }
        }),
    decreases at.len(),
{
    if at.len() > 0 {
        law_circuit_opens_at_threshold(at.drop_last(), now);
    }
}

/// A bounded pool of idle connections of one peer, each with the time it was
/// returned. The oldest is handed out first.
pub struct IdlePool<T> {
    idle: Vec<(T, u64)>,
}

/// A connection returned at `returned_at` may still be used at `now`.
pub open spec fn fresh_enough(returned_at: u64, now: u64) -> bool {
    elapsed(returned_at, now) <= POOL_MAX_IDLE_MILLIS
}

/// The position of the first connection that may still be used.
pub open spec fn first_fresh<T>(idle: Seq<(T, u64)>, now: u64) -> int
    decreases idle.len(),
{
    if idle.len() == 0 {
        0
    } else if fresh_enough(idle[0].1, now) {
        0
    } else {
        1 + first_fresh(idle.drop_first(), now)
    }
}

impl<T> IdlePool<T> {
    /// The pooled connections, oldest first.
    pub closed spec fn entries(self) -> Seq<(T, u64)> {
        self.idle@
    }

    pub fn new() -> (r: Self)
        ensures
            r.entries() == Seq::<(T, u64)>::empty(),
    {
        IdlePool { idle: Vec::new() }
    }

    /// How many connections are pooled.
    pub fn len(&self) -> (r: usize)
        ensures
            r == self.entries().len(),
    {
        self.idle.len()
    }

    /// Take the oldest connection that may still be used. Older ones that sat
    /// idle too long are dropped on the way.
    pub fn acquire(&mut self, now: u64) -> (r: Option<T>)
        ensures
            ({
                let i = first_fresh(old(self).entries(), now);
                let n = old(self).entries().len();
                if i < n {
                    &&& r == Some(old(self).entries()[i].0)
                    &&& final(self).entries() == old(self).entries().subrange(i + 1, n as int)
                } else {
                    &&& r is None
                    &&& final(self).entries() == Seq::<(T, u64)>::empty()
                }
            }),
    {
        let ghost all = self.idle@;
        let ghost mut dropped: int = 0;
        while self.idle.len() > 0
            invariant
                0 <= dropped <= all.len(),
                self.idle@ == all.subrange(dropped, all.len() as int),
                first_fresh(all, now) == dropped + first_fresh(self.idle@, now),
                all == old(self).idle@,
            decreases self.idle@.len(),
        {
            let ghost rest = self.idle@;
            let (stream, returned_at) = self.idle.remove(0);
            proof {
                assert(rest[0] == all[dropped]);
                assert(self.idle@ =~= rest.drop_first());
                assert(self.idle@ =~= all.subrange(dropped + 1, all.len() as int));
            }
            if millis_since(returned_at, now) <= POOL_MAX_IDLE_MILLIS {
                return Some(stream);
            }
            proof {
                dropped = dropped + 1;
            }
        }
        assert(self.idle@ =~= Seq::<(T, u64)>::empty());
        None
    }

    /// Put a healthy connection back. A full pool drops it.
    pub fn release(&mut self, stream: T, now: u64)
        ensures
            final(self).entries() == if old(self).entries().len() < POOL_CAPACITY {
                old(self).entries().push((stream, now))
            } else {
                old(self).entries()
            },
    {
        if self.idle.len() < POOL_CAPACITY {
            self.idle.push((stream, now));
        }
    }
}

/// What acquiring a connection comes to before any is opened.
pub enum Acquired<T> {
    /// The circuit is open; the send fails at once with this error.
    Blocked(TransportError),
    /// A pooled connection.
    Pooled(T),
    /// Nothing is pooled; a connection is to be opened.
    Connect,
}

/// The message of a send that an open circuit refuses.
pub open spec fn circuit_text(addr: Seq<char>) -> Seq<char> {
    "circuit open for peer "@ + addr + " — too many consecutive failures"@
}

/// The connections of one peer behind their circuit breaker.
pub struct PeerPool<T> {
    /// Peer address, `host:port`.
    pub addr: String,
    pub idle: IdlePool<T>,
    pub circuit: CircuitState,
}

/// The contents of a [`PeerPool`].
pub ghost struct PoolView<T> {
    pub addr: Seq<char>,
    pub idle: Seq<(T, u64)>,
    pub circuit: CircuitState,
}

impl<T> View for PeerPool<T> {
    type V = PoolView<T>;

    open spec fn view(&self) -> PoolView<T> {
        PoolView { addr: self.addr@, idle: self.idle.entries(), circuit: self.circuit }
    }
}

/// A pool that has held nothing yet.
pub open spec fn new_pool<T>(addr: Seq<char>) -> PoolView<T> {
    PoolView {
        addr,
        idle: Seq::empty(),
        circuit: CircuitState::Closed { consecutive_failures: 0 },
    }
}

/// The pool once a connection was asked for: an open circuit leaves it alone,
/// else all up to the one handed out are gone.
pub open spec fn pool_acquired<T>(p: PoolView<T>, now: u64) -> PoolView<T> {
    let i = first_fresh(p.idle, now);
    if blocking(p.circuit, now) {
        p
    } else if i < p.idle.len() {
        PoolView { idle: p.idle.subrange(i + 1, p.idle.len() as int), ..p }
    } else {
        PoolView { idle: Seq::empty(), ..p }
    }
}

/// The pool with a connection put back, as far as there is room.
pub open spec fn pool_released<T>(p: PoolView<T>, stream: T, now: u64) -> PoolView<T> {
    if p.idle.len() < POOL_CAPACITY {
        PoolView { idle: p.idle.push((stream, now)), ..p }
    } else {
        p
    }
}

/// The pool after a send went through.
pub open spec fn pool_sent<T>(p: PoolView<T>, stream: T, now: u64) -> PoolView<T> {
    PoolView {
        circuit: CircuitState::Closed { consecutive_failures: 0 },
        ..pool_released(p, stream, now)
    }
}

/// The pool after a send failed.
pub open spec fn pool_failed<T>(p: PoolView<T>, now: u64) -> PoolView<T> {
    PoolView { circuit: after_failure(p.circuit, now), ..p }
}

/// What asking the pool for a connection gives.
pub open spec fn is_acquired<T>(p: PoolView<T>, now: u64, r: Acquired<T>) -> bool {
    let i = first_fresh(p.idle, now);
    match r {
        Acquired::Blocked(e) => blocking(p.circuit, now) && e is Other && transport_error_text(e)
            == "transport error: "@ + circuit_text(p.addr),
        Acquired::Pooled(s) => !blocking(p.circuit, now) && i < p.idle.len() && s == p.idle[i].0,
        Acquired::Connect => !blocking(p.circuit, now) && i >= p.idle.len(),
    }
}

impl<T> PeerPool<T> {
    pub fn new(addr: String) -> (r: Self)
        ensures
            r@ == new_pool::<T>(addr@),
    {
        PeerPool { addr, idle: IdlePool::new(), circuit: CircuitState::new() }
    }

    /// A pooled connection, or whether one is to be opened. An open circuit
    /// refuses at once and leaves the pool alone.
    pub fn acquire(&mut self, now: u64) -> (r: Acquired<T>)
        ensures
            is_acquired(old(self)@, now, r),
            final(self)@ == pool_acquired(old(self)@, now),
    {
        if self.circuit.is_open(now) {
            let mut m = "circuit open for peer ".to_owned();
            m.append(self.addr.as_str());
            m.append(" — too many consecutive failures");
            return Acquired::Blocked(TransportError::Other(m));
        }
        match self.idle.acquire(now) {
            Some(s) => Acquired::Pooled(s),
            None => Acquired::Connect,
        }
    }

    /// Put a healthy connection back. A full pool drops it.
    pub fn release(&mut self, stream: T, now: u64)
        ensures
            final(self)@ == pool_released(old(self)@, stream, now),
    {
        self.idle.release(stream, now);
    }

    /// A send went through: the connection goes back to the pool and the
    /// circuit starts counting anew.
    pub fn sent(&mut self, stream: T, now: u64)
        ensures
            final(self)@ == pool_sent(old(self)@, stream, now),
    {
        self.idle.release(stream, now);
        self.circuit.record_success();
    }

    /// A send failed, on a connection in hand or for want of one: the
    /// connection is gone and the circuit counts it.
    pub fn failed(&mut self, now: u64)
        requires
            old(self)@.circuit.wf(),
        ensures
            final(self)@ == pool_failed(old(self)@, now),
    {
        self.circuit.record_failure(now);
    }
}

/// How writing a frame to a connection ended.
pub enum Written {
    Done,
    TimedOut,
    Failed(String),
}

/// The message of a raft message that could not be sent to `target`.
pub open spec fn send_text(target: u64, cause: Seq<char>) -> Seq<char> {
    "send raft message to peer "@ + decimal_text(target as nat) + " failed: "@ + cause
}

/// The error of a raft message that could not be sent to `target`.
pub fn send_error(target: u64, cause: &TransportError) -> (r: PcsError)
    ensures
        r@ == ErrorView::Generic(send_text(target, transport_error_text(*cause))),
{
    let mut m = "send raft message to peer ".to_owned();
    m.append(decimal(target).as_str());
    m.append(" failed: ");
    m.append(cause.describe().as_str());
    PcsError::Generic(m)
}

/// What the outcome of a write comes to: nothing, or the cause of the error.
pub open spec fn write_cause(w: Written) -> Option<Seq<char>> {
    match w {
        Written::Done => None,
        Written::TimedOut => Some("write timeout"@),
        Written::Failed(m) => Some("write failed: "@ + m@),
    }
}

/// Outbound half for all configured peers: a pool of connections each. Raft
/// messages are sent and forgotten, no reply is awaited.
pub struct TransportHub<T> {
    networks: Table<u64, PeerPool<T>>,
}

/// The pools of the configured peers, before anything was sent.
pub open spec fn hub_of<T>(peers: Seq<(u64, String)>) -> Map<u64, PoolView<T>>
    decreases peers.len(),
{
    if peers.len() == 0 {
        Map::empty()
    } else {
        hub_of::<T>(peers.drop_last()).insert(peers.last().0, new_pool::<T>(peers.last().1@))
    }
}

/// The message for a peer that is not configured.
pub open spec fn unknown_peer_text(target: u64) -> Seq<char> {
    "TransportHub: no network for peer "@ + decimal_text(target as nat)
}

impl<T> TransportHub<T> {
    /// The pool of each peer.
    pub closed spec fn pools(self) -> Map<u64, PoolView<T>> {
        self.networks@
    }

    /// Every circuit is in a state it can get into.
    pub closed spec fn wf(self) -> bool {
        &&& self.networks.wf()
        &&& forall|id: u64| #[trigger]
            self.networks@.contains_key(id) ==> self.networks@[id].circuit.wf()
    }

    /// One pool per configured peer.
    pub fn new(peers: &Vec<(u64, String)>) -> (r: Self)
        ensures
            r.wf(),
            r.pools() == hub_of::<T>(peers@),
    {
        let mut networks: Table<u64, PeerPool<T>> = Table::new();
        let mut i: usize = 0;
        assert(peers@.take(0) =~= Seq::<(u64, String)>::empty());
        while i < peers.len()
            invariant
                i <= peers@.len(),
                networks.wf(),
                networks@ == hub_of::<T>(peers@.take(i as int)),
                forall|id: u64| #[trigger]
                    networks@.contains_key(id) ==> networks@[id].circuit.wf(),
            decreases peers@.len() - i,
        {
            networks.insert(peers[i].0, PeerPool::new(peers[i].1.clone()));
            proof {
                assert(peers@.take(i as int + 1).drop_last() =~= peers@.take(i as int));
            }
            i += 1;
        }
        assert(peers@.take(i as int) =~= peers@);
        TransportHub { networks }
    }

    /// Begin to send to `target`: a pooled connection, or `None` where one is
    /// to be opened. An unknown peer and an open circuit are errors.
    pub fn begin_send(&mut self, target: u64, now: u64) -> (r: Result<Option<T>, PcsError>)
        requires
            old(self).wf(),
        ensures
            final(self).wf(),
            final(self).pools() == if old(self).pools().contains_key(target) {
                old(self).pools().insert(
                    target,
                    pool_acquired(old(self).pools()[target], now),
                )
            } else {
                old(self).pools()
            },
            ({
                let known = old(self).pools().contains_key(target);
                let p = old(self).pools()[target];
                let i = first_fresh(p.idle, now);
                if !known {
                    r matches Err(e) && e@ == ErrorView::Generic(unknown_peer_text(target))
                } else if blocking(p.circuit, now) {
                    r matches Err(e) && e@ == ErrorView::Generic(
                        send_text(target, "transport error: "@ + circuit_text(p.addr)),
                    )
                } else if i < p.idle.len() {
                    r == Ok::<Option<T>, PcsError>(Some(p.idle[i].0))
                } else {
                    r == Ok::<Option<T>, PcsError>(None)
                }
            }),
    {
        match self.networks.remove(target) {
            None => {
                proof {
                    assert(self.networks@ =~= old(self).networks@);
                }
                let mut m = "TransportHub: no network for peer ".to_owned();
                m.append(decimal(target).as_str());
                Err(PcsError::Generic(m))
            },
            Some(pool) => {
                let mut pool = pool;
                let got = pool.acquire(now);
                self.networks.insert(target, pool);
                proof {
                    assert(self.networks@ =~= old(self).networks@.insert(target, pool@));
                }
                match got {
                    Acquired::Blocked(e) => Err(send_error(target, &e)),
                    Acquired::Pooled(s) => Ok(Some(s)),
                    Acquired::Connect => Ok(None),
                }
            },
        }
    }

    /// No connection could be opened: the send failed, and the circuit counts
    /// it.
    pub fn connect_failed(&mut self, target: u64, cause: TransportError, now: u64) -> (r: PcsError)
        requires
            old(self).wf(),
        ensures
            final(self).wf(),
            r@ == ErrorView::Generic(send_text(target, transport_error_text(cause))),
            final(self).pools() == if old(self).pools().contains_key(target) {
                old(self).pools().insert(target, pool_failed(old(self).pools()[target], now))
            } else {
                old(self).pools()
            },
    {
        match self.networks.remove(target) {
            None => {
                proof {
                    assert(self.networks@ =~= old(self).networks@);
                }
            },
            Some(pool) => {
                let mut pool = pool;
                pool.failed(now);
                self.networks.insert(target, pool);
                proof {
                    assert(self.networks@ =~= old(self).networks@.insert(target, pool@));
                }
            },
        }
        send_error(target, &cause)
    }

    /// Take the outcome of the write. A connection that carried the message
    /// goes back to the pool; after a failure it is dropped and counted.
    pub fn finish_send(&mut self, target: u64, stream: T, written: Written, now: u64) -> (r: Result<
        (),
        PcsError,
    >)
        requires
            old(self).wf(),
        ensures
            final(self).wf(),
            match write_cause(written) {
                None => r is Ok,
                Some(cause) => r matches Err(e) && e@ == ErrorView::Generic(
                    send_text(target, cause),
                ),
            },
            final(self).pools() == if !old(self).pools().contains_key(target) {
                old(self).pools()
            } else if written is Done {
                old(self).pools().insert(target, pool_sent(old(self).pools()[target], stream, now))
            } else {
                old(self).pools().insert(target, pool_failed(old(self).pools()[target], now))
            },
    {
        let done = matches!(written, Written::Done);
        match self.networks.remove(target) {
            None => {
                proof {
                    assert(self.networks@ =~= old(self).networks@);
                }
            },
            Some(pool) => {
                let mut pool = pool;
                if done {
                    pool.sent(stream, now);
                } else {
                    pool.failed(now);
                }
                self.networks.insert(target, pool);
                proof {
                    assert(self.networks@ =~= old(self).networks@.insert(target, pool@));
                }
            },
        }
        match written {
            Written::Done => Ok(()),
            Written::TimedOut => Err(send_error(target, &TransportError::WriteTimeout)),
            Written::Failed(m) => Err(send_error(target, &TransportError::WriteFailed(m))),
        }
    }
}

/// Where peers are reached: configured addresses first.
pub struct TcpNetworkFactory {
    /// Configured addresses, `host:port`.
    pub peers: Table<u64, String>,
    /// Per-call response timeout, in milliseconds.
    pub rpc_read_timeout_millis: u64,
}

/// The configured addresses; a later entry of the same peer wins.
pub open spec fn addresses(peers: Seq<(u64, String)>) -> Map<u64, Seq<char>>
    decreases peers.len(),
{
    if peers.len() == 0 {
        Map::empty()
    } else {
        addresses(peers.drop_last()).insert(peers.last().0, peers.last().1@)
    }
}

impl TcpNetworkFactory {
    pub fn new(peers: &Vec<(u64, String)>) -> (r: Self)
        ensures
            r.peers.wf(),
            r.peers@ == addresses(peers@),
            r.rpc_read_timeout_millis == RPC_READ_TIMEOUT_MILLIS,
    {
        let mut table: Table<u64, String> = Table::new();
        let mut i: usize = 0;
        assert(peers@.take(0) =~= Seq::<(u64, String)>::empty());
        while i < peers.len()
            invariant
                i <= peers@.len(),
                table.wf(),
                table@ == addresses(peers@.take(i as int)),
            decreases peers@.len() - i,
        {
            table.insert(peers[i].0, peers[i].1.clone());
            proof {
                assert(peers@.take(i as int + 1).drop_last() =~= peers@.take(i as int));
            }
            i += 1;
        }
        assert(peers@.take(i as int) =~= peers@);
        TcpNetworkFactory { peers: table, rpc_read_timeout_millis: RPC_READ_TIMEOUT_MILLIS }
    }

    /// A pool for `target`: at its configured address, else at the one it
    /// advertises.
    pub fn new_client<T>(&self, target: u64, advertised: &str) -> (r: PeerPool<T>)
        requires
            self.peers.wf(),
        ensures
            r@ == new_pool::<T>(
                if self.peers@.contains_key(target) {
                    self.peers@[target]
                } else {
                    advertised@
                },
            ),
    {
        match self.peers.get(target) {
            Some(addr) => PeerPool::new(addr.clone()),
            None => PeerPool::new(advertised.to_owned()),
        }
    }
}

/// The pool never holds more than its capacity, whatever is returned to it,
/// and a connection that was handed out is not in it any more.
pub proof fn law_pool_stays_bounded<T>(entries: Seq<(T, u64)>, stream: T, now: u64)
    requires
        entries.len() <= POOL_CAPACITY,
    ensures
        (if entries.len() < POOL_CAPACITY {
            entries.push((stream, now))
        } else {
            entries
        }).len() <= POOL_CAPACITY,
        0 <= first_fresh(entries, now) <= entries.len(),
        first_fresh(entries, now) < entries.len() ==> fresh_enough(
            entries[first_fresh(entries, now)].1,
            now,
        ),
    decreases entries.len(),
{
    if entries.len() > 0 && !fresh_enough(entries[0].1, now) {
        law_pool_stays_bounded(entries.drop_first(), stream, now);
    }
}

/// A write waits five seconds, an answer five, a connection three; four connections
/// stay idle for a peer, ten seconds each; a server keeps a thousand and twenty-four
/// connections, a minute each without a word.
pub proof fn law_transport_limits()
    ensures
        RPC_WRITE_TIMEOUT_MILLIS == 5_000,
        RPC_READ_TIMEOUT_MILLIS == 5_000,
        CONNECT_TIMEOUT_MILLIS == 3_000,
        POOL_CAPACITY == 4,
        POOL_MAX_IDLE_MILLIS == 10_000,
        MAX_ACCEPTED_CONNECTIONS == 1024,
        IDLE_READ_TIMEOUT_MILLIS == 60_000,
{
}

/// An open circuit blocks for half a minute from when it opened, by a clock that does not
/// run back; a closed one never does.
pub proof fn law_open_circuit_blocks(opened_at: u64, n: u32, now: u64)
    ensures
        opened_at <= now ==> (blocking(CircuitState::Open { opened_at }, now) <==> now < opened_at
            + 30_000),
        now < opened_at ==> blocking(CircuitState::Open { opened_at }, now),
        !blocking(CircuitState::Closed { consecutive_failures: n }, now),
        (CircuitState::Closed { consecutive_failures: n }).wf() <==> n < 5,
        (CircuitState::Open { opened_at }).wf(),
{
}

/// Each failure counts one more. The fifth in a row opens the circuit at its time. A
/// failure while the circuit blocks changes nothing; one afterwards is the first of a
/// new row.
pub proof fn law_failures_are_counted(opened_at: u64, n: u32, now: u64, at: Seq<u64>)
    ensures
        n + 1 < 5 ==> after_failure(CircuitState::Closed { consecutive_failures: n }, now) == (
        CircuitState::Closed { consecutive_failures: (n + 1) as u32 }),
        n + 1 >= 5 ==> after_failure(CircuitState::Closed { consecutive_failures: n }, now) == (
        CircuitState::Open { opened_at: now }),
        now < opened_at + 30_000 ==> after_failure(CircuitState::Open { opened_at }, now) == (
        CircuitState::Open { opened_at }),
        opened_at + 30_000 <= now ==> after_failure(CircuitState::Open { opened_at }, now) == (
        CircuitState::Closed { consecutive_failures: 1 }),
        after_failures(CircuitState::Open { opened_at }, Seq::empty()) == (CircuitState::Open {
            opened_at,
        }),
        after_failures(CircuitState::Open { opened_at }, at.push(now)) == after_failure(
            after_failures(CircuitState::Open { opened_at }, at),
            now,
        ),
{
    assert(at.push(now).drop_last() =~= at);
}

/// The connection handed out is the oldest that came back at most ten seconds ago:
/// every one before it came back longer ago.
pub proof fn law_oldest_usable_connection<T>(idle: Seq<(T, u64)>, now: u64, i: int)
    ensures
        0 <= first_fresh(idle, now) <= idle.len(),
        0 <= i < first_fresh(idle, now) ==> idle[i].1 + 10_000 < now,
        i == first_fresh(idle, now) && i < idle.len() ==> now <= idle[i].1 + 10_000,
    decreases idle.len(),
{
    if idle.len() > 0 && !fresh_enough(idle[0].1, now) {
        law_oldest_usable_connection(idle.drop_first(), now, i - 1);
        if 0 < i < idle.len() {
            assert(idle.drop_first()[i - 1] == idle[i]);
        }
    }
}

/// While its circuit blocks, a pool refuses and stays as it is. Otherwise it hands out
/// the oldest usable connection and keeps those behind it, or has one opened and keeps
/// none. Its address and its circuit stay.
pub proof fn law_pool_hands_out<T>(p: PoolView<T>, now: u64, r: Acquired<T>, i: int)
    requires
        is_acquired(p, now, r),
        0 <= i <= p.idle.len(),
        forall|j: int| 0 <= j < i ==> (#[trigger] p.idle[j]).1 + 10_000 < now,
        i < p.idle.len() ==> now <= p.idle[i].1 + 10_000,
    ensures
        ({
            let n = pool_acquired(p, now);
            let blocks = p.circuit matches CircuitState::Open { opened_at } && now < opened_at
                + 30_000;
            &&& n.addr == p.addr && n.circuit == p.circuit
            &&& r is Blocked <==> blocks
            &&& blocks ==> n.idle == p.idle
            &&& !blocks && i < p.idle.len() ==> r == Acquired::Pooled(p.idle[i].0) && n.idle
                == p.idle.skip(i + 1)
            &&& !blocks && i == p.idle.len() ==> r is Connect && n.idle.len() == 0
            &&& r matches Acquired::Blocked(e) ==> (e matches TransportError::Other(_))
                && transport_error_text(e) == "transport error: "@ + ("circuit open for peer "@
                + p.addr + " — too many consecutive failures"@)
        }),
{
    law_oldest_usable_connection(p.idle, now, i);
    let f = first_fresh(p.idle, now);
    if f < i {
        law_oldest_usable_connection(p.idle, now, f);
        assert(p.idle[f].1 + 10_000 < now);
    }
    assert(f == i);
    if i < p.idle.len() {
        assert(p.idle.subrange(i + 1, p.idle.len() as int) =~= p.idle.skip(i + 1));
    }
}

/// A connection goes back behind the others while fewer than four are there. A send that
/// went through closes the circuit; one that failed counts, and brings none back.
pub proof fn law_pool_takes_back<T>(p: PoolView<T>, stream: T, now: u64, addr: Seq<char>)
    ensures
        p.idle.len() < 4 ==> pool_released(p, stream, now) == (PoolView {
            idle: p.idle.push((stream, now)),
            ..p
        }),
        p.idle.len() >= 4 ==> pool_released(p, stream, now) == p,
        pool_sent(p, stream, now) == (PoolView {
            circuit: CircuitState::Closed { consecutive_failures: 0 },
            ..pool_released(p, stream, now)
        }),
        pool_failed(p, now).circuit == after_failure(p.circuit, now),
        pool_failed(p, now).idle == p.idle && pool_failed(p, now).addr == p.addr,
        new_pool::<T>(addr).addr == addr,
        new_pool::<T>(addr).idle.len() == 0,
        new_pool::<T>(addr).circuit == (CircuitState::Closed { consecutive_failures: 0 }),
{
}

/// The last address listed for a peer is its own; a peer has a pool exactly where it is
/// listed, new and at that address.
pub proof fn law_listed_peers_are_reached<T>(peers: Seq<(u64, String)>, p: (u64, String), id: u64)
    ensures
        !hub_of::<T>(Seq::empty()).contains_key(id),
        !addresses(Seq::empty()).contains_key(id),
        hub_of::<T>(peers.push(p)).contains_key(p.0),
        hub_of::<T>(peers.push(p))[p.0] == new_pool::<T>(p.1@),
        addresses(peers.push(p)).contains_key(p.0),
        addresses(peers.push(p))[p.0] == p.1@,
        id != p.0 ==> (hub_of::<T>(peers.push(p)).contains_key(id) <==> hub_of::<T>(
            peers,
        ).contains_key(id)) && hub_of::<T>(peers.push(p))[id] == hub_of::<T>(peers)[id],
        id != p.0 ==> (addresses(peers.push(p)).contains_key(id) <==> addresses(peers).contains_key(
            id,
        )) && addresses(peers.push(p))[id] == addresses(peers)[id],
{
    assert(peers.push(p).drop_last() =~= peers);
}

/// The words in which a failed send is told.
pub proof fn law_send_failures_are_told(m: String, target: u64, cause: Seq<char>)
    ensures
        transport_error_text(TransportError::ConnectFailed(m)) == "connect failed: "@ + m@,
        transport_error_text(TransportError::WriteFailed(m)) == "write failed: "@ + m@,
        transport_error_text(TransportError::WriteTimeout) == "write timeout"@,
        transport_error_text(TransportError::Other(m)) == "transport error: "@ + m@,
        circuit_text(cause) == "circuit open for peer "@ + cause
            + " — too many consecutive failures"@,
        send_text(target, cause) == "send raft message to peer "@ + decimal_text(target as nat)
            + " failed: "@ + cause,
        unknown_peer_text(target) == "TransportHub: no network for peer "@ + decimal_text(
            target as nat,
        ),
        write_cause(Written::Done) is None,
        write_cause(Written::TimedOut) == Some("write timeout"@),
        write_cause(Written::Failed(m)) == Some("write failed: "@ + m@),
{
}

/// The contents of a pool are its address, its connections and its circuit.
pub proof fn law_pool_is_seen_whole<T>(p: PeerPool<T>)
    ensures
        p@.addr == p.addr@,
        p@.idle == p.idle.entries(),
        p@.circuit == p.circuit,
{
}

} // verus!
