//! Calls between peers: what a failed call counts as, how a reply is read,
//! how a proposal is forwarded to the leader, and how long to wait before the
//! next attempt.

use rand::RngExt;
use vstd::prelude::*;

use crate::consensus::types::ConsensusResponse;
use crate::error::{ErrorView, PcsError};
use crate::transport::client;
use crate::transport::client::{pool_failed, pool_sent, PeerPool};

verus! {

/// Response timeout of a forwarded proposal, in milliseconds. It is longer
/// than the leader takes to answer.
pub const PROPOSAL_FORWARD_READ_TIMEOUT_MILLIS: u64 = 35_000;

/// How long the leader waits for a forwarded proposal to commit, in
/// milliseconds.
pub const SERVER_WRITE_TIMEOUT_MILLIS: u64 = 28_000;

/// Why a call failed.
#[derive(Debug, Clone, PartialEq, Eq)]
pub enum TransportError {
    /// TCP connect failed (peer unreachable or connection refused).
    ConnectFailed(String),
    /// Write to stream failed.
    WriteFailed(String),
    /// Write timed out; the peer send buffer is full.
    WriteTimeout,
    /// Read timed out; the peer did not answer in time.
    ReadTimeout,
    /// Frame protocol error (oversized frame, premature end).
    FramingError(String),
    /// Peer closed the connection cleanly.
    PeerReset,
    /// The message could not be encoded: a bug, no network trouble.
    EncodeError(String),
    /// Other I/O error.
    Other(String),
}

/// What a failed call counts as.
#[derive(Debug, Clone, PartialEq, Eq)]
pub enum RpcFault {
    /// Back off before the next attempt.
    Unreachable(String),
    /// Passing trouble; try again at once.
    Network(String),
}

/// The contents of an [`RpcFault`].
pub ghost enum FaultView {
    Unreachable(Seq<char>),
    Network(Seq<char>),
}

impl View for RpcFault {
    type V = FaultView;

    open spec fn view(&self) -> FaultView {
        match *self {
            RpcFault::Unreachable(m) => FaultView::Unreachable(m@),
            RpcFault::Network(m) => FaultView::Network(m@),
        }
    }
}

/// What each error counts as, with its message.
pub open spec fn fault_of(e: TransportError) -> FaultView {
    match e {
        TransportError::ConnectFailed(m) => FaultView::Unreachable("connect failed: "@ + m@),
        TransportError::EncodeError(m) => FaultView::Unreachable("encode error (bug): "@ + m@),
        TransportError::ReadTimeout => FaultView::Network("RPC read timeout"@),
        TransportError::WriteTimeout => FaultView::Network("RPC write timeout"@),
        TransportError::WriteFailed(m) => FaultView::Network("write failed: "@ + m@),
        TransportError::FramingError(m) => FaultView::Network(m@),
        TransportError::PeerReset => FaultView::Network("peer reset connection"@),
        TransportError::Other(m) => FaultView::Network(m@),
    }
}

fn joined(head: &str, tail: &str) -> (r: String)
    ensures
        r@ == head@ + tail@,
{
    let mut m = head.to_owned();
    m.append(tail);
    m
}

impl TransportError {
    /// Connect failures and encode errors count as unreachable, everything
    /// else as passing network trouble.
    pub fn into_rpc_error(self) -> (r: RpcFault)
        ensures
            r@ == fault_of(self),
            r is Unreachable <==> self is ConnectFailed || self is EncodeError,
    {
        match self {
            TransportError::ConnectFailed(m) => RpcFault::Unreachable(
                joined("connect failed: ", m.as_str()),
            ),
            TransportError::EncodeError(m) => RpcFault::Unreachable(
                joined("encode error (bug): ", m.as_str()),
            ),
            TransportError::ReadTimeout => RpcFault::Network("RPC read timeout".to_owned()),
            TransportError::WriteTimeout => RpcFault::Network("RPC write timeout".to_owned()),
            TransportError::WriteFailed(m) => RpcFault::Network(
                joined("write failed: ", m.as_str()),
            ),
            TransportError::FramingError(m) => RpcFault::Network(m),
            TransportError::PeerReset => RpcFault::Network("peer reset connection".to_owned()),
            TransportError::Other(m) => RpcFault::Network(m),
        }
    }

    /// A snapshot transfer counts the same errors the same way.
    pub fn into_streaming_error(self) -> (r: RpcFault)
        ensures
            r@ == fault_of(self),
            r is Unreachable <==> self is ConnectFailed || self is EncodeError,
    {
        self.into_rpc_error()
    }
}

/// The error of the connection pool, as the error of a call.
pub fn from_pool_error(e: client::TransportError) -> (r: TransportError)
    ensures
        r == match e {
            client::TransportError::ConnectFailed(m) => TransportError::ConnectFailed(m),
            client::TransportError::WriteFailed(m) => TransportError::WriteFailed(m),
            client::TransportError::WriteTimeout => TransportError::WriteTimeout,
            client::TransportError::Other(m) => TransportError::Other(m),
        },
{
    match e {
        client::TransportError::ConnectFailed(m) => TransportError::ConnectFailed(m),
        client::TransportError::WriteFailed(m) => TransportError::WriteFailed(m),
        client::TransportError::WriteTimeout => TransportError::WriteTimeout,
        client::TransportError::Other(m) => TransportError::Other(m),
    }
}

/// How one call on a connection in hand went: the frame written, one frame
/// read back and decoded.
pub enum Exchange<R> {
    WriteTimedOut,
    WriteFailed(String),
    ReadTimedOut,
    ReadFailed(String),
    /// The peer closed the connection instead of answering.
    Closed,
    /// The answer could not be decoded.
    Undecodable(String),
    Reply(R),
}

/// Take the outcome of a call. After a reply the connection goes back to the
/// pool and the circuit starts counting anew; after any error the connection
/// is dropped and the circuit counts it.
pub fn finish_call<T, R>(pool: &mut PeerPool<T>, stream: T, outcome: Exchange<R>, now: u64) -> (r:
    Result<R, TransportError>)
    requires
        old(pool)@.circuit.wf(),
    ensures
        match outcome {
            Exchange::WriteTimedOut => r == Err::<R, TransportError>(TransportError::WriteTimeout),
            Exchange::WriteFailed(m) => r == Err::<R, TransportError>(
                TransportError::WriteFailed(m),
            ),
            Exchange::ReadTimedOut => r == Err::<R, TransportError>(TransportError::ReadTimeout),
            Exchange::ReadFailed(m) => r == Err::<R, TransportError>(
                TransportError::FramingError(m),
            ),
            Exchange::Closed => r == Err::<R, TransportError>(TransportError::PeerReset),
            Exchange::Undecodable(m) => r matches Err(TransportError::FramingError(t)) && t@
                == "response decode: "@ + m@,
            Exchange::Reply(reply) => r == Ok::<R, TransportError>(reply),
        },
        final(pool)@ == if outcome is Reply {
            pool_sent(old(pool)@, stream, now)
        } else {
            pool_failed(old(pool)@, now)
        },
{
    match outcome {
        Exchange::Reply(reply) => {
            pool.sent(stream, now);
            return Ok(reply);
        },
        _ => {},
    }
    pool.failed(now);
    match outcome {
        Exchange::WriteTimedOut => Err(TransportError::WriteTimeout),
        Exchange::WriteFailed(m) => Err(TransportError::WriteFailed(m)),
        Exchange::ReadTimedOut => Err(TransportError::ReadTimeout),
        Exchange::ReadFailed(m) => Err(TransportError::FramingError(m)),
        Exchange::Closed => Err(TransportError::PeerReset),
        Exchange::Undecodable(m) => Err(
            TransportError::FramingError(joined("response decode: ", m.as_str())),
        ),
        Exchange::Reply(reply) => Ok(reply),
    }
}

/// A decoded reply, seen from the call that awaits it.
pub enum Reply<R> {
    /// The reply to this kind of call.
    Expected(R),
    /// The peer reports an error.
    Error(String),
    /// The reply to another kind of call.
    Other,
}

fn read_reply<R>(call: &str, reply: Reply<R>) -> (r: Result<R, RpcFault>)
    ensures
        match reply {
            Reply::Expected(v) => r == Ok::<R, RpcFault>(v),
            Reply::Error(m) => r matches Err(e) && e@ == FaultView::Network(
                call@ + " error: "@ + m@,
            ),
            Reply::Other => r matches Err(e) && e@ == FaultView::Network(
                "unexpected response variant for "@ + call@,
            ),
        },
{
    match reply {
        Reply::Expected(v) => Ok(v),
        Reply::Error(m) => {
            let mut t = joined(call, " error: ");
            t.append(m.as_str());
            Err(RpcFault::Network(t))
        },
        Reply::Other => Err(RpcFault::Network(joined("unexpected response variant for ", call))),
    }
}

/// Read the reply to an append-entries call.
pub fn append_entries_reply<R>(reply: Reply<R>) -> (r: Result<R, RpcFault>)
    ensures
        match reply {
            Reply::Expected(v) => r == Ok::<R, RpcFault>(v),
            Reply::Error(m) => r matches Err(e) && e@ == FaultView::Network(
                "append_entries"@ + " error: "@ + m@,
            ),
            Reply::Other => r matches Err(e) && e@ == FaultView::Network(
                "unexpected response variant for "@ + "append_entries"@,
            ),
        },
{
    read_reply("append_entries", reply)
}

/// Read the reply to a vote call.
pub fn vote_reply<R>(reply: Reply<R>) -> (r: Result<R, RpcFault>)
    ensures
        match reply {
            Reply::Expected(v) => r == Ok::<R, RpcFault>(v),
            Reply::Error(m) => r matches Err(e) && e@ == FaultView::Network(
                "vote"@ + " error: "@ + m@,
            ),
            Reply::Other => r matches Err(e) && e@ == FaultView::Network(
                "unexpected response variant for "@ + "vote"@,
            ),
        },
{
    read_reply("vote", reply)
}

/// How a forwarded proposal fared on the node it was forwarded to. That node
/// never forwards it further.
pub enum ProposalWrite {
    /// Committed and applied, with the state machine's response.
    Applied(ConsensusResponse),
    /// The node is not the leader.
    NotLeader,
    Failed(String),
    /// It did not commit in time.
    TimedOut,
}

/// The answer to a forwarded proposal.
#[derive(Debug, Clone, PartialEq, Eq)]
pub struct ProposalResult {
    pub ok: Option<ConsensusResponse>,
    pub err: Option<String>,
}

/// Why a proposal was not applied.
pub open spec fn proposal_failure(w: ProposalWrite) -> Option<Seq<char>> {
    match w {
        ProposalWrite::Applied(_) => None,
        ProposalWrite::NotLeader => Some("not leader"@),
        ProposalWrite::Failed(m) => Some(m@),
        ProposalWrite::TimedOut => Some("server-side client_write timeout"@),
    }
}

/// Answer a forwarded proposal. Exactly one of the two parts is there.
pub fn answer_proposal(outcome: ProposalWrite) -> (r: ProposalResult)
    ensures
        r.ok is Some <==> r.err is None,
        match proposal_failure(outcome) {
            None => r.ok == Some(outcome->Applied_0),
            Some(m) => r.err is Some && r.err->0@ == m,
        },
{
    match outcome {
        ProposalWrite::Applied(resp) => ProposalResult { ok: Some(resp), err: None },
        ProposalWrite::NotLeader => ProposalResult { ok: None, err: Some("not leader".to_owned()) },
        ProposalWrite::Failed(m) => ProposalResult { ok: None, err: Some(m) },
        ProposalWrite::TimedOut => ProposalResult {
            ok: None,
            err: Some("server-side client_write timeout".to_owned()),
        },
    }
}

/// How forwarding a proposal to the leader at some address went.
pub enum Forwarded {
    ConnectFailed(String),
    EncodeFailed(String),
    WriteTimedOut,
    WriteFailed(String),
    ReadTimedOut,
    ReadFailed(String),
    Closed,
    Undecodable(String),
    Result(ProposalResult),
    /// Another kind of answer, as text.
    Unexpected(String),
}

/// The message of a proposal that was not applied; none where it was.
pub open spec fn forward_failure(addr: Seq<char>, f: Forwarded) -> Option<Seq<char>> {
    match f {
        Forwarded::ConnectFailed(e) => Some(
            "forward_proposal: connect to "@ + addr + ": "@ + e@,
        ),
        Forwarded::EncodeFailed(e) => Some("forward_proposal: serialize envelope: "@ + e@),
        Forwarded::WriteTimedOut => Some("forward_proposal: write timeout to "@ + addr),
        Forwarded::WriteFailed(e) => Some("forward_proposal: write frame: "@ + e@),
        Forwarded::ReadTimedOut => Some("forward_proposal: read timeout from "@ + addr),
        Forwarded::ReadFailed(e) => Some("forward_proposal: read frame: "@ + e@),
        Forwarded::Closed => Some("forward_proposal: connection reset by "@ + addr),
        Forwarded::Undecodable(e) => Some("forward_proposal: response decode: "@ + e@),
        Forwarded::Result(p) => match (p.ok, p.err) {
            (Some(_), _) => None,
            (None, Some(m)) => Some("forward_proposal: leader returned error: "@ + m@),
            (None, None) => Some("forward_proposal: empty ProposalResult from leader"@),
        },
        Forwarded::Unexpected(e) => Some(
            "forward_proposal: unexpected response from "@ + addr + ": "@ + e@,
        ),
    }
}

/// What a forwarded proposal comes to for the node that forwarded it.
pub fn forward_proposal(addr: &str, outcome: Forwarded) -> (r: Result<ConsensusResponse, PcsError>)
    ensures
        match forward_failure(addr@, outcome) {
            None => r == Ok::<ConsensusResponse, PcsError>((outcome->Result_0).ok->0),
            Some(m) => r matches Err(e) && e@ == ErrorView::Generic(m),
        },
{
    let m = match outcome {
        Forwarded::ConnectFailed(e) => {
            let mut t = joined("forward_proposal: connect to ", addr);
            t.append(": ");
            t.append(e.as_str());
            t
        },
        Forwarded::EncodeFailed(e) => joined(
            "forward_proposal: serialize envelope: ",
            e.as_str(),
        ),
        Forwarded::WriteTimedOut => joined("forward_proposal: write timeout to ", addr),
        Forwarded::WriteFailed(e) => joined("forward_proposal: write frame: ", e.as_str()),
        Forwarded::ReadTimedOut => joined("forward_proposal: read timeout from ", addr),
        Forwarded::ReadFailed(e) => joined("forward_proposal: read frame: ", e.as_str()),
        Forwarded::Closed => joined("forward_proposal: connection reset by ", addr),
        Forwarded::Undecodable(e) => joined("forward_proposal: response decode: ", e.as_str()),
        Forwarded::Result(p) => match p.ok {
            Some(resp) => {
                return Ok(resp);
            },
            None => match p.err {
                Some(e) => joined("forward_proposal: leader returned error: ", e.as_str()),
                None => "forward_proposal: empty ProposalResult from leader".to_owned(),
            },
        },
        Forwarded::Unexpected(e) => {
            let mut t = joined("forward_proposal: unexpected response from ", addr);
            t.append(": ");
            t.append(e.as_str());
            t
        },
    };
    Err(PcsError::Generic(m))
}

/// A proposal forwarded to the leader ends for the follower as it ended on
/// the leader: with the state machine's response, or with the leader's reason
/// in the error.
pub proof fn law_forwarding_is_faithful(addr: Seq<char>, w: ProposalWrite, p: ProposalResult)
    requires
        p.ok is Some <==> p.err is None,
        match proposal_failure(w) {
            None => p.ok == Some(w->Applied_0),
            Some(m) => p.err is Some && p.err->0@ == m,
        },
    ensures
        match proposal_failure(w) {
            None => forward_failure(addr, Forwarded::Result(p)) is None && p.ok->0 == w->Applied_0,
            Some(m) => forward_failure(addr, Forwarded::Result(p)) == Some(
                "forward_proposal: leader returned error: "@ + m,
            ),
        },
{
}

/// First wait before a retry, in milliseconds.
pub const BACKOFF_BASE_MILLIS: u64 = 100;

/// Longest wait before its jitter, in milliseconds.
pub const BACKOFF_CAP_MILLIS: u64 = 10_000;

/// A random number up to and with `max`: `rand::RngExt::random_range` over the
/// thread's generator. Any number of that range may come.
#[verifier::external_body]
fn random_up_to(max: u64) -> (r: u64)
    ensures
        r <= max,
{
    rand::rng().random_range(0..=max)
}

/// Twice the wait before, at most the cap.
pub open spec fn doubled(prev: u64) -> int {
    if prev * 2 <= BACKOFF_CAP_MILLIS {
        prev * 2
    } else {
        BACKOFF_CAP_MILLIS as int
    }
}

/// Growing waits between attempts: each twice the one before up to a cap,
/// with up to a fifth on top at random.
pub struct Backoff {
    delay: u64,
}

impl Backoff {
    /// The wait that comes next.
    pub closed spec fn delay(self) -> u64 {
        self.delay
    }

    pub open spec fn wf(self) -> bool {
        BACKOFF_BASE_MILLIS <= self.delay() <= BACKOFF_CAP_MILLIS + BACKOFF_CAP_MILLIS / 5
    }

    pub fn new() -> (r: Self)
        ensures
            r.wf(),
            r.delay() == BACKOFF_BASE_MILLIS,
    {
        Backoff { delay: BACKOFF_BASE_MILLIS }
    }

    /// The wait before the next attempt; the one after it is at least twice
    /// as long, up to the cap, and at most a fifth longer than that.
    pub fn next_delay(&mut self) -> (r: u64)
        requires
            old(self).wf(),
        ensures
            final(self).wf(),
            r == old(self).delay(),
            doubled(old(self).delay()) <= final(self).delay() <= doubled(old(self).delay())
                + doubled(old(self).delay()) / 5,
    {
        let now = self.delay;
        let base = backoff_base(now);
        let jitter = random_up_to(base / 5);
        self.delay = backoff_step(now, jitter);
        now
    }
}

fn backoff_base(prev: u64) -> (r: u64)
    requires
        prev <= BACKOFF_CAP_MILLIS + BACKOFF_CAP_MILLIS / 5,
    ensures
        r == doubled(prev),
{
    let next: u64 = prev * 2;
    if next <= BACKOFF_CAP_MILLIS {
        next
    } else {
        BACKOFF_CAP_MILLIS
    }
}

/// The wait after `prev`, with the given jitter.
pub fn backoff_step(prev: u64, jitter: u64) -> (r: u64)
    requires
        prev <= BACKOFF_CAP_MILLIS + BACKOFF_CAP_MILLIS / 5,
        jitter <= doubled(prev) / 5,
    ensures
        r == doubled(prev) + jitter,
{
    backoff_base(prev) + jitter
}

/// Waits `delays`, each made from the one before.
pub open spec fn is_backoff(delays: Seq<u64>) -> bool {
    &&& delays.len() > 0
    &&& delays[0] == BACKOFF_BASE_MILLIS
    &&& forall|i: int, j: int|
        #![trigger delays[i], delays[j]]
        0 <= i && j == i + 1 && j < delays.len() ==> doubled(delays[i]) <= delays[j] <= doubled(
            delays[i],
        ) + doubled(delays[i]) / 5
}

/// `n` doublings of the first wait, at most the cap.
pub open spec fn least_delay(n: nat) -> int
    decreases n,
{
    if n == 0 {
        BACKOFF_BASE_MILLIS as int
    } else if least_delay((n - 1) as nat) * 2 <= BACKOFF_CAP_MILLIS {
        least_delay((n - 1) as nat) * 2
    } else {
        BACKOFF_CAP_MILLIS as int
    }
}

/// Whatever the jitter, the waits at least double until they reach the cap,
/// and never exceed it by more than a fifth.
pub proof fn law_backoff_grows_to_the_cap(delays: Seq<u64>, i: int)
    requires
        is_backoff(delays),
        0 <= i < delays.len(),
    ensures
        least_delay(i as nat) <= delays[i] <= BACKOFF_CAP_MILLIS + BACKOFF_CAP_MILLIS / 5,
    decreases i,
{
    if i > 0 {
        law_backoff_grows_to_the_cap(delays, i - 1);
        assert(doubled(delays[i - 1]) <= delays[i]);
    }
}

/// A call that could not connect or be encoded finds its peer unreachable; any other
/// trouble is the network's. Each is told in its own words.
pub proof fn law_faults_are_told(m: String)
    ensures
        fault_of(TransportError::ConnectFailed(m)) == FaultView::Unreachable(
            "connect failed: "@ + m@,
        ),
        fault_of(TransportError::EncodeError(m)) == FaultView::Unreachable(
            "encode error (bug): "@ + m@,
        ),
        fault_of(TransportError::ReadTimeout) == FaultView::Network("RPC read timeout"@),
        fault_of(TransportError::WriteTimeout) == FaultView::Network("RPC write timeout"@),
        fault_of(TransportError::WriteFailed(m)) == FaultView::Network("write failed: "@ + m@),
        fault_of(TransportError::FramingError(m)) == FaultView::Network(m@),
        fault_of(TransportError::PeerReset) == FaultView::Network("peer reset connection"@),
        fault_of(TransportError::Other(m)) == FaultView::Network(m@),
        RpcFault::Unreachable(m)@ == FaultView::Unreachable(m@),
        RpcFault::Network(m)@ == FaultView::Network(m@),
{
}

/// A proposal that was applied has no failure; a node that does not lead says so, and
/// one that waited too long does.
pub proof fn law_proposal_failures(r: ConsensusResponse, m: String)
    ensures
        proposal_failure(ProposalWrite::Applied(r)) is None,
        proposal_failure(ProposalWrite::NotLeader) == Some("not leader"@),
        proposal_failure(ProposalWrite::Failed(m)) == Some(m@),
        proposal_failure(ProposalWrite::TimedOut) == Some("server-side client_write timeout"@),
        PROPOSAL_FORWARD_READ_TIMEOUT_MILLIS == 35_000,
        SERVER_WRITE_TIMEOUT_MILLIS == 28_000,
{
}

/// A forwarded proposal succeeds exactly where the leader's answer holds a response; the
/// words tell at which step it failed otherwise.
pub proof fn law_forwarding_failures(addr: Seq<char>, m: String, p: ProposalResult)
    ensures
        forward_failure(addr, Forwarded::Result(p)) is None <==> p.ok is Some,
        p.ok is None ==> (p.err matches Some(e) ==> forward_failure(addr, Forwarded::Result(p))
            == Some("forward_proposal: leader returned error: "@ + e@)),
        p.ok is None && p.err is None ==> forward_failure(addr, Forwarded::Result(p)) == Some(
            "forward_proposal: empty ProposalResult from leader"@,
        ),
        forward_failure(addr, Forwarded::ConnectFailed(m)) == Some(
            "forward_proposal: connect to "@ + addr + ": "@ + m@,
        ),
        forward_failure(addr, Forwarded::EncodeFailed(m)) == Some(
            "forward_proposal: serialize envelope: "@ + m@,
        ),
        forward_failure(addr, Forwarded::WriteTimedOut) == Some(
            "forward_proposal: write timeout to "@ + addr,
        ),
        forward_failure(addr, Forwarded::WriteFailed(m)) == Some(
            "forward_proposal: write frame: "@ + m@,
        ),
        forward_failure(addr, Forwarded::ReadTimedOut) == Some(
            "forward_proposal: read timeout from "@ + addr,
        ),
        forward_failure(addr, Forwarded::ReadFailed(m)) == Some(
            "forward_proposal: read frame: "@ + m@,
        ),
        forward_failure(addr, Forwarded::Closed) == Some(
            "forward_proposal: connection reset by "@ + addr,
        ),
        forward_failure(addr, Forwarded::Undecodable(m)) == Some(
            "forward_proposal: response decode: "@ + m@,
        ),
        forward_failure(addr, Forwarded::Unexpected(m)) == Some(
            "forward_proposal: unexpected response from "@ + addr + ": "@ + m@,
        ),
{
}

/// A wait doubles while that stays within ten seconds, and is ten seconds from then on.
/// The first is a tenth of a second.
pub proof fn law_waits_double(prev: u64, n: nat)
    ensures
        prev <= 5_000 ==> doubled(prev) == prev + prev,
        prev > 5_000 ==> doubled(prev) == 10_000,
        BACKOFF_BASE_MILLIS == 100,
        BACKOFF_CAP_MILLIS == 10_000,
        least_delay(0) == 100,
        least_delay(n) <= 5_000 ==> least_delay(n + 1) == least_delay(n) + least_delay(n),
        least_delay(n) > 5_000 ==> least_delay(n + 1) == 10_000,
{
}

} // verus!
