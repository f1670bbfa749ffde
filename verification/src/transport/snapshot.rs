//! Snapshot transfer in chunks: slicing on the sending side, reassembly with
//! its limits on the receiving side. Times are milliseconds on a clock that
//! never runs back.

use vstd::prelude::*;

use crate::table::Table;
use crate::text::{decimal, decimal_text};
use crate::transport::client::elapsed;

verus! {

/// Maximum snapshot payload per chunk: 4 MiB.
pub const SNAPSHOT_CHUNK_BYTES: usize = 4_194_304;

/// Maximum chunk the sender puts into a frame.
pub const MAX_SNAPSHOT_CHUNK_BYTES: usize = SNAPSHOT_CHUNK_BYTES;

/// Maximum total bytes buffered per transfer: 256 MiB.
pub const SNAPSHOT_MAX_TRANSFER_BYTES: usize = 268_435_456;

/// Maximum number of concurrent transfers per connection.
pub const SNAPSHOT_MAX_CONCURRENT_TRANSFERS: usize = 4;

/// How long a transfer may go without a chunk, in milliseconds.
pub const SNAPSHOT_TRANSFER_IDLE_MILLIS: u64 = 30_000;

/// Hands out transfer ids, each once, from one upward.
pub struct TransferIds {
    pub next: u64,
}

impl TransferIds {
    pub fn new() -> (r: Self)
        ensures
            r.next == 1,
    {
        TransferIds { next: 1 }
    }

    /// The next id. After the largest it starts over at zero.
    pub fn take(&mut self) -> (r: u64)
        ensures
            r == old(self).next,
            final(self).next == if old(self).next == u64::MAX {
                0
            } else {
                old(self).next + 1
            },
    {
        let id = self.next;
        self.next = self.next.wrapping_add(1);
        id
    }
}

/// The bytes of the chunk that starts at `offset`.
pub open spec fn chunk_at(body: Seq<u8>, offset: int) -> Seq<u8> {
    if body.len() - offset <= SNAPSHOT_CHUNK_BYTES {
        body.subrange(offset, body.len() as int)
    } else {
        body.subrange(offset, offset + SNAPSHOT_CHUNK_BYTES)
    }
}

/// The chunk at `offset` reaches the end of the body.
pub open spec fn is_last_chunk(body: Seq<u8>, offset: int) -> bool {
    body.len() - offset <= SNAPSHOT_CHUNK_BYTES
}

/// One chunk of a transfer.
pub struct SnapshotChunk {
    /// The transfer it belongs to.
    pub transfer_id: u64,
    /// Where in the body it starts.
    pub offset: u64,
    pub data: Vec<u8>,
    /// Nothing follows; the snapshot can be installed.
    pub is_last: bool,
}

/// What a peer answers to a chunk.
pub enum SnapshotReply {
    /// The chunk was taken.
    ChunkAck,
    /// The snapshot was installed.
    Done,
    /// The peer refused.
    Error(String),
    /// Anything else, as text.
    Unexpected(String),
}

/// How the transfer goes on after a reply.
pub enum SendStep {
    /// Send the next chunk.
    Continue,
    /// The snapshot was installed.
    Finished,
    /// The transfer failed, with this network error.
    Failed(String),
}

/// The sending side of one transfer.
pub struct SnapshotSend {
    body: Vec<u8>,
    transfer_id: u64,
    offset: usize,
}

impl SnapshotSend {
    /// The snapshot that is sent.
    pub closed spec fn body(self) -> Seq<u8> {
        self.body@
    }

    pub closed spec fn transfer_id(self) -> u64 {
        self.transfer_id
    }

    /// Where the chunk in flight starts.
    pub closed spec fn offset(self) -> nat {
        self.offset as nat
    }

    pub open spec fn wf(self) -> bool {
        self.offset() <= self.body().len()
    }

    pub fn new(body: Vec<u8>, transfer_id: u64) -> (r: Self)
        ensures
            r.wf(),
            r.body() == body@,
            r.transfer_id() == transfer_id,
            r.offset() == 0,
    {
        SnapshotSend { body, transfer_id, offset: 0 }
    }

    /// The chunk to send. It is never larger than the chunks a receiver
    /// accepts.
    pub fn chunk(&self) -> (r: SnapshotChunk)
        requires
            self.wf(),
        ensures
            r.transfer_id == self.transfer_id(),
            r.offset == self.offset(),
            r.data@ == chunk_at(self.body(), self.offset() as int),
            r.data@.len() <= MAX_SNAPSHOT_CHUNK_BYTES,
            r.is_last == is_last_chunk(self.body(), self.offset() as int),
    {
        let left: usize = self.body.len() - self.offset;
        let is_last = left <= SNAPSHOT_CHUNK_BYTES;
        let end: usize = if is_last {
            self.body.len()
        } else {
            self.offset + SNAPSHOT_CHUNK_BYTES
        };
        let mut data: Vec<u8> = Vec::new();
        data.extend_from_slice(vstd::slice::slice_subrange(self.body.as_slice(), self.offset, end));
        assert(data@ =~= chunk_at(self.body@, self.offset as int));
        SnapshotChunk { transfer_id: self.transfer_id, offset: self.offset as u64, data, is_last }
    }

    /// Take the peer's reply to the chunk in flight.
    pub fn on_reply(&mut self, reply: SnapshotReply) -> (r: SendStep)
        requires
            old(self).wf(),
        ensures
            final(self).wf(),
            final(self).body() == old(self).body(),
            final(self).transfer_id() == old(self).transfer_id(),
            final(self).offset() == if reply is ChunkAck && !is_last_chunk(
                old(self).body(),
                old(self).offset() as int,
            ) {
                old(self).offset() + SNAPSHOT_CHUNK_BYTES
            } else {
                old(self).offset() as int
            },
            match reply {
                SnapshotReply::ChunkAck => if is_last_chunk(
                    old(self).body(),
                    old(self).offset() as int,
                ) {
                    r matches SendStep::Failed(m) && m@
                        == "snapshot transfer loop exited without final response"@
                } else {
                    r is Continue
                },
                SnapshotReply::Done => r is Finished,
                SnapshotReply::Error(e) => r matches SendStep::Failed(m) && m@
                    == "snapshot install error from peer: "@ + e@,
                SnapshotReply::Unexpected(e) => r matches SendStep::Failed(m) && m@
                    == "unexpected snapshot response: "@ + e@,
            },
    {
        match reply {
            SnapshotReply::ChunkAck => {
                if self.body.len() - self.offset <= SNAPSHOT_CHUNK_BYTES {
                    SendStep::Failed(
                        "snapshot transfer loop exited without final response".to_owned(),
                    )
                } else {
                    self.offset = self.offset + SNAPSHOT_CHUNK_BYTES;
                    SendStep::Continue
                }
            },
            SnapshotReply::Done => SendStep::Finished,
            SnapshotReply::Error(e) => {
                let mut m = "snapshot install error from peer: ".to_owned();
                m.append(e.as_str());
                SendStep::Failed(m)
            },
            SnapshotReply::Unexpected(e) => {
                let mut m = "unexpected snapshot response: ".to_owned();
                m.append(e.as_str());
                SendStep::Failed(m)
            },
        }
    }
}

/// A transfer under way on the receiving side.
pub struct InFlightSnapshot {
    /// What has arrived so far.
    pub data: Vec<u8>,
    /// When the last chunk arrived.
    pub last_chunk_at: u64,
}

/// The contents of an [`InFlightSnapshot`].
pub ghost struct InFlightView {
    pub data: Seq<u8>,
    pub last_chunk_at: u64,
}

impl View for InFlightSnapshot {
    type V = InFlightView;

    open spec fn view(&self) -> InFlightView {
        InFlightView { data: self.data@, last_chunk_at: self.last_chunk_at }
    }
}

/// The transfer has had a chunk lately.
pub open spec fn is_live(t: InFlightView, now: u64) -> bool {
    elapsed(t.last_chunk_at, now) <= SNAPSHOT_TRANSFER_IDLE_MILLIS
}

/// The transfers that have had a chunk lately.
pub open spec fn live(m: Map<u64, InFlightView>, now: u64) -> Map<u64, InFlightView> {
    Map::new(|id: u64| m.contains_key(id) && is_live(m[id], now), |id: u64| m[id])
}

/// What has arrived of transfer `id`.
pub open spec fn arrived(m: Map<u64, InFlightView>, id: u64) -> Seq<u8> {
    if m.contains_key(id) {
        m[id].data
    } else {
        Seq::empty()
    }
}

/// A chunk of a new transfer would be one transfer too many.
pub open spec fn too_many(m: Map<u64, InFlightView>, id: u64, now: u64) -> bool {
    !live(m, now).contains_key(id) && live(m, now).dom().len() >= SNAPSHOT_MAX_CONCURRENT_TRANSFERS
}

/// The chunk would make its transfer too large.
pub open spec fn too_large(m: Map<u64, InFlightView>, id: u64, data: Seq<u8>, now: u64) -> bool {
    arrived(live(m, now), id).len() + data.len() > SNAPSHOT_MAX_TRANSFER_BYTES
}

/// The chunk is taken.
pub open spec fn takes_chunk(m: Map<u64, InFlightView>, id: u64, data: Seq<u8>, now: u64) -> bool {
    !too_many(m, id, now) && !too_large(m, id, data, now)
}

/// The transfers after a chunk. Idle ones are dropped on the way; a transfer
/// that grows too large is dropped whole.
pub open spec fn after_chunk(m: Map<u64, InFlightView>, id: u64, data: Seq<u8>, now: u64) -> Map<
    u64,
    InFlightView,
> {
    let l = live(m, now);
    if too_many(m, id, now) {
        l
    } else if too_large(m, id, data, now) {
        l.remove(id)
    } else {
        l.insert(id, InFlightView { data: arrived(l, id) + data, last_chunk_at: now })
    }
}

/// What the receiver answers to a chunk that is not the last.
pub enum ChunkAnswer {
    Ack { transfer_id: u64 },
    Error(String),
}

/// The receiving side of one connection's transfers.
pub struct SnapshotTransfers {
    transfers: Table<u64, InFlightSnapshot>,
}

impl View for SnapshotTransfers {
    type V = Map<u64, InFlightView>;

    closed spec fn view(&self) -> Map<u64, InFlightView> {
        self.transfers@
    }
}

impl SnapshotTransfers {
    /// No transfer holds more than the cap.
    pub closed spec fn wf(self) -> bool {
        &&& self.transfers.wf()
        &&& forall|id: u64| #[trigger]
            self.transfers@.contains_key(id) ==> self.transfers@[id].data.len()
                <= SNAPSHOT_MAX_TRANSFER_BYTES
    }

    pub fn new() -> (r: Self)
        ensures
            r.wf(),
            r@ == Map::<u64, InFlightView>::empty(),
    {
        SnapshotTransfers { transfers: Table::new() }
    }

    /// How many transfers are under way.
    pub fn len(&self) -> (r: usize)
        requires
            self.wf(),
        ensures
            r == self@.dom().len(),
    {
        proof {
            self.transfers.lemma_len();
        }
        self.transfers.len()
    }

    fn evict_idle(&mut self, now: u64)
        requires
            old(self).wf(),
        ensures
            final(self).wf(),
            final(self)@ == live(old(self)@, now),
    {
        let mut idle: Vec<u64> = Vec::new();
        let mut i: usize = 0;
        proof {
            self.transfers.lemma_keys();
        }
        while i < self.transfers.len()
            invariant
                i <= self.transfers.keys().len(),
                self.wf(),
                *self == *old(self),
                forall|j: int|
                    0 <= j < i ==> (idle@.contains(#[trigger] self.transfers.keys()[j]) <==> !is_live(
                        self.transfers@[self.transfers.keys()[j]],
                        now,
                    )),
                forall|id: u64| #[trigger]
                    idle@.contains(id) ==> self.transfers@.contains_key(id) && !is_live(
                        self.transfers@[id],
                        now,
                    ),
            decreases self.transfers.keys().len() - i,
        {
            let id: u64 = self.transfers.key_at(i);
            let at: u64 = self.transfers.value_at(i).last_chunk_at;
            let ghost before = idle@;
            if now.saturating_sub(at) > SNAPSHOT_TRANSFER_IDLE_MILLIS {
                idle.push(id);
                proof {
                    assert(idle@[before.len() as int] == id);
                    assert forall|q: u64| before.contains(q) implies idle@.contains(q) by {
                        let p = before.index_of(q);
                        assert(idle@[p] == q);
                    }
                    assert(self.transfers@.contains_key(id) && !is_live(self.transfers@[id], now));
                    assert forall|q: u64| #[trigger] idle@.contains(q) implies before.contains(q)
                        || q == id by {
                        let p = idle@.index_of(q);
                        if p < before.len() {
                            assert(before[p] == q);
                        }
                    }
                }
            }
            i += 1;
        }
        proof {
            assert forall|id: u64| #[trigger] self.transfers@.contains_key(id) implies (
            idle@.contains(id) <==> !is_live(self.transfers@[id], now)) by {
                let j = choose|j: int|
                    0 <= j < self.transfers.keys().len() && #[trigger] self.transfers.keys()[j]
                        == id;
                assert(self.transfers.keys()[j] == id);
            }
        }
        let ghost all = self.transfers@;
        let mut k: usize = 0;
        while k < idle.len()
            invariant
                k <= idle@.len(),
                self.wf(),
                forall|id: u64| #[trigger]
                    self.transfers@.contains_key(id) <==> all.contains_key(id) && !idle@.take(
                        k as int,
                    ).contains(id),
                forall|id: u64| #[trigger]
                    self.transfers@.contains_key(id) ==> self.transfers@[id] == all[id],
            decreases idle@.len() - k,
        {
            let id = idle[k];
            self.transfers.remove(id);
            proof {
                let t = idle@.take(k as int);
                let u = idle@.take(k as int + 1);
                assert(u =~= t.push(id));
                assert forall|q: u64| u.contains(q) <==> t.contains(q) || q == id by {
                    if t.contains(q) {
                        assert(u[t.index_of(q)] == q);
                    }
                    if q == id {
                        assert(u[k as int] == id);
                    }
                    if u.contains(q) {
                        let p = u.index_of(q);
                        if p < k {
                            assert(t[p] == q);
                        }
                    }
                }
            }
            k += 1;
        }
        proof {
            assert(idle@.take(k as int) =~= idle@);
            assert(self.transfers@ =~= live(all, now));
        }
    }

    /// Take a chunk that is not the last of its transfer.
    pub fn on_chunk(&mut self, transfer_id: u64, data: &[u8], now: u64) -> (r: ChunkAnswer)
        requires
            old(self).wf(),
        ensures
            final(self).wf(),
            final(self)@ == after_chunk(old(self)@, transfer_id, data@, now),
            if too_many(old(self)@, transfer_id, now) {
                r matches ChunkAnswer::Error(m) && m@
                    == "too many concurrent snapshot transfers (max "@ + decimal_text(
                    SNAPSHOT_MAX_CONCURRENT_TRANSFERS as nat,
                ) + ")"@
            } else if too_large(old(self)@, transfer_id, data@, now) {
                r matches ChunkAnswer::Error(m) && m@ == "snapshot transfer "@ + decimal_text(
                    transfer_id as nat,
                ) + " exceeded size limit ("@ + decimal_text(SNAPSHOT_MAX_TRANSFER_BYTES as nat)
                    + " bytes)"@
            } else {
                r == (ChunkAnswer::Ack { transfer_id })
            },
    {
        self.evict_idle(now);
        let ghost l = self@;
        if !self.transfers.contains(transfer_id) && self.len()
            >= SNAPSHOT_MAX_CONCURRENT_TRANSFERS {
            let mut m = "too many concurrent snapshot transfers (max ".to_owned();
            m.append(decimal(SNAPSHOT_MAX_CONCURRENT_TRANSFERS as u64).as_str());
            m.append(")");
            return ChunkAnswer::Error(m);
        }
        let mut entry: Vec<u8> = match self.transfers.remove(transfer_id) {
            Some(t) => t.data,
            None => Vec::new(),
        };
        assert(entry@ =~= arrived(l, transfer_id));
        if data.len() > SNAPSHOT_MAX_TRANSFER_BYTES - entry.len() {
            let mut m = "snapshot transfer ".to_owned();
            m.append(decimal(transfer_id).as_str());
            m.append(" exceeded size limit (");
            m.append(decimal(SNAPSHOT_MAX_TRANSFER_BYTES as u64).as_str());
            m.append(" bytes)");
            return ChunkAnswer::Error(m);
        }
        entry.extend_from_slice(data);
        assert(entry@ =~= arrived(l, transfer_id) + data@);
        self.transfers.insert(transfer_id, InFlightSnapshot { data: entry, last_chunk_at: now });
        assert(self@ =~= after_chunk(old(self)@, transfer_id, data@, now));
        ChunkAnswer::Ack { transfer_id }
    }

    /// Take the last chunk: the whole snapshot. The transfer is over.
    pub fn on_final(&mut self, transfer_id: u64, data: &[u8]) -> (r: Vec<u8>)
        requires
            old(self).wf(),
        ensures
            final(self).wf(),
            final(self)@ == old(self)@.remove(transfer_id),
            r@ == arrived(old(self)@, transfer_id) + data@,
    {
        let mut buf: Vec<u8> = match self.transfers.remove(transfer_id) {
            Some(t) => t.data,
            None => Vec::new(),
        };
        assert(buf@ =~= arrived(old(self)@, transfer_id));
        buf.extend_from_slice(data);
        assert(buf@ =~= arrived(old(self)@, transfer_id) + data@);
        buf
    }
}

/// How many chunks precede the last one.
pub open spec fn leading_chunks(body: Seq<u8>) -> nat {
    if body.len() == 0 {
        0
    } else {
        ((body.len() - 1) / (SNAPSHOT_CHUNK_BYTES as int)) as nat
    }
}

/// The receiver's transfers after the first `n` chunks of `body`, which
/// arrived at the given times.
pub open spec fn after_chunks(
    m: Map<u64, InFlightView>,
    id: u64,
    body: Seq<u8>,
    n: nat,
    at: Seq<u64>,
) -> Map<u64, InFlightView>
    decreases n,
{
    if n == 0 {
        m
    } else {
        after_chunk(
            after_chunks(m, id, body, (n - 1) as nat, at),
            id,
            chunk_at(body, (n - 1) * SNAPSHOT_CHUNK_BYTES),
            at[n - 1],
        )
    }
}

/// The chunks come close enough to one another that none is evicted.
pub open spec fn steady(at: Seq<u64>) -> bool {
    forall|i: int, j: int|
        #![trigger at[i], at[j]]
        0 <= i && j == i + 1 && j < at.len() ==> at[i] <= at[j] <= at[i]
            + SNAPSHOT_TRANSFER_IDLE_MILLIS
}

/// A body sent in chunks and taken chunk by chunk comes out whole: every
/// chunk before the last is acknowledged, and the last one completes exactly
/// the body, given a fresh transfer id, room for one more transfer, chunks
/// that come steadily and leading chunks within the cap.
pub proof fn law_snapshot_reassembles(
    m: Map<u64, InFlightView>,
    id: u64,
    body: Seq<u8>,
    at: Seq<u64>,
)
    requires
        !m.contains_key(id),
        at.len() == leading_chunks(body),
        steady(at),
        at.len() > 0 ==> live(m, at[0]).dom().len() < SNAPSHOT_MAX_CONCURRENT_TRANSFERS,
        leading_chunks(body) * SNAPSHOT_CHUNK_BYTES <= SNAPSHOT_MAX_TRANSFER_BYTES,
    ensures
        forall|n: nat|
            n < leading_chunks(body) ==> {
                &&& !is_last_chunk(body, n * SNAPSHOT_CHUNK_BYTES)
                &&& #[trigger] takes_chunk(
                    after_chunks(m, id, body, n, at),
                    id,
                    chunk_at(body, n * SNAPSHOT_CHUNK_BYTES),
                    at[n as int],
                )
            },
        is_last_chunk(body, leading_chunks(body) * SNAPSHOT_CHUNK_BYTES),
        arrived(after_chunks(m, id, body, leading_chunks(body), at), id) + chunk_at(
            body,
            leading_chunks(body) * SNAPSHOT_CHUNK_BYTES,
        ) == body,
{
    let k = leading_chunks(body);
    if body.len() > 0 {
        let q = (body.len() - 1) / (SNAPSHOT_CHUNK_BYTES as int);
        let rem = (body.len() - 1) % (SNAPSHOT_CHUNK_BYTES as int);
        assert(body.len() - 1 == q * SNAPSHOT_CHUNK_BYTES + rem);
    }
    assert forall|n: nat| n < k implies {
        &&& !is_last_chunk(body, n * SNAPSHOT_CHUNK_BYTES)
        &&& #[trigger] takes_chunk(
            after_chunks(m, id, body, n, at),
            id,
            chunk_at(body, n * SNAPSHOT_CHUNK_BYTES),
            at[n as int],
        )
    } by {
        lemma_chunk_taken(m, id, body, at, n);
    }
    lemma_arrived(m, id, body, at, k);
    assert(body.take(k * SNAPSHOT_CHUNK_BYTES) + chunk_at(body, k * SNAPSHOT_CHUNK_BYTES) =~= body);
}

proof fn lemma_arrived(m: Map<u64, InFlightView>, id: u64, body: Seq<u8>, at: Seq<u64>, n: nat)
    requires
        !m.contains_key(id),
        at.len() == leading_chunks(body),
        n <= leading_chunks(body),
        steady(at),
        at.len() > 0 ==> live(m, at[0]).dom().len() < SNAPSHOT_MAX_CONCURRENT_TRANSFERS,
        leading_chunks(body) * SNAPSHOT_CHUNK_BYTES <= SNAPSHOT_MAX_TRANSFER_BYTES,
    ensures
        n * SNAPSHOT_CHUNK_BYTES <= body.len(),
        arrived(after_chunks(m, id, body, n, at), id) == body.take(n * SNAPSHOT_CHUNK_BYTES),
        n > 0 ==> after_chunks(m, id, body, n, at).contains_key(id),
        n > 0 ==> after_chunks(m, id, body, n, at)[id].last_chunk_at == at[n - 1],
    decreases n, 0int,
{
    if body.len() > 0 {
        let q = (body.len() - 1) / (SNAPSHOT_CHUNK_BYTES as int);
        let rem = (body.len() - 1) % (SNAPSHOT_CHUNK_BYTES as int);
        assert(body.len() - 1 == q * SNAPSHOT_CHUNK_BYTES + rem);
    }
    if n > 0 {
        let p = (n - 1) as nat;
        lemma_chunk_taken(m, id, body, at, p);
        lemma_arrived(m, id, body, at, p);
        let before = after_chunks(m, id, body, p, at);
        let l = live(before, at[p as int]);
        if p > 0 {
            assert(at[p as int - 1] <= at[p as int]);
            assert(l.contains_key(id));
        }
        assert(arrived(l, id) =~= arrived(before, id));
        assert(body.take(p * SNAPSHOT_CHUNK_BYTES) + chunk_at(body, p * SNAPSHOT_CHUNK_BYTES)
            =~= body.take(n * SNAPSHOT_CHUNK_BYTES));
    } else {
        assert(body.take(0) =~= Seq::<u8>::empty());
    }
}

proof fn lemma_chunk_taken(m: Map<u64, InFlightView>, id: u64, body: Seq<u8>, at: Seq<u64>, n: nat)
    requires
        !m.contains_key(id),
        at.len() == leading_chunks(body),
        n < leading_chunks(body),
        steady(at),
        at.len() > 0 ==> live(m, at[0]).dom().len() < SNAPSHOT_MAX_CONCURRENT_TRANSFERS,
        leading_chunks(body) * SNAPSHOT_CHUNK_BYTES <= SNAPSHOT_MAX_TRANSFER_BYTES,
    ensures
        !is_last_chunk(body, n * SNAPSHOT_CHUNK_BYTES),
        takes_chunk(
            after_chunks(m, id, body, n, at),
            id,
            chunk_at(body, n * SNAPSHOT_CHUNK_BYTES),
            at[n as int],
        ),
    decreases n, 1int,
{
    let q = (body.len() - 1) / (SNAPSHOT_CHUNK_BYTES as int);
    let rem = (body.len() - 1) % (SNAPSHOT_CHUNK_BYTES as int);
    assert(body.len() - 1 == q * SNAPSHOT_CHUNK_BYTES + rem);
    let before = after_chunks(m, id, body, n, at);
    if n > 0 {
        lemma_chunk_taken(m, id, body, at, (n - 1) as nat);
        lemma_arrived(m, id, body, at, n);
        assert(at[n as int - 1] <= at[n as int]);
        assert(live(before, at[n as int]).contains_key(id));
    } else {
        assert(before == m);
    }
}

/// A chunk has four mebibytes, a transfer two hundred and fifty-six; four transfers run
/// at once, and one that is silent for more than half a minute is given up.
pub proof fn law_transfer_limits()
    ensures
        SNAPSHOT_CHUNK_BYTES == 4_194_304,
        MAX_SNAPSHOT_CHUNK_BYTES == 4_194_304,
        SNAPSHOT_MAX_TRANSFER_BYTES == 268_435_456,
        SNAPSHOT_MAX_CONCURRENT_TRANSFERS == 4,
        SNAPSHOT_TRANSFER_IDLE_MILLIS == 30_000,
{
}

/// A chunk holds the bytes of the body from where it starts: a full chunk of them while
/// more are left, else all that are left, and it is then the last.
pub proof fn law_chunks_cut_the_body(body: Seq<u8>, offset: int, i: int)
    requires
        0 <= offset <= body.len(),
        0 <= i < chunk_at(body, offset).len(),
    ensures
        chunk_at(body, offset)[i] == body[offset + i],
        is_last_chunk(body, offset) <==> body.len() <= offset + 4_194_304,
        is_last_chunk(body, offset) ==> offset + chunk_at(body, offset).len() == body.len(),
        !is_last_chunk(body, offset) ==> chunk_at(body, offset).len() == 4_194_304,
{
}

/// A chunk at the end of the body is empty, and the last.
pub proof fn law_chunk_at_the_end(body: Seq<u8>)
    ensures
        chunk_at(body, body.len() as int).len() == 0,
        is_last_chunk(body, body.len() as int),
{
}

/// A transfer is live while its last chunk came at most half a minute ago. Those that
/// are live stay as they are.
pub proof fn law_live_transfers(m: Map<u64, InFlightView>, id: u64, now: u64)
    ensures
        live(m, now).contains_key(id) <==> m.contains_key(id) && now <= m[id].last_chunk_at + 30_000,
        live(m, now).contains_key(id) ==> live(m, now)[id] == m[id],
        m.contains_key(id) ==> arrived(m, id) == m[id].data,
        !m.contains_key(id) ==> arrived(m, id).len() == 0,
{
}

/// A chunk that is taken comes behind what has arrived of its transfer, and the transfer
/// is live from now on. A fifth transfer is refused; one that would grow over its limit
/// is given up. Every other live transfer stays as it is.
pub proof fn law_chunk_is_taken(
    m: Map<u64, InFlightView>,
    id: u64,
    data: Seq<u8>,
    now: u64,
    other: u64,
)
    ensures
        ({
            let l = live(m, now);
            let n = after_chunk(m, id, data, now);
            let had = if l.contains_key(id) {
                l[id].data
            } else {
                Seq::empty()
            };
            let crowded = !l.contains_key(id) && l.dom().len() >= 4;
            let big = had.len() + data.len() > 268_435_456;
            &&& too_many(m, id, now) <==> crowded
            &&& too_large(m, id, data, now) <==> big
            &&& takes_chunk(m, id, data, now) <==> !crowded && !big
            &&& !crowded && !big ==> n.contains_key(id) && n[id].data == had + data
                && n[id].last_chunk_at == now
            &&& crowded || big ==> !n.contains_key(id)
            &&& other != id ==> (n.contains_key(other) <==> l.contains_key(other))
            &&& other != id && n.contains_key(other) ==> n[other] == l[other]
        }),
{
}

/// As many chunks lead as are full and leave something behind them.
pub proof fn law_leading_chunks(body: Seq<u8>)
    ensures
        body.len() <= 4_194_304 ==> leading_chunks(body) == 0,
        body.len() > 0 ==> leading_chunks(body) * 4_194_304 < body.len() <= (leading_chunks(body)
            + 1) * 4_194_304,
{
}

/// A transfer is seen as its bytes and the time of its last chunk.
pub proof fn law_transfer_is_seen_whole(t: InFlightSnapshot)
    ensures
        t@.data == t.data@,
        t@.last_chunk_at == t.last_chunk_at,
{
}

} // verus!
