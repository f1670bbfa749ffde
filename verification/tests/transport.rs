use pcs_service::consensus::types::ConsensusResponse;
use pcs_service::transport::client;
use pcs_service::transport::client::{
    send_error, Acquired, CircuitState, PeerPool, TcpNetworkFactory, TransportHub, Written,
    CIRCUIT_OPEN_MILLIS, CIRCUIT_OPEN_THRESHOLD, POOL_CAPACITY, POOL_MAX_IDLE_MILLIS,
    RPC_READ_TIMEOUT_MILLIS,
};
use pcs_service::transport::rpc::{
    answer_proposal, append_entries_reply, backoff_step, finish_call, forward_proposal,
    from_pool_error, vote_reply, Backoff, Exchange, Forwarded, ProposalResult, ProposalWrite,
    Reply, RpcFault, TransportError, BACKOFF_BASE_MILLIS, BACKOFF_CAP_MILLIS,
};
use pcs_service::transport::snapshot::{
    ChunkAnswer, SendStep, SnapshotReply, SnapshotSend, SnapshotTransfers, TransferIds,
    MAX_SNAPSHOT_CHUNK_BYTES, SNAPSHOT_CHUNK_BYTES, SNAPSHOT_MAX_CONCURRENT_TRANSFERS,
    SNAPSHOT_MAX_TRANSFER_BYTES, SNAPSHOT_TRANSFER_IDLE_MILLIS,
};
use pcs_service::transport::wire::{
    decode_chunk, decode_frame_header, decode_raft_message, encode_chunk, encode_frame,
    encode_raft_message, FrameError, MAX_FRAME_BYTES, TAG_RAFT_MESSAGE,
};

/// A moment on the clock far enough from its origin to look back from.
const NOW: u64 = 1_000_000;

#[test]
fn test_raft_message_body_round_trip() {
    let body = encode_raft_message(&[0xAA, 0xBB, 0xCC]);
    assert_eq!(body[0], TAG_RAFT_MESSAGE);
    assert_eq!(decode_raft_message(&body).unwrap(), &[0xAA, 0xBB, 0xCC]);
}

#[test]
fn test_empty_raft_message_body_round_trips() {
    let body = encode_raft_message(&[]);
    assert_eq!(body, vec![TAG_RAFT_MESSAGE]);
    assert!(decode_raft_message(&body).unwrap().is_empty());
}

#[test]
fn test_decode_rejects_empty_and_unknown_tags() {
    assert!(decode_raft_message(&[]).is_err());
    let err = decode_raft_message(&[0xFF, 0x00]).unwrap_err();
    assert!(
        err.describe().contains("unknown transport tag 255"),
        "an unknown tag must name itself: {}",
        err.describe()
    );
}

#[test]
fn test_circuit_starts_closed() {
    let state = CircuitState::new();
    assert!(!state.is_open(NOW), "fresh circuit must be closed");
}

#[test]
fn test_circuit_opens_after_threshold_failures() {
    let mut state = CircuitState::new();
    for i in 0..CIRCUIT_OPEN_THRESHOLD {
        assert!(
            !state.is_open(NOW),
            "circuit should still be closed at failure {i}"
        );
        state.record_failure(NOW);
    }
    assert!(
        state.is_open(NOW),
        "circuit must be open after {CIRCUIT_OPEN_THRESHOLD} failures"
    );
}

#[test]
fn test_circuit_resets_on_success() {
    let mut state = CircuitState::new();
    for _ in 0..CIRCUIT_OPEN_THRESHOLD - 1 {
        state.record_failure(NOW);
    }
    assert!(!state.is_open(NOW), "should still be closed before threshold");
    state.record_success();
    for i in 0..CIRCUIT_OPEN_THRESHOLD {
        assert!(
            !state.is_open(NOW),
            "circuit should be closed after reset, at failure {i}"
        );
        state.record_failure(NOW);
    }
    assert!(
        state.is_open(NOW),
        "circuit must open again after threshold failures post-reset"
    );
}

#[test]
fn test_circuit_half_open_after_duration() {
    let mut state = CircuitState::Open {
        opened_at: NOW - CIRCUIT_OPEN_MILLIS - 1,
    };
    assert!(
        !state.is_open(NOW),
        "expired open circuit should not be considered open"
    );

    state.record_failure(NOW);
    assert!(
        matches!(
            state,
            CircuitState::Closed {
                consecutive_failures: 1
            }
        ),
        "half-open after timeout: one failure allowed before re-opening"
    );
}

#[test]
fn test_circuit_stays_closed_below_threshold() {
    let mut state = CircuitState::new();
    for _ in 0..CIRCUIT_OPEN_THRESHOLD - 1 {
        state.record_failure(NOW);
    }
    assert!(
        !state.is_open(NOW),
        "circuit must stay closed with fewer than {CIRCUIT_OPEN_THRESHOLD} failures"
    );
}

#[test]
fn test_frame_round_trip_raft_message() {
    let body = encode_raft_message(&[0x01, 0x02, 0x03]);
    let frame = encode_frame(&body).unwrap();
    let header: [u8; 4] = [frame[0], frame[1], frame[2], frame[3]];
    assert_eq!(header, [0, 0, 0, 4]);
    let len = decode_frame_header(&header).unwrap();
    assert_eq!(&frame[4..4 + len], body.as_slice());
}

#[test]
fn test_frame_rejects_oversized() {
    let header = (MAX_FRAME_BYTES as u32 + 1).to_be_bytes();
    let err = decode_frame_header(&header).expect_err("oversized frame must fail");
    assert_eq!(err, FrameError::TooLarge(MAX_FRAME_BYTES + 1));
}

#[test]
fn test_read_frame_oversized_returns_error() {
    let oversized_len = (MAX_FRAME_BYTES + 1) as u32;
    let result = decode_frame_header(&oversized_len.to_be_bytes());
    assert!(matches!(result, Err(FrameError::TooLarge(_))));
    assert_eq!(
        result.unwrap_err().describe(),
        "frame too large: 16777217 > 16777216"
    );
    assert_eq!(
        decode_frame_header(&(MAX_FRAME_BYTES as u32).to_be_bytes()),
        Ok(MAX_FRAME_BYTES)
    );
}

#[test]
fn test_write_frame_oversized_returns_error() {
    let big = vec![0u8; MAX_FRAME_BYTES + 1];
    let result = encode_frame(&big);
    assert!(matches!(result, Err(FrameError::TooLarge(_))));
    assert!(encode_frame(&big[..MAX_FRAME_BYTES]).is_ok());
}

#[test]
fn empty_frame_body_is_named() {
    assert_eq!(
        decode_raft_message(&[]).unwrap_err().describe(),
        "empty transport frame"
    );
}

#[test]
fn test_connect_failure_maps_to_unreachable() {
    let err = from_pool_error(client::TransportError::ConnectFailed(
        "connection refused".to_string(),
    ));
    let rpc_err = err.into_rpc_error();
    assert_eq!(
        rpc_err,
        RpcFault::Unreachable("connect failed: connection refused".to_string()),
        "connect failure must map to Unreachable"
    );
}

#[test]
fn test_read_timeout_maps_to_network_error() {
    let rpc_err = TransportError::ReadTimeout.into_rpc_error();
    assert!(
        matches!(rpc_err, RpcFault::Network(_)),
        "read timeout must map to Network (transient), got: {rpc_err:?}"
    );
    assert_eq!(rpc_err, RpcFault::Network("RPC read timeout".to_string()));
}

#[test]
fn test_transient_errors_map_to_network() {
    let cases: Vec<TransportError> = vec![
        TransportError::PeerReset,
        TransportError::WriteFailed("x".to_string()),
        TransportError::WriteTimeout,
        TransportError::FramingError("bad frame".to_string()),
        TransportError::Other("y".to_string()),
    ];
    for err in cases {
        let rpc_err = err.into_rpc_error();
        assert!(
            matches!(rpc_err, RpcFault::Network(_)),
            "expected Network for transient error, got: {rpc_err:?}"
        );
    }
}

#[test]
fn test_encode_error_maps_to_unreachable() {
    let err = TransportError::EncodeError("bad type".to_string());
    let rpc_err = err.into_rpc_error();
    assert!(
        matches!(rpc_err, RpcFault::Unreachable(_)),
        "encode error must map to Unreachable, got: {rpc_err:?}"
    );
}

#[test]
fn fault_messages_are_exact() {
    assert_eq!(
        TransportError::EncodeError("bad type".to_string()).into_streaming_error(),
        RpcFault::Unreachable("encode error (bug): bad type".to_string())
    );
    assert_eq!(
        TransportError::WriteFailed("x".to_string()).into_streaming_error(),
        RpcFault::Network("write failed: x".to_string())
    );
    assert_eq!(
        TransportError::WriteTimeout.into_streaming_error(),
        RpcFault::Network("RPC write timeout".to_string())
    );
    assert_eq!(
        TransportError::PeerReset.into_streaming_error(),
        RpcFault::Network("peer reset connection".to_string())
    );
    assert_eq!(
        TransportError::FramingError("bad frame".to_string()).into_streaming_error(),
        RpcFault::Network("bad frame".to_string())
    );
    assert_eq!(
        TransportError::Other("y".to_string()).into_streaming_error(),
        RpcFault::Network("y".to_string())
    );
    assert_eq!(
        client::TransportError::WriteTimeout.describe(),
        "write timeout"
    );
    assert_eq!(
        client::TransportError::WriteFailed("x".to_string()).describe(),
        "write failed: x"
    );
    assert_eq!(
        client::TransportError::Other("x".to_string()).describe(),
        "transport error: x"
    );
    assert_eq!(
        client::TransportError::ConnectFailed("x".to_string()).describe(),
        "connect failed: x"
    );
}

fn take(pool: &mut PeerPool<u32>, now: u64, next: &mut u32) -> u32 {
    match pool.acquire(now) {
        Acquired::Pooled(s) => s,
        Acquired::Connect => {
            *next += 1;
            *next
        }
        Acquired::Blocked(e) => panic!("{}", e.describe()),
    }
}

#[test]
fn test_pool_acquire_release_capacity() {
    let mut pool: PeerPool<u32> = PeerPool::new("127.0.0.1:9000".to_string());
    let mut opened = 0;

    let s1 = take(&mut pool, NOW, &mut opened);
    let s2 = take(&mut pool, NOW, &mut opened);
    pool.release(s1, NOW);
    pool.release(s2, NOW);
    assert_eq!(pool.idle.len(), 2, "both streams should be in the pool");

    let mut extras = Vec::new();
    for _ in 0..POOL_CAPACITY {
        extras.push(take(&mut pool, NOW, &mut opened));
    }
    for s in extras {
        pool.release(s, NOW);
    }
    assert_eq!(
        pool.idle.len(),
        POOL_CAPACITY,
        "pool must not exceed POOL_CAPACITY"
    );
    pool.release(99, NOW);
    assert_eq!(pool.idle.len(), POOL_CAPACITY);
}

#[test]
fn test_pool_stale_connection_dropped() {
    let mut pool: PeerPool<u32> = PeerPool::new("127.0.0.1:9000".to_string());
    pool.release(1, NOW - POOL_MAX_IDLE_MILLIS - 1_000);
    assert!(
        matches!(pool.acquire(NOW), Acquired::Connect),
        "should open a new connection after discarding stale one"
    );
    assert_eq!(pool.idle.len(), 0);

    pool.release(2, NOW - POOL_MAX_IDLE_MILLIS - 1);
    pool.release(3, NOW - POOL_MAX_IDLE_MILLIS);
    assert!(matches!(pool.acquire(NOW), Acquired::Pooled(3)));
}

#[test]
fn test_pool_acquire_blocked_by_open_circuit() {
    let mut pool: PeerPool<u32> = PeerPool::new("127.0.0.1:1".to_string());
    pool.circuit = CircuitState::Open { opened_at: NOW };
    match pool.acquire(NOW) {
        Acquired::Blocked(err) => {
            assert!(matches!(err, client::TransportError::Other(_)));
            assert_eq!(
                err.describe(),
                "transport error: circuit open for peer 127.0.0.1:1 \u{2014} too many consecutive failures"
            );
        }
        _ => panic!("open circuit must return TransportError::Other"),
    }
}

#[test]
fn call_outcomes_move_the_circuit() {
    let mut pool: PeerPool<u32> = PeerPool::new("peer:1".to_string());
    for i in 0..CIRCUIT_OPEN_THRESHOLD {
        let x: Exchange<u8> = if i % 2 == 0 {
            Exchange::WriteTimedOut
        } else {
            Exchange::Undecodable("eof".to_string())
        };
        assert!(finish_call(&mut pool, i, x, NOW).is_err());
    }
    assert!(pool.circuit.is_open(NOW));
    assert_eq!(pool.idle.len(), 0, "a broken stream never returns");
    let later = NOW + CIRCUIT_OPEN_MILLIS;
    assert!(matches!(pool.acquire(later), Acquired::Connect));
    assert_eq!(
        finish_call(&mut pool, 7, Exchange::Reply(42u8), later),
        Ok(42)
    );
    assert_eq!(
        pool.circuit,
        CircuitState::Closed {
            consecutive_failures: 0
        }
    );
    assert_eq!(pool.idle.len(), 1);
    assert_eq!(
        finish_call(&mut pool, 8, Exchange::<u8>::ReadTimedOut, later),
        Err(TransportError::ReadTimeout)
    );
    assert_eq!(
        finish_call(&mut pool, 8, Exchange::<u8>::WriteTimedOut, later),
        Err(TransportError::WriteTimeout)
    );
    assert_eq!(
        finish_call(&mut pool, 8, Exchange::<u8>::Closed, later),
        Err(TransportError::PeerReset)
    );
    let failures: Vec<(Exchange<u8>, RpcFault)> = vec![
        (
            Exchange::WriteFailed("w".to_string()),
            RpcFault::Network("write failed: w".to_string()),
        ),
        (
            Exchange::ReadTimedOut,
            RpcFault::Network("RPC read timeout".to_string()),
        ),
        (
            Exchange::ReadFailed("r".to_string()),
            RpcFault::Network("r".to_string()),
        ),
        (
            Exchange::Closed,
            RpcFault::Network("peer reset connection".to_string()),
        ),
        (
            Exchange::Undecodable("d".to_string()),
            RpcFault::Network("response decode: d".to_string()),
        ),
    ];
    for (x, fault) in failures {
        let err = finish_call(&mut pool, 8, x, later).unwrap_err();
        assert_eq!(err.into_rpc_error(), fault);
    }
}

#[test]
fn hub_sends_and_counts_per_peer() {
    let peers = vec![(2u64, "b:1".to_string()), (3u64, "c:1".to_string())];
    let mut hub: TransportHub<u32> = TransportHub::new(&peers);
    assert_eq!(
        hub.begin_send(9, NOW).unwrap_err().message(),
        "TransportHub: no network for peer 9"
    );
    assert_eq!(hub.begin_send(2, NOW).unwrap(), None);
    assert!(hub.finish_send(2, 77, Written::Done, NOW).is_ok());
    assert_eq!(hub.begin_send(2, NOW).unwrap(), Some(77));
    for _ in 0..CIRCUIT_OPEN_THRESHOLD {
        let err = hub.finish_send(2, 1, Written::TimedOut, NOW).unwrap_err();
        assert_eq!(
            err.message(),
            "send raft message to peer 2 failed: write timeout"
        );
    }
    assert_eq!(
        hub.begin_send(2, NOW).unwrap_err().message(),
        "send raft message to peer 2 failed: transport error: circuit open for peer b:1 \u{2014} too many consecutive failures"
    );
    assert_eq!(hub.begin_send(3, NOW).unwrap(), None);
    assert_eq!(
        hub.finish_send(3, 1, Written::Failed("broken pipe".to_string()), NOW)
            .unwrap_err()
            .message(),
        "send raft message to peer 3 failed: write failed: broken pipe"
    );
    assert_eq!(
        send_error(4, &client::TransportError::ConnectFailed("DNS: x".to_string())).message(),
        "send raft message to peer 4 failed: connect failed: DNS: x"
    );
}

#[test]
fn failed_connects_open_the_circuit() {
    let peers = vec![(2u64, "b:1".to_string())];
    let mut hub: TransportHub<u32> = TransportHub::new(&peers);
    for _ in 0..CIRCUIT_OPEN_THRESHOLD {
        assert_eq!(hub.begin_send(2, NOW).unwrap(), None);
        let cause = client::TransportError::ConnectFailed("refused".to_string());
        assert_eq!(
            hub.connect_failed(2, cause, NOW).message(),
            "send raft message to peer 2 failed: connect failed: refused"
        );
    }
    assert!(hub
        .begin_send(2, NOW)
        .unwrap_err()
        .message()
        .contains("circuit open for peer b:1"));
    assert_eq!(hub.begin_send(2, NOW + CIRCUIT_OPEN_MILLIS).unwrap(), None);
}

#[test]
fn factory_prefers_the_configured_address() {
    let factory = TcpNetworkFactory::new(&vec![(2u64, "node2:9002".to_string())]);
    assert_eq!(factory.rpc_read_timeout_millis, RPC_READ_TIMEOUT_MILLIS);
    let known: PeerPool<u32> = factory.new_client(2, "elsewhere:1");
    assert_eq!(known.addr, "node2:9002");
    let unknown: PeerPool<u32> = factory.new_client(3, "elsewhere:1");
    assert_eq!(unknown.addr, "elsewhere:1");
}

#[test]
fn test_transfer_id_counter_unique() {
    let mut ids = TransferIds::new();
    let id1 = ids.take();
    let id2 = ids.take();
    assert_ne!(id1, id2, "transfer IDs must be unique");
    assert_eq!((id1, id2), (1, 2));
}

#[test]
fn test_snapshot_buffer_concurrent_limit() {
    let mut transfers = SnapshotTransfers::new();
    for i in 0..SNAPSHOT_MAX_CONCURRENT_TRANSFERS {
        assert!(matches!(
            transfers.on_chunk(i as u64, &[], NOW),
            ChunkAnswer::Ack { .. }
        ));
    }
    assert_eq!(transfers.len(), SNAPSHOT_MAX_CONCURRENT_TRANSFERS);

    match transfers.on_chunk(999, &[1], NOW) {
        ChunkAnswer::Error(m) => {
            assert_eq!(m, "too many concurrent snapshot transfers (max 4)")
        }
        _ => panic!("should detect new transfer at limit"),
    }
    assert!(matches!(
        transfers.on_chunk(0, &[1], NOW),
        ChunkAnswer::Ack { transfer_id: 0 }
    ));
    // Idle transfers make room.
    let later = NOW + SNAPSHOT_TRANSFER_IDLE_MILLIS + 1;
    assert!(matches!(
        transfers.on_chunk(999, &[1], later),
        ChunkAnswer::Ack { transfer_id: 999 }
    ));
    assert_eq!(transfers.len(), 1);
}

#[test]
fn test_snapshot_buffer_size_cap() {
    let mut transfers = SnapshotTransfers::new();
    let transfer_id = 1u64;
    let nearly = vec![0u8; SNAPSHOT_MAX_TRANSFER_BYTES - 1];
    assert!(matches!(
        transfers.on_chunk(transfer_id, &nearly, NOW),
        ChunkAnswer::Ack { .. }
    ));
    match transfers.on_chunk(transfer_id, &[0, 0], NOW) {
        ChunkAnswer::Error(m) => assert_eq!(
            m,
            "snapshot transfer 1 exceeded size limit (268435456 bytes)"
        ),
        _ => panic!("size check should detect overflow"),
    }
    assert_eq!(transfers.len(), 0, "the oversized transfer is dropped");
}

#[test]
fn test_snapshot_chunk_reassembly_roundtrip() {
    let body_size = SNAPSHOT_CHUNK_BYTES + 100;
    let body: Vec<u8> = (0..body_size).map(|i| (i % 251) as u8).collect();
    let mut send = SnapshotSend::new(body.clone(), 5);
    let mut transfers = SnapshotTransfers::new();
    let mut chunks = 0;
    let installed = loop {
        let chunk = send.chunk();
        assert_eq!(chunk.transfer_id, 5);
        assert_eq!(chunk.offset as usize, chunks * SNAPSHOT_CHUNK_BYTES);
        chunks += 1;
        if chunk.is_last {
            let whole = transfers.on_final(chunk.transfer_id, &chunk.data);
            assert!(matches!(
                send.on_reply(SnapshotReply::Done),
                SendStep::Finished
            ));
            break whole;
        }
        match transfers.on_chunk(chunk.transfer_id, &chunk.data, NOW) {
            ChunkAnswer::Ack { transfer_id } => assert_eq!(transfer_id, 5),
            ChunkAnswer::Error(m) => panic!("{m}"),
        }
        assert!(matches!(
            send.on_reply(SnapshotReply::ChunkAck),
            SendStep::Continue
        ));
    };
    assert_eq!(chunks, 2);
    assert_eq!(installed, body, "snapshot transfer should succeed");
    assert_eq!(transfers.len(), 0);
}

#[test]
fn snapshot_replies_end_the_transfer() {
    let mut send = SnapshotSend::new(vec![1, 2, 3], 1);
    assert!(send.chunk().is_last);
    match send.on_reply(SnapshotReply::ChunkAck) {
        SendStep::Failed(m) => {
            assert_eq!(m, "snapshot transfer loop exited without final response")
        }
        _ => panic!("an acknowledged last chunk is no installation"),
    }
    match send.on_reply(SnapshotReply::Error("disk".to_string())) {
        SendStep::Failed(m) => assert_eq!(m, "snapshot install error from peer: disk"),
        _ => panic!("the peer refused"),
    }
    match send.on_reply(SnapshotReply::Unexpected("Vote".to_string())) {
        SendStep::Failed(m) => assert_eq!(m, "unexpected snapshot response: Vote"),
        _ => panic!("no such reply"),
    }
    let empty = SnapshotSend::new(Vec::new(), 2).chunk();
    assert!(empty.is_last && empty.data.is_empty());
}

#[test]
fn test_snapshot_chunk_size_constant_matches_server_cap() {
    assert_eq!(
        MAX_SNAPSHOT_CHUNK_BYTES, SNAPSHOT_CHUNK_BYTES,
        "client and server chunk caps must match"
    );
}

#[test]
fn test_forward_proposal_success() {
    let answer = answer_proposal(ProposalWrite::Applied(ConsensusResponse::ClaimAcked));
    let result = forward_proposal("leader:1", Forwarded::Result(answer));
    assert!(
        matches!(result, Ok(ConsensusResponse::ClaimAcked)),
        "expected ClaimAcked, got: {result:?}"
    );
}

#[test]
fn test_forward_proposal_leader_error_response() {
    let answer = answer_proposal(ProposalWrite::NotLeader);
    assert_eq!(
        answer,
        ProposalResult {
            ok: None,
            err: Some("not leader".to_string())
        }
    );
    let result = forward_proposal("leader:1", Forwarded::Result(answer));
    assert!(result.is_err(), "expected error from leader error response");
    let msg = result.unwrap_err().message();
    assert!(
        msg.contains("not leader"),
        "error message should contain 'not leader': {msg}"
    );
    assert_eq!(msg, "forward_proposal: leader returned error: not leader");
}

#[test]
fn test_forward_proposal_connect_failure() {
    let result = forward_proposal(
        "127.0.0.1:1",
        Forwarded::ConnectFailed("refused".to_string()),
    );
    assert_eq!(
        result.unwrap_err().message(),
        "forward_proposal: connect to 127.0.0.1:1: refused"
    );
}

#[test]
fn forwarding_names_what_failed() {
    let cases: Vec<(Forwarded, &str)> = vec![
        (
            Forwarded::EncodeFailed("e".to_string()),
            "forward_proposal: serialize envelope: e",
        ),
        (
            Forwarded::WriteTimedOut,
            "forward_proposal: write timeout to a:1",
        ),
        (
            Forwarded::WriteFailed("e".to_string()),
            "forward_proposal: write frame: e",
        ),
        (
            Forwarded::ReadTimedOut,
            "forward_proposal: read timeout from a:1",
        ),
        (
            Forwarded::ReadFailed("e".to_string()),
            "forward_proposal: read frame: e",
        ),
        (
            Forwarded::Closed,
            "forward_proposal: connection reset by a:1",
        ),
        (
            Forwarded::Undecodable("e".to_string()),
            "forward_proposal: response decode: e",
        ),
        (
            Forwarded::Result(ProposalResult {
                ok: None,
                err: None,
            }),
            "forward_proposal: empty ProposalResult from leader",
        ),
        (
            Forwarded::Unexpected("Vote".to_string()),
            "forward_proposal: unexpected response from a:1: Vote",
        ),
    ];
    for (outcome, text) in cases {
        assert_eq!(
            forward_proposal("a:1", outcome).unwrap_err().message(),
            text
        );
    }
    assert_eq!(
        answer_proposal(ProposalWrite::TimedOut).err,
        Some("server-side client_write timeout".to_string())
    );
    assert_eq!(
        answer_proposal(ProposalWrite::Failed("x".to_string())).err,
        Some("x".to_string())
    );
}

#[test]
fn replies_of_another_kind_are_faults() {
    assert_eq!(append_entries_reply(Reply::Expected(3u8)), Ok(3));
    assert_eq!(
        append_entries_reply::<u8>(Reply::Error("x".to_string())),
        Err(RpcFault::Network("append_entries error: x".to_string()))
    );
    assert_eq!(
        append_entries_reply::<u8>(Reply::Other),
        Err(RpcFault::Network(
            "unexpected response variant for append_entries".to_string()
        ))
    );
    assert_eq!(
        vote_reply::<u8>(Reply::Error("x".to_string())),
        Err(RpcFault::Network("vote error: x".to_string()))
    );
    assert_eq!(
        vote_reply::<u8>(Reply::Other),
        Err(RpcFault::Network(
            "unexpected response variant for vote".to_string()
        ))
    );
}

#[test]
fn backoff_doubles_up_to_the_cap() {
    assert_eq!(backoff_step(100, 0), 200);
    assert_eq!(backoff_step(100, 40), 240);
    assert_eq!(backoff_step(6_000, 2_000), 12_000);
    let mut b = Backoff::new();
    let mut least = BACKOFF_BASE_MILLIS;
    let mut seen = Vec::new();
    for i in 0..20 {
        let d = b.next_delay();
        if i == 0 {
            assert_eq!(d, BACKOFF_BASE_MILLIS);
        }
        assert!(d >= least && d <= BACKOFF_CAP_MILLIS + BACKOFF_CAP_MILLIS / 5);
        least = (least * 2).min(BACKOFF_CAP_MILLIS);
        seen.push(d);
    }
    let tail: Vec<u64> = seen[10..].to_vec();
    assert!(
        tail.iter().any(|d| *d != tail[0]),
        "the jitter must vary: {tail:?}"
    );
}

#[test]
fn a_chunk_travels_as_digits() {
    let data: Vec<u8> = (0..=255).collect();
    let digits = encode_chunk(&data);
    assert_eq!(&digits[..8], b"00010203");
    assert_eq!(&digits[508..], b"feff");
    assert_eq!(decode_chunk(&digits), Some(data));
    assert_eq!(decode_chunk(b""), Some(vec![]));
    assert_eq!(decode_chunk(b"0"), None);
    assert_eq!(decode_chunk(b"0G"), None);
    assert_eq!(decode_chunk(b"AB"), None);
    let largest = encode_chunk(&vec![0xFF; MAX_SNAPSHOT_CHUNK_BYTES]);
    assert!(largest.len() <= MAX_FRAME_BYTES / 2);
}
