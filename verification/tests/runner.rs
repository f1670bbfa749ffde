//! The processing loop, driven over the claim state machine.

use pcs_service::checkpoint::{usable_accumulator, ACCUMULATOR_STAGE_SENTINEL};
use pcs_service::consensus::state_machine::{
    apply, dump_state, find_first_pending_batch, read_checkpoint, Tables,
};
use pcs_service::consensus::types::{ConsensusCommand, ConsensusResponse};
use pcs_service::error::PcsError;
use pcs_service::runner::{
    AccumulatorLoad, CheckpointStrategy, HeldClaim, Phase, RunOutcome, Runner, RunnerConfig,
};

const LEASE: u64 = 60_000;

/// A claim store over the state machine's tables, with the failures a test
/// wants of it.
struct Store {
    tables: Tables,
    claim_limit: Option<usize>,
    claims: usize,
    acks: usize,
    releases: usize,
    workflow_errors: usize,
    fails_saves: bool,
    renewal_due: bool,
    fails_renewal: bool,
    /// Whether datasets hold an accumulator.
    windows: bool,
}

impl Store {
    fn new(batches: u64) -> Self {
        let mut tables = Tables::new();
        for batch_id in 0..batches {
            apply(
                &mut tables,
                ConsensusCommand::RegisterMasterBatch {
                    batch_id,
                    component: "test".to_string(),
                    schema_id: 1,
                    ipc_bytes: vec![0u8; 64],
                    total_rows: 10,
                    now_at_propose: 0,
                },
            );
        }
        Store {
            tables,
            claim_limit: None,
            claims: 0,
            acks: 0,
            releases: 0,
            workflow_errors: 0,
            fails_saves: false,
            renewal_due: false,
            fails_renewal: false,
            windows: false,
        }
    }

    fn claim_next(&mut self, instance_id: u128) -> Option<HeldClaim> {
        if self.claim_limit.is_some_and(|n| self.claims >= n) {
            return None;
        }
        let (batch_id, (start, end)) = find_first_pending_batch(&self.tables)?;
        let response = apply(
            &mut self.tables,
            ConsensusCommand::ClaimRowRange {
                batch_id,
                row_range_start: start,
                row_range_end: end,
                claim_id: uuid::Uuid::new_v4().as_u128(),
                instance_id,
                lease_ttl_millis: LEASE,
                now_at_propose: 1_000,
            },
        );
        match response {
            ConsensusResponse::BatchClaimed { claim_id, .. } => {
                self.claims += 1;
                Some(HeldClaim {
                    claim_id,
                    instance_id,
                    lease_ttl_millis: LEASE,
                })
            }
            other => panic!("expected a claim, got {other:?}"),
        }
    }

    fn save(&mut self, claim_id: u128, stage_idx: u32, ipc_bytes: Vec<u8>) -> bool {
        if self.fails_saves {
            return false;
        }
        let response = apply(
            &mut self.tables,
            ConsensusCommand::Checkpoint {
                claim_id,
                stage_idx,
                ipc_bytes,
                schema_id: 1,
                now_at_propose: 1_000,
            },
        );
        matches!(response, ConsensusResponse::CheckpointWritten { .. })
    }

    fn settle(&mut self, command: ConsensusCommand) -> Result<(), PcsError> {
        match apply(&mut self.tables, command) {
            ConsensusResponse::Error { message } => Err(PcsError::Store(message)),
            _ => Ok(()),
        }
    }
}

/// Perform what the runner asks for until it has ended. Each row of an
/// accumulator is one byte; `run` gets the rows the dataset starts with.
fn drive(
    config: &RunnerConfig,
    store: &mut Store,
    cancelled: bool,
    run: &mut dyn FnMut(&mut Vec<u8>) -> Result<(), PcsError>,
) -> Result<usize, PcsError> {
    let mut runner = Runner::new(config, 0);
    let mut rows: Vec<u8> = Vec::new();
    loop {
        match runner.phase() {
            Phase::Poll => {
                rows = Vec::new();
                runner.on_polled(cancelled, 1_000);
            }
            Phase::Sweep => runner.on_swept(),
            Phase::Claim => {
                let claimed = store.claim_next(config.instance_id);
                runner.on_claimed(Ok(claimed));
            }
            Phase::LoadAccumulator => {
                let prior = runner.accumulator_claim().unwrap();
                let stored = read_checkpoint(&store.tables, prior, ACCUMULATOR_STAGE_SENTINEL);
                let payload = stored.map(|c| c.ipc_bytes).unwrap_or_default();
                if usable_accumulator(Some(payload.len()), Some(payload.len()), None).is_some() {
                    rows = payload;
                }
                runner.on_accumulator_loaded(AccumulatorLoad::Ready);
            }
            Phase::LoadState => runner.on_state_loaded(true),
            Phase::AskRenewal => runner.on_renewal_asked(store.renewal_due),
            Phase::Renew => {
                let renewed = if store.fails_renewal {
                    Err("simulated lease expiry".to_string())
                } else {
                    Ok(())
                };
                runner.on_renewed(renewed);
            }
            Phase::Run => {
                assert_eq!(runner.renewal_interval_millis(), LEASE / 3);
                let outcome = match run(&mut rows) {
                    Ok(()) => RunOutcome::Ran { has_state: false },
                    Err(e) => RunOutcome::Failed(e),
                };
                runner.on_run(outcome);
            }
            Phase::WriteCheckpoint => {
                let claim = runner.claim().unwrap();
                let written = store.save(claim.claim_id, 0, vec![1]);
                runner.on_checkpoint_written(written);
            }
            Phase::SaveAccumulator => {
                let claim = runner.claim().unwrap();
                let saved = !store.windows
                    || store.save(claim.claim_id, ACCUMULATOR_STAGE_SENTINEL, rows.clone());
                runner.on_accumulator_saved(saved);
            }
            Phase::SaveState => runner.on_state_saved(true),
            Phase::Ack => {
                let claim = runner.claim().unwrap();
                store.acks += 1;
                let acked = store.settle(ConsensusCommand::AckClaim {
                    claim_id: claim.claim_id,
                    instance_id: claim.instance_id,
                });
                runner.on_acked(acked);
            }
            Phase::Release => {
                let claim = runner.claim().unwrap();
                store.releases += 1;
                if runner.is_workflow_error() {
                    store.workflow_errors += 1;
                }
                store
                    .settle(ConsensusCommand::ReleaseClaim {
                        claim_id: claim.claim_id,
                        instance_id: claim.instance_id,
                    })
                    .unwrap();
                runner.on_released();
            }
            Phase::Finished => return runner.into_result(),
        }
    }
}

fn config(max_batches: Option<usize>, checkpoint_strategy: CheckpointStrategy) -> RunnerConfig {
    RunnerConfig {
        max_batches,
        checkpoint_strategy,
        ..Default::default()
    }
}

#[test]
fn test_runner_happy_path_no_batches() {
    let mut store = Store::new(0);
    let processed = drive(
        &config(Some(5), CheckpointStrategy::Never),
        &mut store,
        false,
        &mut |_| Ok(()),
    )
    .unwrap();
    assert_eq!(processed, 0);
}

#[test]
fn test_runner_processes_one_batch() {
    let mut store = Store::new(1);
    let mut counter = 0u32;
    let processed = drive(
        &config(Some(1), CheckpointStrategy::Never),
        &mut store,
        false,
        &mut |_| {
            counter += 1;
            Ok(())
        },
    )
    .unwrap();
    assert_eq!(processed, 1);
    assert_eq!(counter, 1);
}

#[test]
fn test_runner_lease_expiry_causes_clean_exit() {
    let mut store = Store::new(1);
    store.renewal_due = true;
    store.fails_renewal = true;
    let result = drive(
        &config(Some(1), CheckpointStrategy::Never),
        &mut store,
        false,
        &mut |_| Ok(()),
    );
    assert!(
        result.is_err(),
        "expected lease expiry error, got {result:?}"
    );
    let err = result.unwrap_err();
    assert_eq!(err.category(), "generic");
    assert!(err.message().starts_with("lease renewal failed for claim "));
    assert!(err.message().ends_with(": simulated lease expiry"));
    assert_eq!(store.releases, 1);
    assert_eq!(store.workflow_errors, 0);
}

#[test]
fn test_checkpoint_failure_releases_not_acks() {
    let mut store = Store::new(1);
    store.claim_limit = Some(1);
    store.fails_saves = true;
    let processed = drive(
        &config(Some(1), CheckpointStrategy::EveryStage),
        &mut store,
        false,
        &mut |_| Ok(()),
    )
    .expect("runner should skip failed batch without surfacing error");
    assert_eq!(
        processed, 0,
        "batch whose checkpoint failed must not be counted as processed"
    );
    assert_eq!(
        store.releases, 1,
        "expected exactly one release on checkpoint failure"
    );
    assert_eq!(
        store.acks, 0,
        "must NOT ack a claim whose checkpoint failed"
    );
    assert_eq!(store.workflow_errors, 1);
    assert!(
        find_first_pending_batch(&store.tables).is_some(),
        "the batch can be claimed again"
    );
}

#[test]
fn test_accumulator_persists_across_two_runs() {
    let mut store = Store::new(2);
    store.windows = true;
    let mut run_count = 0u32;
    let processed = drive(
        &config(Some(2), CheckpointStrategy::Never),
        &mut store,
        false,
        &mut |rows| {
            run_count += 1;
            rows.push(1);
            Ok(())
        },
    )
    .unwrap();
    assert_eq!(processed, 2);
    assert_eq!(run_count, 2);
}

#[test]
fn test_accumulator_values_carry_across_claims() {
    let mut store = Store::new(2);
    store.windows = true;
    let mut run_count = 0u32;
    let mut entry_rows: Vec<u64> = Vec::new();
    let processed = drive(
        &config(Some(2), CheckpointStrategy::Never),
        &mut store,
        false,
        &mut |rows| {
            entry_rows.push(rows.len() as u64);
            run_count += 1;
            rows.push(1);
            Ok(())
        },
    )
    .unwrap();
    assert_eq!(processed, 2);
    assert_eq!(run_count, 2);
    assert_eq!(
        entry_rows.as_slice(),
        &[0, 1],
        "the second claim must start from the first claim's accumulator rows"
    );

    let dumped = dump_state(&store.tables);
    let mut checkpoint_row_counts: Vec<u64> = dumped
        .2
        .iter()
        .map(|(_, record)| record.ipc_bytes.len() as u64)
        .collect();
    checkpoint_row_counts.sort_unstable();
    assert_eq!(
        checkpoint_row_counts,
        vec![1, 2],
        "claim 1 persists 1 row; claim 2 persists claim 1's row plus its own"
    );
}

#[test]
fn test_accumulator_save_failure_releases_not_acks() {
    let mut store = Store::new(1);
    store.claim_limit = Some(1);
    store.windows = true;
    store.fails_saves = true;
    let processed = drive(
        &config(Some(1), CheckpointStrategy::Never),
        &mut store,
        false,
        &mut |_| Ok(()),
    )
    .expect("runner should skip failed accumulator save without surfacing error");
    assert_eq!(
        processed, 0,
        "batch with failed accumulator save must not be counted"
    );
    assert_eq!(
        store.releases, 1,
        "expected exactly one release on accumulator save failure"
    );
    assert_eq!(
        store.acks, 0,
        "must NOT ack a claim whose accumulator save failed"
    );
}

#[test]
fn test_shutdown_between_batches_clean() {
    let mut store = Store::new(2);
    let processed = drive(
        &config(None, CheckpointStrategy::Never),
        &mut store,
        true,
        &mut |_| Ok(()),
    )
    .unwrap();
    assert_eq!(processed, 0, "cancelled runner must process 0 batches");
    assert_eq!(store.claims, 0);
}

#[test]
fn a_failed_run_ends_the_loop_with_its_error() {
    let mut store = Store::new(2);
    let err = drive(
        &config(None, CheckpointStrategy::Never),
        &mut store,
        false,
        &mut |_| Err(PcsError::Generic("no such column".to_string())),
    )
    .unwrap_err();
    assert_eq!(err.message(), "no such column");
    assert_eq!((store.acks, store.releases, store.workflow_errors), (0, 1, 1));
}

#[test]
fn every_batch_is_acked_until_none_is_left() {
    let mut store = Store::new(3);
    let processed = drive(
        &config(None, CheckpointStrategy::EveryStage),
        &mut store,
        false,
        &mut |_| Ok(()),
    )
    .unwrap();
    assert_eq!(processed, 3);
    assert_eq!((store.acks, store.releases), (3, 0));
}

fn held(claim_id: u128) -> HeldClaim {
    HeldClaim {
        claim_id,
        instance_id: 9,
        lease_ttl_millis: 2,
    }
}

/// A runner that is about to load what a first batch left behind.
fn second_claim() -> Runner {
    let mut r = Runner::new(&config(None, CheckpointStrategy::Never), 0);
    r.on_polled(false, 1);
    r.on_claimed(Ok(Some(held(1))));
    r.on_renewal_asked(false);
    assert_eq!(r.renewal_interval_millis(), 1, "never a pause of nothing");
    r.on_run(RunOutcome::Ran { has_state: true });
    r.on_accumulator_saved(true);
    r.on_state_saved(true);
    r.on_acked(Ok(()));
    r.on_polled(false, 2);
    r.on_claimed(Ok(Some(held(2))));
    assert_eq!(r.phase(), Phase::LoadAccumulator);
    assert_eq!(r.accumulator_claim(), Some(1));
    assert_eq!(r.state_claim(), Some(1));
    r
}

#[test]
fn an_accumulator_that_cannot_be_read_gives_the_claim_back() {
    let mut r = second_claim();
    r.on_accumulator_loaded(AccumulatorLoad::Failed);
    assert_eq!(r.phase(), Phase::Release);
    r.on_released();
    assert_eq!(r.phase(), Phase::Poll);
}

#[test]
fn an_unusable_accumulator_ends_the_loop() {
    let mut r = second_claim();
    let second = r.claim().unwrap();
    r.on_accumulator_loaded(AccumulatorLoad::Undecodable("bad magic".to_string()));
    assert_eq!(r.phase(), Phase::Release);
    assert_eq!(r.claim(), Some(second), "the claim is still to be given back");
    assert!(!r.is_workflow_error());
    r.on_released();
    assert_eq!(r.phase(), Phase::Finished);
    assert_eq!(r.claim(), None, "no lease is held on exit");
    assert_eq!(
        r.into_result().unwrap_err().message(),
        "DistributedRunner: failed to decode accumulator: bad magic"
    );

    let mut r = second_claim();
    r.on_accumulator_loaded(AccumulatorLoad::Unappendable("other columns".to_string()));
    r.on_released();
    assert_eq!(
        r.into_result().unwrap_err().message(),
        "DistributedRunner: failed to restore accumulator rows: other columns"
    );
}

#[test]
fn a_state_that_cannot_be_read_gives_the_claim_back() {
    let mut r = second_claim();
    r.on_accumulator_loaded(AccumulatorLoad::Ready);
    assert_eq!(r.phase(), Phase::LoadState);
    r.on_state_loaded(false);
    assert_eq!(r.phase(), Phase::Release);
    assert!(!r.is_workflow_error());
}

#[test]
fn the_chain_moves_only_on_durable_saves() {
    let mut r = second_claim();
    r.on_accumulator_loaded(AccumulatorLoad::Ready);
    r.on_state_loaded(true);
    r.on_renewal_asked(true);
    r.on_renewed(Ok(()));
    r.on_run(RunOutcome::Ran { has_state: true });
    r.on_accumulator_saved(true);
    r.on_state_saved(false);
    assert_eq!(r.phase(), Phase::Release);
    assert_eq!(r.accumulator_claim(), Some(2), "its save was durable");
    assert_eq!(r.state_claim(), Some(1), "its save was not");
}

#[test]
fn a_lease_lost_during_the_run_is_no_error_of_the_loop() {
    let mut r = second_claim();
    r.on_accumulator_loaded(AccumulatorLoad::Ready);
    r.on_state_loaded(true);
    r.on_renewal_asked(false);
    r.on_run(RunOutcome::RenewalFailed);
    assert_eq!(r.phase(), Phase::Release);
    assert!(r.is_workflow_error());
    r.on_released();
    assert_eq!(r.phase(), Phase::Poll);
}

#[test]
fn failures_to_claim_or_ack_end_the_loop() {
    let mut r = Runner::new(&config(None, CheckpointStrategy::Never), 0);
    r.on_polled(false, 1);
    r.on_claimed(Err(PcsError::Store("down".to_string())));
    assert_eq!(r.into_result().unwrap_err().category(), "store");

    let mut r = Runner::new(&config(None, CheckpointStrategy::Never), 0);
    r.on_polled(false, 1);
    r.on_claimed(Ok(Some(held(1))));
    r.on_renewal_asked(false);
    r.on_run(RunOutcome::Ran { has_state: false });
    r.on_accumulator_saved(true);
    r.on_acked(Err(PcsError::Store("lost".to_string())));
    assert_eq!(r.claim(), None);
    assert_eq!(r.into_result().unwrap_err().message(), "lost");
}

#[test]
fn leases_are_swept_every_half_minute() {
    let mut r = Runner::new(&config(None, CheckpointStrategy::Never), 1_000);
    r.on_polled(false, 30_999);
    assert_eq!(r.phase(), Phase::Claim);

    let mut r = Runner::new(&config(None, CheckpointStrategy::Never), 1_000);
    r.on_polled(false, 31_000);
    assert_eq!(r.phase(), Phase::Sweep);
    r.on_swept();
    assert_eq!(r.phase(), Phase::Claim);
}

#[test]
fn configurations_get_identities_of_their_own() {
    let a = RunnerConfig::default();
    let b = RunnerConfig::default();
    assert_ne!(a.instance_id, b.instance_id);
    let id = uuid::Uuid::from_u128(a.instance_id);
    assert_eq!(id.get_version_num(), 7);
    assert_eq!(id.get_variant(), uuid::Variant::RFC4122);
    assert_eq!(a.schema_id, 1);
    assert_eq!(a.max_batches, None);
    assert_eq!(a.partition_mask, None);
    assert_eq!(a.lease_renewal_check_interval_millis, 5_000);
    assert!(a.checkpoint_strategy.should_checkpoint(3));
    assert!(!CheckpointStrategy::Never.should_checkpoint(3));
}
