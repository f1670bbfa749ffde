use pcs_service::checkpoint::{
    check_accumulator_size, check_dataset_size, usable_accumulator, Checkpoint,
    ACCUMULATOR_STAGE_SENTINEL,
};

#[test]
fn test_arrow_checkpoint_fields() {
    let cp = Checkpoint {
        batch_id: 42,
        stage_idx: 3,
        payload: vec![0xAA, 0xBB],
        schema_id: 1,
        created_at: 1_700_000_000_000,
    };
    assert_eq!(cp.batch_id, 42);
    assert_eq!(cp.stage_idx, 3);
    assert_eq!(cp.payload, vec![0xAA, 0xBB]);
    assert_eq!(cp.schema_id, 1);
    assert_eq!(cp.created_at, 1_700_000_000_000);
}

#[test]
fn test_arrow_checkpoint_empty_payload() {
    let cp = Checkpoint {
        batch_id: 1,
        stage_idx: 0,
        payload: vec![],
        schema_id: 0,
        created_at: 0,
    };
    assert!(cp.payload.is_empty());
}

#[test]
fn test_arrow_checkpoint_clone_eq() {
    let cp = Checkpoint {
        batch_id: 7,
        stage_idx: 2,
        payload: vec![1, 2, 3],
        schema_id: 5,
        created_at: 999,
    };
    assert_eq!(cp.clone(), cp);
}

#[test]
fn datasets_fit_a_log_entry_exactly_at_the_cap() {
    assert!(check_dataset_size(1_048_576).is_ok());
    let err = check_dataset_size(1_048_577).unwrap_err();
    assert_eq!(err.category(), "configuration");
    assert_eq!(
        err.message(),
        "checkpoint dataset size 1048577 bytes exceeds MAX_LOG_ENTRY_BYTES 1048576 \
         — reduce pipeline state or shorten batches"
    );
}

#[test]
fn accumulators_stay_below_the_cap() {
    assert!(check_accumulator_size(1_048_575).is_ok());
    let err = check_accumulator_size(1_048_576).unwrap_err();
    assert_eq!(
        err.message(),
        "accumulator checkpoint size 1048576 bytes exceeds MAX_LOG_ENTRY_BYTES 1048576 \
         — reduce the number of open windows or split the pipeline"
    );
}

#[test]
fn empty_accumulators_are_not_used() {
    assert_eq!(usable_accumulator(None, None, None), None);
    assert_eq!(usable_accumulator(Some(0), Some(1), Some(2)), None);
    assert_eq!(usable_accumulator(Some(8), None, Some(2)), None);
    assert_eq!(usable_accumulator(Some(8), Some(0), Some(2)), None);
    assert_eq!(usable_accumulator(Some(8), Some(1), Some(2)), Some(2));
    assert_eq!(usable_accumulator(Some(8), Some(1), None), Some(1));
    assert_eq!(ACCUMULATOR_STAGE_SENTINEL, u32::MAX);
}
