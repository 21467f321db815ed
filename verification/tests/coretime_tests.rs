use jamliquor::coretime::{
    CoreTimeLedger, MAX_ASSURANCES_PER_BLOCK, MAX_CORETIME_PER_CORE, MAX_DISPUTE_AGE,
    MAX_GUARANTEE_LOOKBACK,
};
use jamliquor::schema::BlockchainError;

#[test]
fn validate_and_apply_updates_coretime_ledger_state() {
    let mut ledger = CoreTimeLedger::default();

    let guarantees = vec![br#"{
        "slot": 90,
        "report": {
            "core_index": 3,
            "auth_gas_used": 10,
            "results": [
                {
                    "accumulate_gas": 20,
                    "service_id": 0
                }
            ]
        }
    }"#
    .to_vec()];

    let assurances = vec![br#"{
        "bitfield": "0x1",
        "validator_index": 0
    }"#
    .to_vec()];

    let disputes = None;

    ledger
        .validate_and_apply(
            90 + MAX_GUARANTEE_LOOKBACK,
            &guarantees,
            &assurances,
            &disputes,
        )
        .expect("CoreTime validation should succeed for valid data");

    assert_eq!(ledger.total_allocated(), 30);
    assert_eq!(ledger.total_consumed(), 30);
    assert_eq!(ledger.per_core_consumed(3), Some(30));
    assert_eq!(ledger.last_block_slot(), Some(90 + MAX_GUARANTEE_LOOKBACK));
}

#[test]
fn validate_and_apply_rejects_coretime_overuse() {
    let mut ledger = CoreTimeLedger::default();

    let guarantees = vec![format!(
        r#"{{
        "slot": 50,
        "report": {{
            "core_index": 1,
            "results": [
                {{
                    "accumulate_gas": {},
                    "service_id": 42
                }}
            ]
        }}
    }}"#,
        MAX_CORETIME_PER_CORE + 1
    )
    .into_bytes()];

    let err = ledger
        .validate_and_apply(50, &guarantees, &Vec::new(), &None)
        .expect_err("CoreTime validation should fail when consumption exceeds limits");

    assert!(matches!(err, BlockchainError::CoreTimeBalanceError));
    assert_eq!(ledger.total_allocated(), 0, "a failed call leaves the ledger unchanged");
    assert_eq!(ledger.per_core_consumed(1), None);
}

#[test]
fn validate_and_apply_rejects_stale_disputes() {
    let mut ledger = CoreTimeLedger::default();

    let guarantees: Vec<Vec<u8>> = Vec::new();
    let assurances: Vec<Vec<u8>> = Vec::new();
    let disputes = Some(
        format!(
            r#"{{
        "verdicts": [
            {{
                "target": "0xdeadbeef",
                "age": {},
                "votes": [
                    {{
                        "vote": true,
                        "index": 0,
                        "signature": "0x01"
                    }}
                ]
            }}
        ]
    }}"#,
            MAX_DISPUTE_AGE + 1
        )
        .into_bytes(),
    );

    let err = ledger
        .validate_and_apply(10, &guarantees, &assurances, &disputes)
        .expect_err("CoreTime validation should fail for stale disputes");

    assert!(matches!(
        err,
        BlockchainError::CoreTimeValidationError { .. }
    ));
    assert_eq!(ledger.last_block_slot(), None, "a failed call records no slot");
}

#[test]
fn duplicate_allocation_is_rejected() {
    let mut ledger = CoreTimeLedger::default();

    // Two guarantees in one call sharing (slot, core_index).
    let g = br#"{"slot": 90, "report": {"core_index": 3, "results": [{"accumulate_gas": 5}]}}"#;
    let guarantees = vec![g.to_vec(), g.to_vec()];

    let err = ledger
        .validate_and_apply(95, &guarantees, &Vec::new(), &None)
        .expect_err("the second claim of the same (slot, core) pair is a duplicate");
    assert!(matches!(
        err,
        BlockchainError::CoreTimeValidationError { .. }
    ));
    assert_eq!(ledger.total_allocated(), 0);
}

#[test]
fn lookback_boundary_is_exact() {
    let g = br#"{"slot": 90, "report": {"core_index": 0, "results": [{"accumulate_gas": 1}]}}"#;

    let mut at_limit = CoreTimeLedger::default();
    at_limit
        .validate_and_apply(90 + MAX_GUARANTEE_LOOKBACK, &vec![g.to_vec()], &Vec::new(), &None)
        .expect("a guarantee exactly at the lookback limit is accepted");
    assert_eq!(at_limit.total_allocated(), 1);

    let mut past_limit = CoreTimeLedger::default();
    let err = past_limit
        .validate_and_apply(
            90 + MAX_GUARANTEE_LOOKBACK + 1,
            &vec![g.to_vec()],
            &Vec::new(),
            &None,
        )
        .expect_err("one slot past the lookback limit is rejected");
    assert!(matches!(
        err,
        BlockchainError::CoreTimeValidationError { .. }
    ));
}

#[test]
fn future_guarantee_is_rejected() {
    let mut ledger = CoreTimeLedger::default();
    let g = br#"{"slot": 91, "report": {"core_index": 0, "results": []}}"#;
    let err = ledger
        .validate_and_apply(90, &vec![g.to_vec()], &Vec::new(), &None)
        .expect_err("a guarantee referencing a future slot is rejected");
    assert!(matches!(
        err,
        BlockchainError::CoreTimeValidationError { .. }
    ));
}

#[test]
fn malformed_guarantee_is_rejected() {
    let mut ledger = CoreTimeLedger::default();
    let guarantees = vec![b"{ not json }".to_vec()];
    let err = ledger
        .validate_and_apply(10, &guarantees, &Vec::new(), &None)
        .expect_err("unparseable guarantee bytes are rejected");
    assert!(matches!(
        err,
        BlockchainError::CoreTimeValidationError { .. }
    ));

    let mut ledger2 = CoreTimeLedger::default();
    let guarantees2 = vec![br#"{"report": {"core_index": 0}}"#.to_vec()];
    let err2 = ledger2
        .validate_and_apply(10, &guarantees2, &Vec::new(), &None)
        .expect_err("a guarantee without a slot is rejected");
    assert!(matches!(
        err2,
        BlockchainError::CoreTimeValidationError { .. }
    ));
}

#[test]
fn blank_bitfield_is_rejected() {
    let mut ledger = CoreTimeLedger::default();
    let assurances = vec![br#"{"bitfield": "  ", "validator_index": 0}"#.to_vec()];
    let err = ledger
        .validate_and_apply(10, &Vec::new(), &assurances, &None)
        .expect_err("a blank bitfield is rejected");
    assert!(matches!(
        err,
        BlockchainError::CoreTimeValidationError { .. }
    ));
}

#[test]
fn unicode_blank_bitfield_is_rejected() {
    // A bitfield of a no-break space and an ideographic space: whitespace
    // only, so it counts as empty.
    let mut ledger = CoreTimeLedger::default();
    let assurances = vec![br#"{"bitfield": "\u00a0\u3000", "validator_index": 0}"#.to_vec()];
    let err = ledger
        .validate_and_apply(10, &Vec::new(), &assurances, &None)
        .expect_err("a bitfield of only unicode whitespace is rejected");
    assert!(matches!(
        err,
        BlockchainError::CoreTimeValidationError { .. }
    ));

    // Whitespace around a real payload is not blank.
    let mut ledger2 = CoreTimeLedger::default();
    let assurances2 = vec![br#"{"bitfield": "  0x1 ", "validator_index": 0}"#.to_vec()];
    ledger2
        .validate_and_apply(10, &Vec::new(), &assurances2, &None)
        .expect("a padded but non-blank bitfield is accepted");
}

#[test]
fn duplicate_validator_is_rejected() {
    let mut ledger = CoreTimeLedger::default();
    let a = br#"{"bitfield": "0x1", "validator_index": 7}"#;
    let assurances = vec![a.to_vec(), a.to_vec()];
    let err = ledger
        .validate_and_apply(10, &Vec::new(), &assurances, &None)
        .expect_err("two assurances naming the same validator are rejected");
    assert!(matches!(
        err,
        BlockchainError::CoreTimeValidationError { .. }
    ));
}

#[test]
fn too_many_assurances_are_rejected() {
    let mut ledger = CoreTimeLedger::default();
    let mut assurances: Vec<Vec<u8>> = Vec::new();
    for i in 0..(MAX_ASSURANCES_PER_BLOCK + 1) {
        assurances.push(
            format!(r#"{{"bitfield": "0x1", "validator_index": {}}}"#, i).into_bytes(),
        );
    }
    let err = ledger
        .validate_and_apply(10, &Vec::new(), &assurances, &None)
        .expect_err("more assurances than a block may carry are rejected");
    assert!(matches!(
        err,
        BlockchainError::CoreTimeValidationError { .. }
    ));
}

#[test]
fn verdict_without_votes_is_rejected() {
    let mut ledger = CoreTimeLedger::default();
    let disputes = Some(
        br#"{"verdicts": [{"target": "0xaa", "age": 1, "votes": []}]}"#.to_vec(),
    );
    let err = ledger
        .validate_and_apply(10, &Vec::new(), &Vec::new(), &disputes)
        .expect_err("a verdict without votes is rejected");
    assert!(matches!(
        err,
        BlockchainError::CoreTimeValidationError { .. }
    ));
}

#[test]
fn null_disputes_payload_is_no_disputes() {
    let mut ledger = CoreTimeLedger::default();
    ledger
        .validate_and_apply(10, &Vec::new(), &Vec::new(), &Some(b"null".to_vec()))
        .expect("a null disputes value carries no verdicts");
    assert_eq!(ledger.last_block_slot(), Some(10));
    assert_eq!(ledger.total_allocated(), 0);
}

#[test]
fn empty_payloads_only_record_the_slot() {
    let mut ledger = CoreTimeLedger::default();
    ledger
        .validate_and_apply(77, &Vec::new(), &Vec::new(), &None)
        .expect("a block without workload reports is legitimate");
    assert_eq!(ledger.last_block_slot(), Some(77));
    assert_eq!(ledger.total_allocated(), 0);
    assert_eq!(ledger.total_consumed(), 0);
}

#[test]
fn block_budget_is_enforced_across_cores() {
    let mut ledger = CoreTimeLedger::default();
    // Five cores at 1024 each: each core is within its cap, but the block
    // total (5120) exceeds the per-block cap of 4096.
    let mut guarantees: Vec<Vec<u8>> = Vec::new();
    for core in 0..5 {
        guarantees.push(
            format!(
                r#"{{"slot": 90, "report": {{"core_index": {}, "results": [{{"accumulate_gas": {}}}]}}}}"#,
                core, MAX_CORETIME_PER_CORE
            )
            .into_bytes(),
        );
    }
    let err = ledger
        .validate_and_apply(95, &guarantees, &Vec::new(), &None)
        .expect_err("the block-wide budget is enforced");
    assert!(matches!(err, BlockchainError::CoreTimeBalanceError));
    assert_eq!(ledger.total_allocated(), 0);
}

#[test]
fn ledger_accumulates_across_blocks() {
    let mut ledger = CoreTimeLedger::default();
    let g1 = br#"{"slot": 10, "report": {"core_index": 2, "results": [{"accumulate_gas": 7}]}}"#;
    let g2 = br#"{"slot": 11, "report": {"core_index": 2, "results": [{"accumulate_gas": 5}]}}"#;
    ledger
        .validate_and_apply(10, &vec![g1.to_vec()], &Vec::new(), &None)
        .expect("first block");
    ledger
        .validate_and_apply(11, &vec![g2.to_vec()], &Vec::new(), &None)
        .expect("second block");
    assert_eq!(ledger.total_allocated(), 12);
    assert_eq!(ledger.per_core_consumed(2), Some(12));
    assert_eq!(ledger.per_core_consumed(3), None);
    assert_eq!(ledger.last_block_slot(), Some(11));
}
