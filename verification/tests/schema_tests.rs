use jamliquor::schema::{Block, BlockchainError, EntropySource, EpochMark, Extrinsic, Header,
    OpaqueHash, Preimage, State, TicketBody, TicketEnvelope, TicketState};

#[test]
fn test_entropy_source_validation() {
    // Create a valid entropy source (96 bytes)
    let mut entropy_bytes: Vec<u8> = Vec::with_capacity(96);
    entropy_bytes.extend_from_slice(&[1u8; 32]); // current entropy
    entropy_bytes.extend_from_slice(&[2u8; 32]); // next entropy
    entropy_bytes.extend_from_slice(&[3u8; 32]); // final entropy

    // Test valid entropy source
    let entropy_source = EntropySource::from_bytes(&entropy_bytes).expect("valid entropy source");
    assert_eq!(entropy_source.get_current_entropy(), &[1u8; 32]);
    assert_eq!(entropy_source.get_next_entropy(), &[2u8; 32]);
    assert_eq!(entropy_source.get_final_entropy(), &[3u8; 32]);

    // Test invalid size
    let invalid_bytes = vec![0u8; 64];
    assert!(EntropySource::from_bytes(&invalid_bytes).is_err());

    // Test epoch mark validation
    let epoch_mark = EpochMark {
        entropy: OpaqueHash::new([1u8; 32]),
        tickets_entropy: OpaqueHash::new([2u8; 32]),
        validators: vec![],
    };
    assert!(entropy_source.validate_with_epoch_mark(&epoch_mark).is_ok());

    // Test epoch mark mismatch
    let invalid_epoch_mark = EpochMark {
        entropy: OpaqueHash::new([4u8; 32]),
        tickets_entropy: OpaqueHash::new([5u8; 32]),
        validators: vec![],
    };
    assert!(entropy_source
        .validate_with_epoch_mark(&invalid_epoch_mark)
        .is_err());
}

#[test]
fn test_ticket_envelope_signature_length() {
    let good = TicketEnvelope {
        attempt: 1,
        signature: vec![7u8; 64],
    };
    assert!(good.validate().is_ok());

    let bad = TicketEnvelope {
        attempt: 1,
        signature: vec![7u8; 63],
    };
    assert!(matches!(
        bad.validate(),
        Err(BlockchainError::TicketValidationError { .. })
    ));
}

#[test]
fn test_ticket_state_reconciliation() {
    let mut ts = TicketState::new();
    let tickets = vec![
        TicketEnvelope {
            attempt: 1,
            signature: vec![1u8; 64],
        },
        TicketEnvelope {
            attempt: 2,
            signature: vec![2u8; 64],
        },
        TicketEnvelope {
            attempt: 3,
            signature: vec![3u8; 10],
        },
    ];
    let marks = vec![
        TicketBody {
            id: OpaqueHash::new([1u8; 32]),
            attempt: 1,
        },
        TicketBody {
            id: OpaqueHash::new([2u8; 32]),
            attempt: 9,
        },
        TicketBody {
            id: OpaqueHash::new([3u8; 32]),
            attempt: 3,
        },
    ];
    ts.apply_tickets(&tickets, &marks).expect("counts match");
    let (total, valid, invalid) = ts.get_stats();
    assert_eq!(total, 3);
    assert_eq!(valid, 1, "one envelope agrees with its mark and has a 64-byte signature");
    assert_eq!(invalid, 2, "one attempt mismatch and one short signature");
    assert_eq!(
        ts.last_ticket_id.map(|h| *h.as_bytes()),
        Some([1u8; 32]),
        "the last valid ticket's mark id is recorded"
    );
}

#[test]
fn test_ticket_state_count_mismatch() {
    let mut ts = TicketState::new();
    let tickets = vec![TicketEnvelope {
        attempt: 1,
        signature: vec![1u8; 64],
    }];
    let marks: Vec<TicketBody> = vec![];
    assert!(ts.apply_tickets(&tickets, &marks).is_err());
    let (total, valid, invalid) = ts.get_stats();
    assert_eq!((total, valid, invalid), (0, 0, 0), "a failed batch changes nothing");
}

fn block_with(slot: u32, preimages: Vec<Preimage>, tickets_mark: Option<Vec<TicketBody>>) -> Block {
    Block {
        header: Header {
            parent: OpaqueHash::new([0u8; 32]),
            parent_state_root: OpaqueHash::new([1u8; 32]),
            extrinsic_hash: OpaqueHash::new([2u8; 32]),
            slot,
            epoch_mark: None,
            tickets_mark,
            offenders_mark: vec![],
            author_index: 0,
            entropy_source: vec![0u8; 96],
            seal: vec![],
        },
        extrinsic: Extrinsic {
            tickets: vec![],
            preimages,
            guarantees: vec![],
            assurances: vec![],
            disputes: None,
        },
    }
}

#[test]
fn chain_state_counter_accumulates() {
    let mut state = State::new();
    let first = block_with(
        1,
        vec![Preimage {
            requester: 1,
            blob: vec![1, 2, 3],
        }],
        None,
    );
    state.apply_block(&first).expect("first block applies");
    assert_eq!(state.get_counter(), 1);

    // A later block with no preimages does not lose what was observed.
    let second = block_with(2, vec![], None);
    state.apply_block(&second).expect("second block applies");
    assert_eq!(state.get_counter(), 1, "the counter never decreases");
    assert_eq!(state.get_last_slot(), 2);
}

#[test]
fn chain_state_failed_apply_changes_nothing() {
    let mut state = State::new();
    let first = block_with(
        5,
        vec![Preimage {
            requester: 1,
            blob: vec![9],
        }],
        None,
    );
    state.apply_block(&first).expect("first block applies");

    // A block whose mark commits to one ticket but carries none is a hard
    // error, and the state keeps every field.
    let bad = block_with(
        6,
        vec![],
        Some(vec![TicketBody {
            id: OpaqueHash::new([3u8; 32]),
            attempt: 1,
        }]),
    );
    assert!(state.apply_block(&bad).is_err());
    assert_eq!(state.get_last_slot(), 5, "the failing slot is not recorded");
    assert_eq!(state.get_counter(), 1);
    assert_eq!(state.get_ticket_stats(), (0, 0, 0));
}
