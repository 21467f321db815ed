use jamliquor::schema::{
    Block, BlockchainError, Extrinsic, Header, OpaqueHash, Preimage, TicketBody, TicketEnvelope,
};
use jamliquor::schema::EpochMark;
use jamliquor::state::State;
use jamliquor::Importer;

/// A minimal valid block for testing, with a correct extrinsic-hash
/// commitment.
fn create_test_block() -> Block {
    let zero_hash = OpaqueHash::new([0u8; 32]);

    let mut entropy_source: Vec<u8> = Vec::with_capacity(96);
    entropy_source.extend_from_slice(&[0u8; 32]); // current entropy
    entropy_source.extend_from_slice(&[1u8; 32]); // next entropy
    entropy_source.extend_from_slice(&[2u8; 32]); // final entropy

    let mut block = Block {
        header: Header {
            parent: zero_hash,
            slot: 1,
            parent_state_root: zero_hash,
            extrinsic_hash: zero_hash,
            author_index: 0,
            entropy_source,
            seal: vec![0u8; 32],
            epoch_mark: None,
            tickets_mark: None,
            offenders_mark: Vec::new(),
        },
        extrinsic: Extrinsic {
            tickets: Vec::new(),
            preimages: Vec::new(),
            guarantees: Vec::new(),
            assurances: Vec::new(),
            disputes: None,
        },
    };

    let extrinsic_hash = block
        .extrinsic
        .compute_hash()
        .expect("failed to compute extrinsic hash for test block");
    block.header.extrinsic_hash = OpaqueHash::new(extrinsic_hash);

    block
}

#[test]
fn test_importer_initialization() {
    let importer = Importer::new();
    assert_eq!(importer.state().get_last_slot(), 0);
    assert_eq!(importer.coretime().total_allocated(), 0);
}

#[test]
fn test_set_initial_state() {
    let mut importer = Importer::new();
    let test_hash = [0u8; 32];
    let test_root = [1u8; 32];

    importer.set_initial_state(test_hash, test_root);
    // A block whose parent disagrees with the seeded fingerprint is rejected.
    let mut block = create_test_block();
    block.header.parent = OpaqueHash::new([9u8; 32]);
    let result = importer.import(&block);
    assert!(matches!(
        result,
        Err(BlockchainError::ParentHashMismatch { .. })
    ));
}

#[test]
fn test_empty_block_validation() {
    let mut importer = Importer::new();
    let block = create_test_block();

    importer.import(&block).expect("a minimal valid block imports");
}

#[test]
fn test_invalid_slot() {
    let mut importer = Importer::new();
    let mut block = create_test_block();

    // Set slot to 0 (invalid)
    block.header.slot = 0;

    let result = importer.import(&block);
    assert!(matches!(result, Err(BlockchainError::InvalidSlot { .. })));
    assert_eq!(
        importer.state().get_last_slot(),
        0,
        "a rejected block leaves the state unchanged"
    );
}

#[test]
fn test_ticket_validation() {
    let mut importer = Importer::new();
    let mut block = create_test_block();

    // Add a ticket with invalid signature (empty)
    block.extrinsic.tickets.push(TicketEnvelope {
        attempt: 1,
        signature: Vec::new(),
    });

    // Add matching ticket mark
    block.header.tickets_mark = Some(vec![TicketBody {
        id: OpaqueHash::new([0u8; 32]),
        attempt: 1,
    }]);

    let result = importer.import(&block);
    assert!(matches!(
        result,
        Err(BlockchainError::TicketValidationError { .. })
    ));
}

#[test]
fn test_preimage_validation() {
    let mut importer = Importer::new();
    let mut block = create_test_block();

    // Add invalid preimage with empty blob
    block.extrinsic.preimages.push(Preimage {
        requester: 1,
        blob: Vec::new(),
    });

    let result = importer.import(&block);
    assert!(matches!(
        result,
        Err(BlockchainError::InvalidPreimage { .. })
    ));

    // Test invalid requester ID 0
    block.extrinsic.preimages[0].requester = 0;
    block.extrinsic.preimages[0].blob = vec![1, 2, 3];

    let result = importer.import(&block);
    assert!(matches!(
        result,
        Err(BlockchainError::InvalidPreimage { .. })
    ));
}

#[test]
fn test_ticket_count_mismatch() {
    let mut importer = Importer::new();
    let mut block = create_test_block();

    // Add a ticket but no corresponding mark
    block.extrinsic.tickets.push(TicketEnvelope {
        attempt: 1,
        signature: vec![1; 64], // Valid signature length
    });

    let result = importer.import(&block);
    assert!(result.is_err(), "a ticket without a mark is rejected");

    // Add a mark that doesn't match the ticket count
    block.header.tickets_mark = Some(vec![TicketBody {
        id: OpaqueHash::new([0u8; 32]),
        attempt: 1,
    }]);
    block.extrinsic.tickets.push(TicketEnvelope {
        attempt: 1,
        signature: vec![1; 64],
    });

    let result = importer.import(&block);
    assert!(matches!(
        result,
        Err(BlockchainError::InvalidBlockStructure { .. })
    ));
}

#[test]
fn test_entropy_validation() {
    let mut importer = Importer::new();
    let mut block = create_test_block();

    // Set invalid entropy source (wrong size)
    block.header.entropy_source = vec![0u8; 31]; // Invalid size

    let result = importer.import(&block);
    assert!(matches!(result, Err(BlockchainError::InvalidEntropy { .. })));
}

#[test]
fn test_author_index_validation() {
    let mut importer = Importer::new();
    let mut block = create_test_block();

    // An epoch mark whose entropy matches the current chunk, but with no
    // validator seats: any author index is out of bounds.
    block.header.epoch_mark = Some(EpochMark {
        entropy: OpaqueHash::new([0u8; 32]),
        tickets_entropy: OpaqueHash::new([1u8; 32]),
        validators: vec![],
    });

    let result = importer.import(&block);
    assert!(matches!(
        result,
        Err(BlockchainError::InvalidAuthorIndex { .. })
    ));
}

#[test]
fn test_epoch_entropy_mismatch() {
    let mut importer = Importer::new();
    let mut block = create_test_block();

    // The current entropy chunk is all zeroes; the mark disagrees.
    block.header.epoch_mark = Some(EpochMark {
        entropy: OpaqueHash::new([9u8; 32]),
        tickets_entropy: OpaqueHash::new([1u8; 32]),
        validators: vec![OpaqueHash::new([2u8; 32])],
    });

    let result = importer.import(&block);
    assert!(matches!(result, Err(BlockchainError::InvalidEntropy { .. })));
}

#[test]
fn test_inclusion_proof_mismatch() {
    let mut importer = Importer::new();
    let mut block = create_test_block();

    // Corrupt the commitment.
    block.header.extrinsic_hash = OpaqueHash::new([0xABu8; 32]);

    let result = importer.import(&block);
    assert!(matches!(
        result,
        Err(BlockchainError::InvalidInclusionProof)
    ));
}

#[test]
fn test_parent_state_root_mismatch() {
    let mut importer = Importer::new();
    let block = create_test_block();
    importer.set_initial_state(*block.header.parent.as_bytes(), [7u8; 32]);

    let result = importer.import(&block);
    assert!(matches!(
        result,
        Err(BlockchainError::ParentStateRootMismatch { .. })
    ));
}

#[test]
fn test_block_import() {
    let mut importer = Importer::new();

    let mut block = Block {
        header: Header {
            parent: OpaqueHash::new([0u8; 32]),
            parent_state_root: OpaqueHash::new([1u8; 32]),
            extrinsic_hash: OpaqueHash::new([0u8; 32]),
            slot: 43,
            epoch_mark: None,
            tickets_mark: Some(vec![TicketBody {
                id: OpaqueHash::new([2u8; 32]),
                attempt: 1,
            }]),
            offenders_mark: vec![OpaqueHash::new([3u8; 32])],
            author_index: 0,
            entropy_source: vec![4u8; 96],
            seal: vec![5u8; 32],
        },
        extrinsic: Extrinsic {
            tickets: vec![TicketEnvelope {
                attempt: 1,
                signature: vec![6u8; 64],
            }],
            preimages: vec![Preimage {
                requester: 1,
                blob: vec![1u8, 2, 3, 4],
            }],
            guarantees: Vec::new(),
            assurances: Vec::new(),
            disputes: None,
        },
    };

    let extrinsic_hash = block
        .extrinsic
        .compute_hash()
        .expect("failed to compute extrinsic hash");
    block.header.extrinsic_hash = OpaqueHash::new(extrinsic_hash);

    importer.set_initial_state(
        *block.header.parent.as_bytes(),
        *block.header.parent_state_root.as_bytes(),
    );

    importer.import(&block).expect("block import should succeed");

    assert_eq!(
        importer.state().get_last_slot(),
        block.header.slot as u64,
        "Last slot should update after import"
    );

    let (total_tickets, valid_tickets, invalid_tickets) = importer.state().get_ticket_stats();
    assert_eq!(total_tickets, 1, "Should track one ticket");
    assert_eq!(valid_tickets, 1, "Ticket should be valid");
    assert_eq!(invalid_tickets, 0, "No invalid tickets expected");

    assert_eq!(
        importer.state().get_counter(),
        valid_tickets + block.extrinsic.preimages.len() as u64,
        "State counter should equal valid tickets plus preimages"
    );
}

#[test]
fn test_block_import_from_vector() {
    let mut importer = Importer::new();

    let mut block = Block {
        header: Header {
            parent: OpaqueHash::new([
                0x5c, 0x74, 0x3d, 0xbc, 0x51, 0x42, 0x84, 0xb2, 0xea, 0x57, 0x79, 0x87, 0x87,
                0xc5, 0xa1, 0x55, 0xef, 0x9d, 0x7a, 0xc1, 0xe9, 0x49, 0x9e, 0xc6, 0x59, 0x10,
                0xa7, 0xa3, 0xd6, 0x58, 0x97, 0xb7,
            ]),
            parent_state_root: OpaqueHash::new([0x25; 32]),
            extrinsic_hash: OpaqueHash::new([0u8; 32]),
            slot: 42,
            epoch_mark: None,
            tickets_mark: Some(vec![TicketBody {
                id: OpaqueHash::new([3u8; 32]),
                attempt: 1,
            }]),
            offenders_mark: vec![OpaqueHash::new([4u8; 32])],
            author_index: 0,
            entropy_source: vec![5u8; 96],
            seal: vec![6u8; 32],
        },
        extrinsic: Extrinsic {
            tickets: vec![TicketEnvelope {
                attempt: 1,
                signature: vec![7u8; 64],
            }],
            preimages: vec![Preimage {
                requester: 1,
                blob: vec![8u8; 16],
            }],
            guarantees: Vec::new(),
            assurances: Vec::new(),
            disputes: None,
        },
    };

    let extrinsic_hash = block
        .extrinsic
        .compute_hash()
        .expect("failed to compute extrinsic hash");
    block.header.extrinsic_hash = OpaqueHash::new(extrinsic_hash);

    importer.import(&block).expect("block import should succeed");

    assert_eq!(
        block.header.parent.as_bytes(),
        &[
            0x5c, 0x74, 0x3d, 0xbc, 0x51, 0x42, 0x84, 0xb2, 0xea, 0x57, 0x79, 0x87, 0x87, 0xc5,
            0xa1, 0x55, 0xef, 0x9d, 0x7a, 0xc1, 0xe9, 0x49, 0x9e, 0xc6, 0x59, 0x10, 0xa7, 0xa3,
            0xd6, 0x58, 0x97, 0xb7,
        ],
        "Block parent hash should match vector"
    );
    assert_eq!(block.header.slot, 42, "Block slot should match vector");
}

#[test]
fn test_state_transition() {

    let mut state = State::new();
    let mut importer = Importer::new();

    let mut block = create_test_block();
    block.header.slot = 42;
    let extrinsic_hash = block
        .extrinsic
        .compute_hash()
        .expect("failed to compute extrinsic hash");
    block.header.extrinsic_hash = OpaqueHash::new(extrinsic_hash);
    importer.import(&block).expect("block import should succeed");

    // Modify block to have a valid slot for the reduced state.
    block.header.slot = 43;

    state.apply_block(&block).expect("state apply should succeed");

    assert_eq!(
        state.get_last_slot(),
        43,
        "State last slot should be updated"
    );
}

#[test]
fn prop_block_import_sanity() {
    let mut importer = Importer::new();
    let mut block = create_test_block();
    block.header.slot = 42;
    let extrinsic_hash = block
        .extrinsic
        .compute_hash()
        .expect("failed to compute extrinsic hash");
    block.header.extrinsic_hash = OpaqueHash::new(extrinsic_hash);

    let result = importer.import(&block);
    assert!(result.is_ok(), "Block import should succeed");
    assert_eq!(block.header.slot, 42, "Block should have slot 42");
}

#[test]
fn prop_state_transition_stability() {

    let mut state = State::new();
    let mut importer = Importer::new();

    let mut block = create_test_block();
    block.header.slot = 42;
    let extrinsic_hash = block
        .extrinsic
        .compute_hash()
        .expect("failed to compute extrinsic hash");
    block.header.extrinsic_hash = OpaqueHash::new(extrinsic_hash);
    importer.import(&block).expect("block import should succeed");

    // Modify block to have a valid slot for the reduced state.
    block.header.slot = 43;

    let result = state.apply_block(&block);
    assert!(result.is_ok(), "State transition should be stable");
}

#[test]
fn chained_imports_enforce_linkage() {
    let mut importer = Importer::new();
    let first = create_test_block();
    importer.import(&first).expect("first block imports");

    // The second block must name the first block's extrinsic hash as its
    // parent and the first block's parent state root as its own.
    let mut second = create_test_block();
    second.header.slot = 2;
    second.header.parent = first.header.extrinsic_hash;
    second.header.parent_state_root = first.header.parent_state_root;
    let h = second.extrinsic.compute_hash().expect("hash");
    second.header.extrinsic_hash = OpaqueHash::new(h);
    importer.import(&second).expect("a correctly linked block imports");

    // A third block with a wrong parent is rejected and the fingerprints
    // stay at the second block's values.
    let mut third = create_test_block();
    third.header.slot = 3;
    third.header.parent = OpaqueHash::new([0x55u8; 32]);
    third.header.parent_state_root = second.header.parent_state_root;
    let h3 = third.extrinsic.compute_hash().expect("hash");
    third.header.extrinsic_hash = OpaqueHash::new(h3);
    let result = importer.import(&third);
    assert!(matches!(
        result,
        Err(BlockchainError::ParentHashMismatch { .. })
    ));
    assert_eq!(importer.state().get_last_slot(), 2);
}

#[test]
fn stale_slot_keeps_state() {
    let mut importer = Importer::new();
    let mut first = create_test_block();
    first.header.slot = 10;
    let h = first.extrinsic.compute_hash().expect("hash");
    first.header.extrinsic_hash = OpaqueHash::new(h);
    importer.import(&first).expect("first block imports");

    let mut second = create_test_block();
    second.header.slot = 10;
    second.header.parent = first.header.extrinsic_hash;
    second.header.parent_state_root = first.header.parent_state_root;
    let h2 = second.extrinsic.compute_hash().expect("hash");
    second.header.extrinsic_hash = OpaqueHash::new(h2);

    let result = importer.import(&second);
    assert!(matches!(result, Err(BlockchainError::InvalidSlot { .. })));
    assert_eq!(
        importer.state().get_last_slot(),
        10,
        "the last slot stays at the first block's slot"
    );
}

#[test]
fn coretime_failure_leaves_importer_unchanged() {
    let mut importer = Importer::new();
    let mut block = create_test_block();
    block.extrinsic.guarantees.push(
        br#"{"slot": 90, "report": {"core_index": 0, "results": []}}"#.to_vec(),
    );
    block.header.slot = 5; // guarantee slot 90 lies in the future of block slot 5
    let h = block.extrinsic.compute_hash().expect("hash");
    block.header.extrinsic_hash = OpaqueHash::new(h);

    let result = importer.import(&block);
    assert!(matches!(
        result,
        Err(BlockchainError::CoreTimeValidationError { .. })
    ));
    assert_eq!(importer.coretime().total_allocated(), 0);
    assert_eq!(importer.coretime().last_block_slot(), None);
    assert_eq!(importer.state().get_last_slot(), 0);
}

#[test]
fn import_applies_coretime_guarantees() {
    let mut importer = Importer::new();
    let mut block = create_test_block();
    block.header.slot = 98;
    block.extrinsic.guarantees.push(
        br#"{"slot": 90, "report": {"core_index": 3, "auth_gas_used": 10, "results": [{"accumulate_gas": 20, "service_id": 0}]}}"#
            .to_vec(),
    );
    let h = block.extrinsic.compute_hash().expect("hash");
    block.header.extrinsic_hash = OpaqueHash::new(h);

    importer.import(&block).expect("block with a valid guarantee imports");
    assert_eq!(importer.coretime().total_allocated(), 30);
    assert_eq!(importer.coretime().per_core_consumed(3), Some(30));
    assert_eq!(importer.coretime().last_block_slot(), Some(98));
}
