use jamliquor::schema::{Block, Extrinsic, Header, OpaqueHash};
use jamliquor::state::State;

fn make_block(slot: u32) -> Block {
    Block {
        header: Header {
            parent: OpaqueHash::new([0u8; 32]),
            slot,
            extrinsic_hash: OpaqueHash::new([1u8; 32]),
            parent_state_root: OpaqueHash::new([2u8; 32]),
            epoch_mark: None,
            tickets_mark: None,
            offenders_mark: vec![],
            author_index: 0,
            entropy_source: vec![],
            seal: vec![],
        },
        extrinsic: Extrinsic {
            tickets: vec![],
            preimages: vec![],
            guarantees: vec![],
            assurances: vec![],
            disputes: None,
        },
    }
}

#[test]
fn test_state_initialization() {
    let state = State::new();
    assert_eq!(
        state.get_last_slot(),
        0,
        "New state should start with slot 0"
    );
}

#[test]
fn test_apply_block_updates_last_slot() {
    let mut state = State::new();
    let block = make_block(43);

    let result = state.apply_block(&block);
    assert!(result.is_ok(), "Block application should succeed");
    assert_eq!(state.get_last_slot(), 43, "Last slot should be updated");
}

#[test]
fn test_apply_block_invalid_slot() {
    let mut state = State::new();
    let block = make_block(41); // Below the first active slot

    let result = state.apply_block(&block);
    assert!(result.is_err(), "Block with invalid slot should fail");
}

#[test]
fn test_state_reset() {
    let mut state = State::new();
    let block = make_block(43);

    state
        .apply_block(&block)
        .expect("Block application should succeed");

    state = State::new();

    assert_eq!(
        state.get_last_slot(),
        0,
        "State should reset to initial state"
    );
}

#[test]
fn test_apply_block_rejects_regression() {
    let mut state = State::new();
    state.apply_block(&make_block(50)).expect("first block");
    let result = state.apply_block(&make_block(50));
    assert!(
        matches!(
            result,
            Err(jamliquor::schema::BlockchainError::InvalidSlot { .. })
        ),
        "a slot that does not advance is rejected"
    );
    assert_eq!(state.get_last_slot(), 50, "the last slot is kept");
}

#[test]
fn test_state_consistency() {
    let mut state = State::new();
    let mut block = make_block(43);
    // Fewer preimages than the slot number: counter lags behind.
    block.extrinsic.preimages.push(jamliquor::schema::Preimage {
        requester: 1,
        blob: vec![1, 2, 3],
    });
    state.apply_block(&block).expect("valid block");
    assert_eq!(state.get_counter(), 1);
    assert!(state.validate_state_consistency().is_err());
}
