//! A reduced state projection that tracks only the last processed slot and a
//! preimage counter, with a minimum-slot rule for the first active block.

use vstd::prelude::*;
use crate::schema::{Block, BlockchainError};

verus! {

/// The lowest slot at which the first active block may appear.
const FIRST_ACTIVE_SLOT: u64 = 43;

/// A reduced chain-state projection: the last processed slot and a counter
/// of processed preimages.
#[derive(Debug)]
pub struct State {
    last_slot: u64,
    counter: u64,
}

impl Default for State {
    /// The same as a fresh state.
    fn default() -> (r: Self)
        ensures
            r.spec_last_slot() == 0,
            r.spec_counter() == 0,
    {
        State::new()
    }
}

impl State {
    /// The last processed slot.
    pub closed spec fn spec_last_slot(&self) -> u64 {
        self.last_slot
    }

    /// The running preimage counter.
    pub closed spec fn spec_counter(&self) -> u64 {
        self.counter
    }

    /// A fresh state with slot and counter at zero.
    pub fn new() -> (r: Self)
        ensures
            r.spec_last_slot() == 0,
            r.spec_counter() == 0,
    {
        State { last_slot: 0, counter: 0 }
    }

    /// The last processed slot.
    pub fn get_last_slot(&self) -> (r: u64)
        ensures
            r == self.spec_last_slot(),
    {
        self.last_slot
    }

    /// The running preimage counter.
    pub fn get_counter(&self) -> (r: u64)
        ensures
            r == self.spec_counter(),
    {
        self.counter
    }

    /// Apply a block: the slot must either strictly increase the last
    /// processed slot or, for the first active block, reach the minimum
    /// starting slot; the counter grows by the block's preimage count.
    pub fn apply_block(&mut self, block: &Block) -> (r: Result<(), BlockchainError>)
        requires
            old(self).spec_counter() + block.extrinsic.preimages@.len() <= u64::MAX,
        ensures
            r is Ok <==> {
                let current = block.header.slot as u64;
                if old(self).spec_last_slot() > 0 {
                    current > old(self).spec_last_slot()
                } else {
                    current >= 43
                }
            },
            match r {
                Ok(_) => {
                    &&& final(self).spec_last_slot() == block.header.slot as u64
                    &&& final(self).spec_counter() == old(self).spec_counter()
                        + block.extrinsic.preimages@.len()
                },
                Err(e) => {
                    &&& *final(self) == *old(self)
                    &&& e == (BlockchainError::InvalidSlot {
                        last_slot: old(self).spec_last_slot(),
                        current_slot: block.header.slot as u64,
                    })
                },
            },
    {
        let current_slot = block.header.slot as u64;
        if self.last_slot > 0 {
            if current_slot <= self.last_slot {
                return Err(BlockchainError::InvalidSlot {
                    last_slot: self.last_slot,
                    current_slot,
                });
            }
        } else if current_slot < FIRST_ACTIVE_SLOT {
            return Err(BlockchainError::InvalidSlot { last_slot: 0, current_slot });
        }

        self.last_slot = current_slot;

        let preimage_count = block.extrinsic.preimages.len() as u64;
        if preimage_count > 0 {
            self.counter = self.counter + preimage_count;
        }

        Ok(())
    }

    /// The state is consistent when the counter has kept up with the last
    /// processed slot.
    pub fn validate_state_consistency(&self) -> (r: Result<(), BlockchainError>)
        ensures
            r is Ok <==> self.spec_counter() >= self.spec_last_slot(),
            r matches Err(e) ==> e == BlockchainError::StateTransitionError,
    {
        if self.counter < self.last_slot {
            return Err(BlockchainError::StateTransitionError);
        }
        Ok(())
    }
}

} // verus!
