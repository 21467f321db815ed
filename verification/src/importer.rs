//! The block importer: sequences structural, header and extrinsic
//! validation, delegates the CoreTime payloads to the ledger, and applies
//! the state transition — strictly validate-then-apply, so a rejected block
//! leaves the importer bit-for-bit unchanged.

use vstd::prelude::*;
use crate::codec::{blake2b256_of, enc_extrinsic_spec, extrinsic_encodable};
use crate::coretime::{coretime_step, CoreTimeAssurance, CoreTimeDisputes, CoreTimeFault,
    CoreTimeGuarantee, CoreTimeLedger, LedgerView};
use crate::schema::{eq32, header_entropy_error, apply_block_spec, Block, BlockchainError,
    Extrinsic, Header, OpaqueHash, PreimageFault, State, TicketBody, TicketEnvelope, TicketFault};

verus! {

/// The importer as a mathematical value: the chain state, the two linkage
/// fingerprints, and the CoreTime ledger.
pub struct ImporterView {
    pub state: State,
    pub last_block_hash: Option<OpaqueHash>,
    pub last_state_root: Option<OpaqueHash>,
    pub coretime: LedgerView,
}

/// How many tickets the header's mark commits to; zero when absent.
pub open spec fn marks_len(h: Header) -> int {
    match h.tickets_mark {
        Some(tm) => tm@.len() as int,
        None => 0,
    }
}

/// The first structural defect of a block, if any: a zero slot, a ticket
/// count that differs from the header's mark, or a preimage with an empty
/// blob.
pub open spec fn structure_error(b: Block) -> Option<BlockchainError> {
    if b.header.slot == 0 {
        Some(BlockchainError::InvalidSlot { last_slot: 0, current_slot: 0 })
    } else if b.extrinsic.tickets@.len() != marks_len(b.header) {
        Some(
            BlockchainError::InvalidBlockStructure {
                marked_tickets: marks_len(b.header) as u64,
                found_tickets: b.extrinsic.tickets@.len() as u64,
            },
        )
    } else if exists|i: int|
        0 <= i < b.extrinsic.preimages@.len() && (#[trigger] b.extrinsic.preimages@[i]).blob@.len()
            == 0 {
        Some(BlockchainError::InvalidPreimage { fault: PreimageFault::EmptyBlob })
    } else {
        None
    }
}

/// A parent-hash fingerprint violation, when a fingerprint is set.
pub open spec fn parent_error(iv: ImporterView, h: Header) -> Option<BlockchainError> {
    match iv.last_block_hash {
        Some(lh) => if h.parent@ != lh@ {
            Some(BlockchainError::ParentHashMismatch { expected: lh, actual: h.parent })
        } else {
            None
        },
        None => None,
    }
}

/// A parent-state-root fingerprint violation, when a fingerprint is set.
pub open spec fn root_error(iv: ImporterView, h: Header) -> Option<BlockchainError> {
    match iv.last_state_root {
        Some(lr) => if h.parent_state_root@ != lr@ {
            Some(BlockchainError::ParentStateRootMismatch { expected: lr, actual: h.parent_state_root })
        } else {
            None
        },
        None => None,
    }
}

/// An author index that does not index into the epoch mark's validators.
pub open spec fn author_error(h: Header) -> Option<BlockchainError> {
    match h.epoch_mark {
        Some(em) => if h.author_index as int >= em.validators@.len() {
            Some(
                BlockchainError::InvalidAuthorIndex {
                    author_index: h.author_index as u64,
                    max_validators: em.validators@.len() as u64,
                },
            )
        } else {
            None
        },
        None => None,
    }
}

/// The first header defect, if any: a slot that does not advance the chain,
/// a fingerprint mismatch, a bad entropy payload, or a bad author index.
pub open spec fn header_error(iv: ImporterView, h: Header) -> Option<BlockchainError> {
    if h.slot as u64 <= iv.state.last_slot {
        Some(
            BlockchainError::InvalidSlot {
                last_slot: iv.state.last_slot,
                current_slot: h.slot as u64,
            },
        )
    } else if parent_error(iv, h) is Some {
        parent_error(iv, h)
    } else if root_error(iv, h) is Some {
        root_error(iv, h)
    } else if header_entropy_error(h) is Some {
        header_entropy_error(h)
    } else {
        author_error(h)
    }
}

/// The first defective (envelope, mark) pair, walked in order: an attempt
/// mismatch, or a signature that is not 64 bytes.
pub open spec fn ticket_fault(ts: Seq<TicketEnvelope>, ms: Seq<TicketBody>) -> Option<TicketFault>
    decreases ts.len(),
{
    if ts.len() == 0 || ms.len() == 0 {
        None
    } else {
        let t = ts.first();
        let m = ms.first();
        if t.attempt != m.attempt {
            Some(TicketFault::AttemptMismatch { expected: m.attempt, got: t.attempt })
        } else if t.signature@.len() != 64 {
            Some(TicketFault::BadSignatureLength { got: t.signature@.len() as u64 })
        } else {
            ticket_fault(ts.drop_first(), ms.drop_first())
        }
    }
}

/// A preimage with a zero requester, or a broken extrinsic-hash commitment.
pub open spec fn preimage_hash_error(h: Header, e: Extrinsic) -> Option<BlockchainError> {
    if exists|i: int|
        0 <= i < e.preimages@.len() && (#[trigger] e.preimages@[i]).requester == 0 {
        Some(BlockchainError::InvalidPreimage { fault: PreimageFault::ZeroRequester })
    } else if !extrinsic_encodable(e) {
        Some(BlockchainError::InvalidInclusionProof)
    } else if h.extrinsic_hash@ != blake2b256_of(enc_extrinsic_spec(e)) {
        Some(BlockchainError::InvalidInclusionProof)
    } else {
        None
    }
}

/// The first extrinsic defect, if any: tickets that disagree with the
/// header's mark, a zero preimage requester, or a broken extrinsic-hash
/// commitment.
pub open spec fn extrinsic_error(h: Header, e: Extrinsic) -> Option<BlockchainError> {
    match h.tickets_mark {
        Some(tm) => if tm@.len() != e.tickets@.len() {
            Some(
                BlockchainError::TicketValidationError {
                    fault: TicketFault::CountMismatch {
                        expected: tm@.len() as u64,
                        got: e.tickets@.len() as u64,
                    },
                },
            )
        } else {
            match ticket_fault(e.tickets@, tm@) {
                Some(f) => Some(BlockchainError::TicketValidationError { fault: f }),
                None => preimage_hash_error(h, e),
            }
        },
        None => if e.tickets@.len() > 0 {
            Some(BlockchainError::TicketValidationError { fault: TicketFault::MissingMark })
        } else {
            preimage_hash_error(h, e)
        },
    }
}

/// The first defect the validation pipeline finds before the CoreTime
/// stage, in pipeline order: structure, then header, then extrinsic.
pub open spec fn import_error(iv: ImporterView, b: Block) -> Option<BlockchainError> {
    if structure_error(b) is Some {
        structure_error(b)
    } else if header_error(iv, b.header) is Some {
        header_error(iv, b.header)
    } else {
        extrinsic_error(b.header, b.extrinsic)
    }
}

/// A block whose header carries slot zero is rejected with the slot error,
/// whatever the importer's state; by `import`'s contract the importer — its
/// chain state included — is then left unchanged.
pub proof fn lemma_zero_slot_rejected(iv: ImporterView, b: Block)
    requires
        b.header.slot == 0,
    ensures
        import_error(iv, b) == Some(
            BlockchainError::InvalidSlot { last_slot: 0, current_slot: 0 },
        ),
{
}

/// A structurally sound block whose slot does not advance past the last
/// processed slot is rejected with the slot error; by `import`'s contract
/// the chain state then keeps its last slot.
pub proof fn lemma_stale_slot_rejected(iv: ImporterView, b: Block)
    requires
        structure_error(b) is None,
        b.header.slot as u64 <= iv.state.last_slot,
    ensures
        import_error(iv, b) == Some(
            BlockchainError::InvalidSlot {
                last_slot: iv.state.last_slot,
                current_slot: b.header.slot as u64,
            },
        ),
{
}

/// A structurally sound, slot-advancing block whose parent differs from the
/// fingerprint of the previously imported block is rejected with the
/// parent-hash error; by `import`'s contract the fingerprints are then left
/// unchanged.
pub proof fn lemma_parent_mismatch_rejected(iv: ImporterView, b: Block, lh: OpaqueHash)
    requires
        structure_error(b) is None,
        b.header.slot as u64 > iv.state.last_slot,
        iv.last_block_hash == Some(lh),
        b.header.parent@ != lh@,
    ensures
        import_error(iv, b) == Some(
            BlockchainError::ParentHashMismatch { expected: lh, actual: b.header.parent },
        ),
{
}

/// The block importer: owns the chain state, the CoreTime ledger, and the
/// linkage fingerprints of the last imported block.
#[derive(Debug)]
pub struct Importer {
    state: State,
    last_block_hash: Option<OpaqueHash>,
    last_state_root: Option<OpaqueHash>,
    coretime: CoreTimeLedger,
}

impl View for Importer {
    type V = ImporterView;

    closed spec fn view(&self) -> ImporterView {
        ImporterView {
            state: self.state,
            last_block_hash: self.last_block_hash,
            last_state_root: self.last_state_root,
            coretime: self.coretime@,
        }
    }
}

impl Importer {
    /// A fresh importer: zeroed state, no fingerprints, an empty ledger.
    pub fn new() -> (r: Self)
        ensures
            r@.state.last_slot == 0,
            r@.state.counter == 0,
            r@.state.ticket_state.total_tickets == 0,
            r@.state.ticket_state.valid_tickets == 0,
            r@.state.ticket_state.invalid_tickets == 0,
            r@.state.ticket_state.last_ticket_id is None,
            r@.last_block_hash is None,
            r@.last_state_root is None,
            r@.coretime.total_allocated == 0,
            r@.coretime.total_consumed == 0,
            r@.coretime.last_block_slot is None,
            r@.coretime.per_core == Map::<u16, crate::coretime::CoreUsage>::empty(),
    {
        Importer {
            state: State::new(),
            last_block_hash: None,
            last_state_root: None,
            coretime: CoreTimeLedger::default(),
        }
    }

    /// Seed the linkage fingerprints, as when resuming from a known block.
    pub fn set_initial_state(&mut self, last_hash: [u8; 32], last_root: [u8; 32])
        ensures
            final(self)@.state == old(self)@.state,
            final(self)@.coretime == old(self)@.coretime,
            final(self)@.last_block_hash matches Some(h) && h@ == last_hash@,
            final(self)@.last_state_root matches Some(rt) && rt@ == last_root@,
    {
        self.last_block_hash = Some(OpaqueHash::new(last_hash));
        self.last_state_root = Some(OpaqueHash::new(last_root));
    }

    /// The CoreTime ledger.
    pub fn coretime(&self) -> (r: &CoreTimeLedger)
        ensures
            r@ == self@.coretime,
    {
        &self.coretime
    }

    /// The chain state.
    pub fn state(&self) -> (r: &State)
        ensures
            *r == self@.state,
    {
        &self.state
    }

    /// Check that a block is structurally sound: a non-zero slot, as many
    /// tickets as the header's mark commits to, and no empty preimage blob.
    #[verifier::loop_isolation(false)]
    fn validate_block_structure(&self, block: &Block) -> (r: Result<(), BlockchainError>)
        ensures
            match r {
                Ok(_) => structure_error(*block) is None,
                Err(e) => structure_error(*block) == Some(e),
            },
    {
        if block.header.slot == 0 {
            return Err(BlockchainError::InvalidSlot { last_slot: 0, current_slot: 0 });
        }

        let marked: usize = match &block.header.tickets_mark {
            Some(tm) => tm.len(),
            None => 0,
        };
        if block.extrinsic.tickets.len() != marked {
            return Err(BlockchainError::InvalidBlockStructure {
                marked_tickets: marked as u64,
                found_tickets: block.extrinsic.tickets.len() as u64,
            });
        }

        let n = block.extrinsic.preimages.len();
        let mut i: usize = 0;
        while i < n
            invariant
                0 <= i <= n,
                n == block.extrinsic.preimages@.len(),
                forall|j: int| 0 <= j < i ==> (#[trigger] block.extrinsic.preimages@[j]).blob@.len()
                    != 0,
            decreases n - i,
        {
            if block.extrinsic.preimages[i].blob.len() == 0 {
                proof {
                    assert(block.extrinsic.preimages@[i as int].blob@.len() == 0);
                }
                return Err(BlockchainError::InvalidPreimage { fault: PreimageFault::EmptyBlob });
            }
            i += 1;
        }

        Ok(())
    }

    /// Check a header against the chain state and the fingerprints: the slot
    /// must advance, the parent links must match, the entropy payload must
    /// parse and agree with the epoch mark, and the author index must index
    /// into the epoch mark's validators.
    fn validate_header(&self, header: &Header) -> (r: Result<(), BlockchainError>)
        ensures
            match r {
                Ok(_) => header_error(self@, *header) is None,
                Err(e) => header_error(self@, *header) == Some(e),
            },
    {
        let current_slot = header.slot as u64;
        let last_slot = self.state.get_last_slot();

        if current_slot <= last_slot {
            return Err(BlockchainError::InvalidSlot { last_slot, current_slot });
        }

        if let Some(last_hash) = &self.last_block_hash {
            if !eq32(header.parent.as_bytes(), last_hash.as_bytes()) {
                return Err(BlockchainError::ParentHashMismatch {
                    expected: *last_hash,
                    actual: header.parent,
                });
            }
        }

        if let Some(last_root) = &self.last_state_root {
            if !eq32(header.parent_state_root.as_bytes(), last_root.as_bytes()) {
                return Err(BlockchainError::ParentStateRootMismatch {
                    expected: *last_root,
                    actual: header.parent_state_root,
                });
            }
        }

        let _ = header.validate_entropy()?;

        if let Some(epoch_mark) = &header.epoch_mark {
            if header.author_index as usize >= epoch_mark.validators.len() {
                return Err(BlockchainError::InvalidAuthorIndex {
                    author_index: header.author_index as u64,
                    max_validators: epoch_mark.validators.len() as u64,
                });
            }
        }

        Ok(())
    }

    /// Check an extrinsic against its header: each ticket must agree with
    /// its mark and carry a 64-byte signature, every preimage requester must
    /// be non-zero, and the header's extrinsic-hash commitment must equal
    /// the freshly computed digest of the extrinsic's canonical
    /// serialization.
    #[verifier::loop_isolation(false)]
    fn validate_extrinsic(&self, header: &Header, extrinsic: &Extrinsic) -> (r: Result<
        (),
        BlockchainError,
    >)
        ensures
            match r {
                Ok(_) => extrinsic_error(*header, *extrinsic) is None,
                Err(e) => extrinsic_error(*header, *extrinsic) == Some(e),
            },
    {
        if let Some(tickets_mark) = &header.tickets_mark {
            if tickets_mark.len() != extrinsic.tickets.len() {
                return Err(BlockchainError::TicketValidationError {
                    fault: TicketFault::CountMismatch {
                        expected: tickets_mark.len() as u64,
                        got: extrinsic.tickets.len() as u64,
                    },
                });
            }

            proof {
                assert(extrinsic.tickets@.skip(0) =~= extrinsic.tickets@);
                assert(tickets_mark@.skip(0) =~= tickets_mark@);
            }
            let n = extrinsic.tickets.len();
            let mut i: usize = 0;
            while i < n
                invariant
                    0 <= i <= n,
                    ticket_fault(extrinsic.tickets@, tickets_mark@) == ticket_fault(
                        extrinsic.tickets@.skip(i as int),
                        tickets_mark@.skip(i as int),
                    ),
                decreases n - i,
            {
                proof {
                    assert(extrinsic.tickets@.skip(i as int).first() == extrinsic.tickets@[
                        i as int
                    ]);
                    assert(extrinsic.tickets@.skip(i as int).drop_first()
                        =~= extrinsic.tickets@.skip(i + 1));
                    assert(tickets_mark@.skip(i as int).first() == tickets_mark@[i as int]);
                    assert(tickets_mark@.skip(i as int).drop_first() =~= tickets_mark@.skip(i + 1));
                }
                let ticket = &extrinsic.tickets[i];
                let mark = &tickets_mark[i];
                if ticket.attempt != mark.attempt {
                    return Err(BlockchainError::TicketValidationError {
                        fault: TicketFault::AttemptMismatch {
                            expected: mark.attempt,
                            got: ticket.attempt,
                        },
                    });
                }
                if let Err(e) = ticket.validate() {
                    return Err(e);
                }
                i += 1;
            }
            proof {
                assert(extrinsic.tickets@.skip(n as int) =~= Seq::<TicketEnvelope>::empty());
            }
        } else if extrinsic.tickets.len() > 0 {
            return Err(BlockchainError::TicketValidationError {
                fault: TicketFault::MissingMark,
            });
        }

        let pn = extrinsic.preimages.len();
        let mut pi: usize = 0;
        while pi < pn
            invariant
                0 <= pi <= pn,
                forall|j: int| 0 <= j < pi ==> (#[trigger] extrinsic.preimages@[j]).requester != 0,
            decreases pn - pi,
        {
            if extrinsic.preimages[pi].requester == 0 {
                proof {
                    assert(extrinsic.preimages@[pi as int].requester == 0);
                }
                return Err(BlockchainError::InvalidPreimage {
                    fault: PreimageFault::ZeroRequester,
                });
            }
            pi += 1;
        }

        let computed = match extrinsic.compute_hash() {
            Some(h) => h,
            None => {
                return Err(BlockchainError::InvalidInclusionProof);
            },
        };
        if !eq32(header.extrinsic_hash.as_bytes(), &computed) {
            return Err(BlockchainError::InvalidInclusionProof);
        }

        Ok(())
    }

    /// Validate a block in pipeline order — structure, header, extrinsic,
    /// CoreTime — and, only if every check passes, apply it to the CoreTime
    /// ledger and then to the chain state.
    fn validate_and_apply_block(&mut self, block: &Block) -> (r: Result<(), BlockchainError>)
        requires
            old(self)@.state.ticket_state.total_tickets + block.extrinsic.tickets@.len()
                <= u64::MAX,
            old(self)@.state.ticket_state.valid_tickets + block.extrinsic.tickets@.len()
                <= u64::MAX,
            old(self)@.state.ticket_state.invalid_tickets + block.extrinsic.tickets@.len()
                <= u64::MAX,
            old(self)@.state.counter + block.extrinsic.tickets@.len()
                + block.extrinsic.preimages@.len() <= u64::MAX,
        ensures
            import_error(old(self)@, *block) is None && block.extrinsic.guarantees@.len() == 0
                && block.extrinsic.assurances@.len() == 0 && block.extrinsic.disputes is None
                ==> r is Ok,
            match r {
                Err(e) => {
                    &&& *final(self) == *old(self)
                    &&& (match import_error(old(self)@, *block) {
                        Some(e0) => e == e0,
                        None => e is CoreTimeValidationError || e
                            == BlockchainError::CoreTimeBalanceError,
                    })
                },
                Ok(_) => {
                    &&& import_error(old(self)@, *block) is None
                    &&& final(self)@.last_block_hash == old(self)@.last_block_hash
                    &&& final(self)@.last_state_root == old(self)@.last_state_root
                    &&& apply_block_spec(old(self)@.state, *block) == Ok::<State, BlockchainError>(
                        final(self)@.state,
                    )
                    &&& exists|
                        gs: Seq<CoreTimeGuarantee>,
                        asr: Seq<CoreTimeAssurance>,
                        ds: Option<CoreTimeDisputes>,
                    |
                        #[trigger] coretime_step(
                            old(self)@.coretime,
                            block.header.slot as u64,
                            gs,
                            asr,
                            ds,
                        ) == Ok::<LedgerView, CoreTimeFault>(final(self)@.coretime)
                },
            },
    {
        self.validate_block_structure(block)?;
        self.validate_header(&block.header)?;
        self.validate_extrinsic(&block.header, &block.extrinsic)?;

        self.coretime.validate_and_apply(
            block.header.slot as u64,
            &block.extrinsic.guarantees,
            &block.extrinsic.assurances,
            &block.extrinsic.disputes,
        )?;

        match self.state.apply_block(block) {
            Ok(_) => Ok(()),
            Err(_) => {
                proof {
                    assert(false);
                }
                Err(BlockchainError::StateTransitionError)
            },
        }
    }

    /// Import one decoded block: validate every aspect of it and, on
    /// success, apply it and update the linkage fingerprints to its
    /// extrinsic hash and parent state root. On failure nothing is mutated,
    /// and the pipeline's first defect — exactly the one the import-error
    /// model names, or a CoreTime error when the model names none — is
    /// returned. A block the model finds no fault with, and which carries no
    /// CoreTime payloads, is guaranteed to import.
    pub fn import(&mut self, block: &Block) -> (r: Result<(), BlockchainError>)
        requires
            old(self)@.state.ticket_state.total_tickets + block.extrinsic.tickets@.len()
                <= u64::MAX,
            old(self)@.state.ticket_state.valid_tickets + block.extrinsic.tickets@.len()
                <= u64::MAX,
            old(self)@.state.ticket_state.invalid_tickets + block.extrinsic.tickets@.len()
                <= u64::MAX,
            old(self)@.state.counter + block.extrinsic.tickets@.len()
                + block.extrinsic.preimages@.len() <= u64::MAX,
        ensures
            import_error(old(self)@, *block) is None && block.extrinsic.guarantees@.len() == 0
                && block.extrinsic.assurances@.len() == 0 && block.extrinsic.disputes is None
                ==> r is Ok,
            match r {
                Err(e) => {
                    &&& *final(self) == *old(self)
                    &&& (match import_error(old(self)@, *block) {
                        Some(e0) => e == e0,
                        None => e is CoreTimeValidationError || e
                            == BlockchainError::CoreTimeBalanceError,
                    })
                },
                Ok(_) => {
                    &&& import_error(old(self)@, *block) is None
                    &&& final(self)@.last_block_hash == Some(block.header.extrinsic_hash)
                    &&& final(self)@.last_state_root == Some(block.header.parent_state_root)
                    &&& apply_block_spec(old(self)@.state, *block) == Ok::<State, BlockchainError>(
                        final(self)@.state,
                    )
                    &&& exists|
                        gs: Seq<CoreTimeGuarantee>,
                        asr: Seq<CoreTimeAssurance>,
                        ds: Option<CoreTimeDisputes>,
                    |
                        #[trigger] coretime_step(
                            old(self)@.coretime,
                            block.header.slot as u64,
                            gs,
                            asr,
                            ds,
                        ) == Ok::<LedgerView, CoreTimeFault>(final(self)@.coretime)
                },
            },
    {
        self.validate_and_apply_block(block)?;

        self.last_block_hash = Some(block.header.extrinsic_hash);
        self.last_state_root = Some(block.header.parent_state_root);

        Ok(())
    }
}

impl Default for Importer {
    /// The same as a fresh importer.
    fn default() -> (r: Self)
        ensures
            r@.state.last_slot == 0,
            r@.state.counter == 0,
            r@.last_block_hash is None,
            r@.last_state_root is None,
    {
        Self::new()
    }
}

} // verus!

