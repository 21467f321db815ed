//! Core data model: blocks, headers, extrinsics, tickets, preimages,
//! the entropy source, the error taxonomy and the chain-state projection.

use vstd::prelude::*;
use vstd::slice::slice_subrange;

verus! {

/// Total size in bytes of a block's entropy payload.
const ENTROPY_SOURCE_SIZE: usize = 96;

/// Size in bytes of each of the three entropy chunks.
const ENTROPY_CHUNK_SIZE: usize = 32;

/// OpaqueHash is a fixed-size 32-byte array used for hashes and identifiers.
#[derive(Debug, Clone, Copy)]
pub struct OpaqueHash([u8; 32]);

impl View for OpaqueHash {
    type V = Seq<u8>;

    closed spec fn view(&self) -> Seq<u8> {
        self.0@
    }
}

/// An OpaqueHash always views as exactly 32 bytes.
pub broadcast proof fn lemma_opaque_hash_len(h: OpaqueHash)
    ensures
        (#[trigger] h@).len() == 32,
{
}

impl OpaqueHash {
    /// Create a new OpaqueHash from a byte array.
    pub fn new(bytes: [u8; 32]) -> (r: Self)
        ensures
            r@ == bytes@,
    {
        OpaqueHash(bytes)
    }

    /// Get the inner byte array.
    pub fn as_bytes(&self) -> (r: &[u8; 32])
        ensures
            r@ == self@,
    {
        &self.0
    }
}

/// Byte-wise equality of two 32-byte arrays.
pub(crate) fn eq32(a: &[u8; 32], b: &[u8; 32]) -> (r: bool)
    ensures
        r <==> a@ == b@,
{
    let sa: &[u8] = a.as_slice();
    let sb: &[u8] = b.as_slice();
    let mut i: usize = 0;
    while i < 32
        invariant
            0 <= i <= 32,
            sa@ == a@,
            sb@ == b@,
            a@.len() == 32,
            b@.len() == 32,
            forall|j: int| 0 <= j < i ==> a@[j] == b@[j],
        decreases 32 - i,
    {
        if sa[i] != sb[i] {
            return false;
        }
        i += 1;
    }
    proof {
        assert(a@ =~= b@);
    }
    true
}

/// Why a ticket was rejected.
#[derive(Debug, Clone)]
pub enum TicketFault {
    /// The number of submitted tickets differs from the number of marks.
    CountMismatch { expected: u64, got: u64 },
    /// An envelope's attempt differs from its paired mark's attempt.
    AttemptMismatch { expected: u8, got: u8 },
    /// An envelope's signature is not exactly 64 bytes.
    BadSignatureLength { got: u64 },
    /// Tickets are present but the header carries no tickets mark.
    MissingMark,
}

/// Why the entropy payload was rejected.
#[derive(Debug, Clone)]
pub enum EntropyFault {
    /// The payload is not exactly 96 bytes.
    WrongLength { got: u64 },
    /// The current-entropy chunk differs from the epoch mark's entropy.
    EpochMismatch,
}

/// Why a preimage was rejected.
#[derive(Debug, Clone)]
pub enum PreimageFault {
    /// A preimage's blob is empty.
    EmptyBlob,
    /// A preimage's requester identifier is zero.
    ZeroRequester,
}

/// Which structural rule a CoreTime payload broke.
#[derive(Debug, Clone)]
pub enum CoreTimeViolation {
    /// A guarantee does not parse into the expected shape.
    MalformedGuarantee,
    /// A guarantee references a slot later than the block's slot.
    FutureSlot,
    /// A guarantee's slot is older than the lookback window allows.
    StaleSlot,
    /// Two guarantees in one block claim the same (slot, core) pair.
    DuplicateAllocation,
    /// More assurances than a block may carry.
    TooManyAssurances,
    /// An assurance does not parse into the expected shape.
    MalformedAssurance,
    /// An assurance's bitfield is empty.
    EmptyBitfield,
    /// Two assurances in one block name the same validator.
    DuplicateValidator,
    /// The disputes payload does not parse into the expected shape.
    MalformedDisputes,
    /// A dispute verdict is older than the age limit allows.
    StaleVerdict,
    /// A dispute verdict carries no votes.
    NoVotes,
}

/// Closed error taxonomy for block admission and state transition.
#[derive(Debug, Clone)]
pub enum BlockchainError {
    /// Slot validation failed.
    InvalidSlot { last_slot: u64, current_slot: u64 },
    /// Parent hash validation failed.
    ParentHashMismatch { expected: OpaqueHash, actual: OpaqueHash },
    /// Ticket validation failed.
    TicketValidationError { fault: TicketFault },
    /// State transition failed.
    StateTransitionError,
    /// Invalid author index in the block header.
    InvalidAuthorIndex { author_index: u64, max_validators: u64 },
    /// Parent state root mismatch.
    ParentStateRootMismatch { expected: OpaqueHash, actual: OpaqueHash },
    /// Invalid block structure: ticket count differs from the header's marks.
    InvalidBlockStructure { marked_tickets: u64, found_tickets: u64 },
    /// The header's extrinsic-hash commitment does not match the extrinsic.
    InvalidInclusionProof,
    /// Invalid signature.
    InvalidSignature,
    /// Invalid entropy payload.
    InvalidEntropy { fault: EntropyFault },
    /// Invalid preimage.
    InvalidPreimage { fault: PreimageFault },
    /// A CoreTime payload broke a structural or logical rule.
    CoreTimeValidationError { fault: CoreTimeViolation },
    /// A CoreTime budget was exceeded or a CoreTime sum overflowed.
    CoreTimeBalanceError,
}

/// Outcome of a block or state validation, with an error code and optional
/// message on failure.
#[derive(Debug, Clone, PartialEq, Eq)]
pub enum ValidationResult {
    /// Validation succeeded.
    Success,
    /// Validation failed with a code and optional message.
    Failure { code: u64, message: Option<String> },
}

/// EpochMark carries epoch metadata: entropy commitments and the validator
/// committee for the epoch.
#[derive(Debug, Clone)]
pub struct EpochMark {
    pub entropy: OpaqueHash,
    pub tickets_entropy: OpaqueHash,
    pub validators: Vec<OpaqueHash>,
}

/// TicketBody is the committed-to form of a ticket in the header.
#[derive(Debug, Clone)]
pub struct TicketBody {
    pub id: OpaqueHash,
    pub attempt: u8,
}

impl TicketBody {
    /// A ticket body carries no further constraints beyond its field types.
    pub fn validate(&self) -> (r: Result<(), BlockchainError>)
        ensures
            r is Ok,
    {
        Ok(())
    }
}

/// TicketEnvelope is the submitted form of a validator's ticket.
#[derive(Debug, Clone)]
pub struct TicketEnvelope {
    pub attempt: u8,
    pub signature: Vec<u8>,
}

impl TicketEnvelope {
    /// An envelope is valid exactly when its signature is 64 bytes long.
    pub fn validate(&self) -> (r: Result<(), BlockchainError>)
        ensures
            r is Ok <==> self.signature@.len() == 64,
            r matches Err(e) ==> e == (BlockchainError::TicketValidationError {
                fault: TicketFault::BadSignatureLength { got: self.signature@.len() as u64 },
            }),
    {
        if self.signature.len() != 64 {
            return Err(BlockchainError::TicketValidationError {
                fault: TicketFault::BadSignatureLength { got: self.signature.len() as u64 },
            });
        }
        Ok(())
    }
}

/// Preimage is raw data submitted for lookup availability.
#[derive(Debug, Clone)]
pub struct Preimage {
    pub requester: u32,
    pub blob: Vec<u8>,
}

/// Header carries block metadata and consensus information.
#[derive(Debug, Clone)]
pub struct Header {
    pub parent: OpaqueHash,
    pub parent_state_root: OpaqueHash,
    pub extrinsic_hash: OpaqueHash,
    pub slot: u32,
    pub epoch_mark: Option<EpochMark>,
    pub tickets_mark: Option<Vec<TicketBody>>,
    pub offenders_mark: Vec<OpaqueHash>,
    pub author_index: u16,
    pub entropy_source: Vec<u8>,
    pub seal: Vec<u8>,
}

/// Extrinsic is the block payload: tickets, preimages and three
/// semi-structured CoreTime payloads. The CoreTime payloads are kept as raw
/// JSON text and are parsed into strict shapes only by the CoreTime ledger,
/// so the top-level block schema stays decoupled from the evolving
/// sub-protocols. A `None` disputes payload stands for an absent or null
/// disputes value.
#[derive(Debug, Clone)]
pub struct Extrinsic {
    pub tickets: Vec<TicketEnvelope>,
    pub preimages: Vec<Preimage>,
    pub guarantees: Vec<Vec<u8>>,
    pub assurances: Vec<Vec<u8>>,
    pub disputes: Option<Vec<u8>>,
}

/// Block is the top-level structure: a header plus its extrinsic.
#[derive(Debug, Clone)]
pub struct Block {
    pub header: Header,
    pub extrinsic: Extrinsic,
}

/// The three 32-byte entropy chunks parsed from a header's entropy payload.
#[derive(Debug)]
pub struct EntropySource {
    current_entropy: [u8; 32],
    next_entropy: [u8; 32],
    final_entropy: [u8; 32],
}

impl EntropySource {
    /// The current-entropy chunk, as a mathematical sequence.
    pub closed spec fn spec_current(&self) -> Seq<u8> {
        self.current_entropy@
    }

    /// The next-entropy chunk, as a mathematical sequence.
    pub closed spec fn spec_next(&self) -> Seq<u8> {
        self.next_entropy@
    }

    /// The final-entropy chunk, as a mathematical sequence.
    pub closed spec fn spec_final(&self) -> Seq<u8> {
        self.final_entropy@
    }

    /// Split a 96-byte payload into the three entropy chunks, in the order
    /// current, next, final. Any other length is rejected.
    pub fn from_bytes(bytes: &[u8]) -> (r: Result<Self, BlockchainError>)
        ensures
            match r {
                Ok(es) => {
                    &&& bytes@.len() == 96
                    &&& es.spec_current() == bytes@.subrange(0, 32)
                    &&& es.spec_next() == bytes@.subrange(32, 64)
                    &&& es.spec_final() == bytes@.subrange(64, 96)
                },
                Err(e) => {
                    &&& bytes@.len() != 96
                    &&& e == (BlockchainError::InvalidEntropy {
                        fault: EntropyFault::WrongLength { got: bytes@.len() as u64 },
                    })
                },
            },
    {
        if bytes.len() != ENTROPY_SOURCE_SIZE {
            return Err(BlockchainError::InvalidEntropy {
                fault: EntropyFault::WrongLength { got: bytes.len() as u64 },
            });
        }

        let current = match crate::bytes32_from_slice(slice_subrange(bytes, 0, ENTROPY_CHUNK_SIZE)) {
            Some(a) => a,
            None => {
                proof {
                    assert(false);
                }
                return Err(BlockchainError::InvalidEntropy {
                    fault: EntropyFault::WrongLength { got: 0 },
                });
            },
        };
        let next = match crate::bytes32_from_slice(
            slice_subrange(bytes, ENTROPY_CHUNK_SIZE, 2 * ENTROPY_CHUNK_SIZE),
        ) {
            Some(a) => a,
            None => {
                proof {
                    assert(false);
                }
                return Err(BlockchainError::InvalidEntropy {
                    fault: EntropyFault::WrongLength { got: 0 },
                });
            },
        };
        let fin = match crate::bytes32_from_slice(
            slice_subrange(bytes, 2 * ENTROPY_CHUNK_SIZE, ENTROPY_SOURCE_SIZE),
        ) {
            Some(a) => a,
            None => {
                proof {
                    assert(false);
                }
                return Err(BlockchainError::InvalidEntropy {
                    fault: EntropyFault::WrongLength { got: 0 },
                });
            },
        };

        Ok(EntropySource { current_entropy: current, next_entropy: next, final_entropy: fin })
    }

    /// The current chunk must equal the epoch mark's entropy exactly.
    pub fn validate_with_epoch_mark(&self, epoch_mark: &EpochMark) -> (r: Result<
        (),
        BlockchainError,
    >)
        ensures
            r is Ok <==> self.spec_current() == epoch_mark.entropy@,
            r matches Err(e) ==> e == (BlockchainError::InvalidEntropy {
                fault: EntropyFault::EpochMismatch,
            }),
    {
        if !eq32(&self.current_entropy, epoch_mark.entropy.as_bytes()) {
            return Err(BlockchainError::InvalidEntropy { fault: EntropyFault::EpochMismatch });
        }
        Ok(())
    }

    /// The current-entropy chunk.
    pub fn get_current_entropy(&self) -> (r: &[u8; 32])
        ensures
            r@ == self.spec_current(),
    {
        &self.current_entropy
    }

    /// The next-entropy chunk.
    pub fn get_next_entropy(&self) -> (r: &[u8; 32])
        ensures
            r@ == self.spec_next(),
    {
        &self.next_entropy
    }

    /// The final-entropy chunk.
    pub fn get_final_entropy(&self) -> (r: &[u8; 32])
        ensures
            r@ == self.spec_final(),
    {
        &self.final_entropy
    }
}

/// The first entropy error a header exhibits, if any: a payload that is not
/// 96 bytes, or a current chunk that disagrees with the epoch mark.
pub open spec fn header_entropy_error(h: Header) -> Option<BlockchainError> {
    if h.entropy_source@.len() != 96 {
        Some(
            BlockchainError::InvalidEntropy {
                fault: EntropyFault::WrongLength { got: h.entropy_source@.len() as u64 },
            },
        )
    } else {
        match h.epoch_mark {
            Some(em) => if h.entropy_source@.subrange(0, 32) != em.entropy@ {
                Some(BlockchainError::InvalidEntropy { fault: EntropyFault::EpochMismatch })
            } else {
                None
            },
            None => None,
        }
    }
}

impl Header {
    /// Parse the header's entropy payload and, when an epoch mark is present,
    /// check that the current chunk equals the mark's entropy.
    pub fn validate_entropy(&self) -> (r: Result<EntropySource, BlockchainError>)
        ensures
            match r {
                Ok(es) => {
                    &&& header_entropy_error(*self) is None
                    &&& es.spec_current() == self.entropy_source@.subrange(0, 32)
                    &&& es.spec_next() == self.entropy_source@.subrange(32, 64)
                    &&& es.spec_final() == self.entropy_source@.subrange(64, 96)
                },
                Err(e) => Some(e) == header_entropy_error(*self),
            },
    {
        let entropy_source = EntropySource::from_bytes(self.entropy_source.as_slice())?;

        if let Some(epoch_mark) = &self.epoch_mark {
            entropy_source.validate_with_epoch_mark(epoch_mark)?;
        }

        Ok(entropy_source)
    }
}

/// TicketState tracks ticket statistics and the last valid ticket's id.
#[derive(Debug)]
pub struct TicketState {
    pub total_tickets: u64,
    pub valid_tickets: u64,
    pub invalid_tickets: u64,
    pub last_ticket_id: Option<OpaqueHash>,
}

/// Reconcile each (envelope, mark) pair in order: a pair whose attempts
/// disagree, or whose envelope fails its own validation, counts as invalid;
/// any other pair counts as valid and records the mark's id.
pub open spec fn reconcile_tickets(
    ts: TicketState,
    tickets: Seq<TicketEnvelope>,
    marks: Seq<TicketBody>,
) -> TicketState
    decreases tickets.len(),
{
    if tickets.len() == 0 || marks.len() == 0 {
        ts
    } else {
        let t = tickets.first();
        let m = marks.first();
        let ts2 = if t.attempt != m.attempt || t.signature@.len() != 64 {
            TicketState { invalid_tickets: (ts.invalid_tickets + 1) as u64, ..ts }
        } else {
            TicketState {
                valid_tickets: (ts.valid_tickets + 1) as u64,
                last_ticket_id: Some(m.id),
                ..ts
            }
        };
        reconcile_tickets(ts2, tickets.drop_first(), marks.drop_first())
    }
}

impl Default for TicketState {
    /// The same as a fresh ticket state.
    fn default() -> (r: Self)
        ensures
            r.total_tickets == 0,
            r.valid_tickets == 0,
            r.invalid_tickets == 0,
            r.last_ticket_id is None,
    {
        TicketState::new()
    }
}

impl TicketState {
    /// A fresh ticket state with all counters at zero and no last ticket.
    pub fn new() -> (r: Self)
        ensures
            r.total_tickets == 0,
            r.valid_tickets == 0,
            r.invalid_tickets == 0,
            r.last_ticket_id is None,
    {
        TicketState {
            total_tickets: 0,
            valid_tickets: 0,
            invalid_tickets: 0,
            last_ticket_id: None,
        }
    }

    /// Account for one block's tickets: the batch size is added to the total,
    /// and each (envelope, mark) pair is reconciled as valid or invalid.
    /// A count mismatch between envelopes and marks is a hard error that
    /// leaves the state unchanged.
    pub fn apply_tickets(
        &mut self,
        tickets: &Vec<TicketEnvelope>,
        tickets_mark: &Vec<TicketBody>,
    ) -> (r: Result<(), BlockchainError>)
        requires
            old(self).total_tickets + tickets@.len() <= u64::MAX,
            old(self).valid_tickets + tickets@.len() <= u64::MAX,
            old(self).invalid_tickets + tickets@.len() <= u64::MAX,
        ensures
            match r {
                Ok(_) => {
                    &&& tickets@.len() == tickets_mark@.len()
                    &&& *final(self) == reconcile_tickets(
                        TicketState {
                            total_tickets: (old(self).total_tickets + tickets@.len()) as u64,
                            ..*old(self)
                        },
                        tickets@,
                        tickets_mark@,
                    )
                },
                Err(e) => {
                    &&& tickets@.len() != tickets_mark@.len()
                    &&& *final(self) == *old(self)
                    &&& e == (BlockchainError::TicketValidationError {
                        fault: TicketFault::CountMismatch {
                            expected: tickets_mark@.len() as u64,
                            got: tickets@.len() as u64,
                        },
                    })
                },
            },
    {
        if tickets.len() != tickets_mark.len() {
            return Err(BlockchainError::TicketValidationError {
                fault: TicketFault::CountMismatch {
                    expected: tickets_mark.len() as u64,
                    got: tickets.len() as u64,
                },
            });
        }

        let n = tickets.len();
        self.total_tickets = self.total_tickets + n as u64;

        let ghost start: TicketState = *self;
        proof {
            assert(tickets@.skip(0) =~= tickets@);
            assert(tickets_mark@.skip(0) =~= tickets_mark@);
        }

        let mut i: usize = 0;
        while i < n
            invariant
                0 <= i <= n,
                n == tickets@.len(),
                n == tickets_mark@.len(),
                self.total_tickets == start.total_tickets,
                start.valid_tickets + n <= u64::MAX,
                start.invalid_tickets + n <= u64::MAX,
                self.valid_tickets <= start.valid_tickets + i,
                self.invalid_tickets <= start.invalid_tickets + i,
                self.valid_tickets >= start.valid_tickets,
                self.invalid_tickets >= start.invalid_tickets,
                reconcile_tickets(start, tickets@, tickets_mark@) == reconcile_tickets(
                    *self,
                    tickets@.skip(i as int),
                    tickets_mark@.skip(i as int),
                ),
            decreases n - i,
        {
            proof {
                assert(tickets@.skip(i as int).first() == tickets@[i as int]);
                assert(tickets@.skip(i as int).drop_first() =~= tickets@.skip(i + 1));
                assert(tickets_mark@.skip(i as int).first() == tickets_mark@[i as int]);
                assert(tickets_mark@.skip(i as int).drop_first() =~= tickets_mark@.skip(i + 1));
            }
            let ticket = &tickets[i];
            let mark = &tickets_mark[i];
            if ticket.attempt != mark.attempt {
                self.invalid_tickets = self.invalid_tickets + 1;
            } else if ticket.validate().is_err() {
                self.invalid_tickets = self.invalid_tickets + 1;
            } else {
                self.valid_tickets = self.valid_tickets + 1;
                self.last_ticket_id = Some(mark.id);
            }
            i += 1;
        }
        proof {
            assert(tickets@.skip(n as int) =~= Seq::<TicketEnvelope>::empty());
            assert(tickets_mark@.skip(n as int) =~= Seq::<TicketBody>::empty());
        }
        Ok(())
    }

    /// The counters, in the order total, valid, invalid.
    pub fn get_stats(&self) -> (r: (u64, u64, u64))
        ensures
            r.0 == self.total_tickets,
            r.1 == self.valid_tickets,
            r.2 == self.invalid_tickets,
    {
        (self.total_tickets, self.valid_tickets, self.invalid_tickets)
    }
}

/// How many preimages in the sequence carry a non-empty blob.
pub open spec fn count_nonempty_preimages(ps: Seq<Preimage>) -> int
    decreases ps.len(),
{
    if ps.len() == 0 {
        0
    } else {
        count_nonempty_preimages(ps.drop_last()) + if ps.last().blob@.len() > 0 {
            1int
        } else {
            0int
        }
    }
}

pub proof fn lemma_count_nonempty_bounds(ps: Seq<Preimage>)
    ensures
        0 <= count_nonempty_preimages(ps) <= ps.len(),
    decreases ps.len(),
{
    if ps.len() > 0 {
        lemma_count_nonempty_bounds(ps.drop_last());
    }
}

/// The canonical post-state projection: last processed slot, the running
/// counter of valid tickets and preimages, and the ticket statistics.
#[derive(Debug)]
pub struct State {
    pub last_slot: u64,
    pub counter: u64,
    pub ticket_state: TicketState,
}

/// What applying a block does to the state: tickets are reconciled when the
/// header carries a mark, the slot is recorded, and the counter grows by the
/// block's newly valid tickets and its preimages with a non-empty blob — so
/// the counter tallies everything observed so far and never decreases.
/// A ticket-count mismatch is a hard error and changes nothing.
pub open spec fn apply_block_spec(s: State, b: Block) -> Result<State, BlockchainError> {
    match b.header.tickets_mark {
        Some(marks) => if b.extrinsic.tickets@.len() != marks@.len() {
            Err(
                BlockchainError::TicketValidationError {
                    fault: TicketFault::CountMismatch {
                        expected: marks@.len() as u64,
                        got: b.extrinsic.tickets@.len() as u64,
                    },
                },
            )
        } else {
            let ts = reconcile_tickets(
                TicketState {
                    total_tickets: (s.ticket_state.total_tickets
                        + b.extrinsic.tickets@.len()) as u64,
                    ..s.ticket_state
                },
                b.extrinsic.tickets@,
                marks@,
            );
            Ok(
                State {
                    last_slot: b.header.slot as u64,
                    counter: (s.counter + (ts.valid_tickets - s.ticket_state.valid_tickets)
                        + count_nonempty_preimages(b.extrinsic.preimages@)) as u64,
                    ticket_state: ts,
                },
            )
        },
        None => Ok(
            State {
                last_slot: b.header.slot as u64,
                counter: (s.counter + count_nonempty_preimages(b.extrinsic.preimages@)) as u64,
                ..s
            },
        ),
    }
}

/// The counter never decreases across successful applies: a block only adds
/// its newly valid tickets and its non-empty preimages.
pub proof fn lemma_counter_monotone(s: State, b: Block)
    requires
        s.ticket_state.valid_tickets + b.extrinsic.tickets@.len() <= u64::MAX,
        s.ticket_state.invalid_tickets + b.extrinsic.tickets@.len() <= u64::MAX,
        s.counter + b.extrinsic.tickets@.len() + b.extrinsic.preimages@.len() <= u64::MAX,
    ensures
        apply_block_spec(s, b) matches Ok(s2) ==> s2.counter >= s.counter,
{
    lemma_count_nonempty_bounds(b.extrinsic.preimages@);
    match b.header.tickets_mark {
        Some(marks) => {
            if b.extrinsic.tickets@.len() == marks@.len() {
                lemma_reconcile_bounds(
                    TicketState {
                        total_tickets: (s.ticket_state.total_tickets
                            + b.extrinsic.tickets@.len()) as u64,
                        ..s.ticket_state
                    },
                    b.extrinsic.tickets@,
                    marks@,
                );
            }
        },
        None => {},
    }
}

impl Default for State {
    /// The same as a fresh state.
    fn default() -> (r: Self)
        ensures
            r.last_slot == 0,
            r.counter == 0,
            r.ticket_state.total_tickets == 0,
            r.ticket_state.valid_tickets == 0,
            r.ticket_state.invalid_tickets == 0,
            r.ticket_state.last_ticket_id is None,
    {
        State::new()
    }
}

impl State {
    /// A fresh state: slot zero, counter zero, fresh ticket statistics.
    pub fn new() -> (r: Self)
        ensures
            r.last_slot == 0,
            r.counter == 0,
            r.ticket_state.total_tickets == 0,
            r.ticket_state.valid_tickets == 0,
            r.ticket_state.invalid_tickets == 0,
            r.ticket_state.last_ticket_id is None,
    {
        State { last_slot: 0, counter: 0, ticket_state: TicketState::new() }
    }

    /// The last processed slot.
    pub fn get_last_slot(&self) -> (r: u64)
        ensures
            r == self.last_slot,
    {
        self.last_slot
    }

    /// The running counter of valid tickets and preimages.
    pub fn get_counter(&self) -> (r: u64)
        ensures
            r == self.counter,
    {
        self.counter
    }

    /// The ticket counters, in the order total, valid, invalid.
    pub fn get_ticket_stats(&self) -> (r: (u64, u64, u64))
        ensures
            r.0 == self.ticket_state.total_tickets,
            r.1 == self.ticket_state.valid_tickets,
            r.2 == self.ticket_state.invalid_tickets,
    {
        self.ticket_state.get_stats()
    }

    /// Apply a block that already passed the importer's validation:
    /// reconcile its tickets against the header's mark when one is present,
    /// record its slot, and grow the counter by the newly valid tickets and
    /// the non-empty preimages. A failing apply changes nothing.
    pub fn apply_block(&mut self, block: &Block) -> (r: Result<(), BlockchainError>)
        requires
            old(self).ticket_state.total_tickets + block.extrinsic.tickets@.len() <= u64::MAX,
            old(self).ticket_state.valid_tickets + block.extrinsic.tickets@.len() <= u64::MAX,
            old(self).ticket_state.invalid_tickets + block.extrinsic.tickets@.len() <= u64::MAX,
            old(self).counter + block.extrinsic.tickets@.len() + block.extrinsic.preimages@.len()
                <= u64::MAX,
        ensures
            match r {
                Ok(_) => apply_block_spec(*old(self), *block) == Ok::<State, BlockchainError>(
                    *final(self),
                ),
                Err(e) => {
                    &&& apply_block_spec(*old(self), *block) == Err::<State, BlockchainError>(e)
                    &&& *final(self) == *old(self)
                },
            },
    {
        proof {
            lemma_reconcile_bounds(
                TicketState {
                    total_tickets: (old(self).ticket_state.total_tickets
                        + block.extrinsic.tickets@.len()) as u64,
                    ..old(self).ticket_state
                },
                block.extrinsic.tickets@,
                match &block.header.tickets_mark {
                    Some(marks) => marks@,
                    None => Seq::empty(),
                },
            );
            lemma_count_nonempty_bounds(block.extrinsic.preimages@);
        }

        let previously_valid = self.ticket_state.valid_tickets;
        if let Some(tickets_mark) = &block.header.tickets_mark {
            self.ticket_state.apply_tickets(&block.extrinsic.tickets, tickets_mark)?;
        }
        let newly_valid = self.ticket_state.valid_tickets - previously_valid;

        self.last_slot = block.header.slot as u64;

        let mut valid_preimage_count: u64 = 0;
        let n = block.extrinsic.preimages.len();
        let mut i: usize = 0;
        while i < n
            invariant
                0 <= i <= n,
                n == block.extrinsic.preimages@.len(),
                valid_preimage_count == count_nonempty_preimages(
                    block.extrinsic.preimages@.subrange(0, i as int),
                ),
                valid_preimage_count <= i,
            decreases n - i,
        {
            proof {
                assert(block.extrinsic.preimages@.subrange(0, i + 1).drop_last()
                    =~= block.extrinsic.preimages@.subrange(0, i as int));
            }
            if block.extrinsic.preimages[i].blob.len() > 0 {
                valid_preimage_count = valid_preimage_count + 1;
            }
            i += 1;
        }
        proof {
            assert(block.extrinsic.preimages@.subrange(0, n as int)
                =~= block.extrinsic.preimages@);
        }

        self.counter = self.counter + newly_valid + valid_preimage_count;
        Ok(())
    }
}

/// Reconciliation moves each pair into exactly one of the valid or invalid
/// counters and never touches the total.
pub proof fn lemma_reconcile_bounds(
    ts: TicketState,
    tickets: Seq<TicketEnvelope>,
    marks: Seq<TicketBody>,
)
    requires
        ts.valid_tickets + tickets.len() <= u64::MAX,
        ts.invalid_tickets + tickets.len() <= u64::MAX,
    ensures
        ts.valid_tickets <= reconcile_tickets(ts, tickets, marks).valid_tickets <= ts.valid_tickets
            + tickets.len(),
        ts.invalid_tickets <= reconcile_tickets(ts, tickets, marks).invalid_tickets
            <= ts.invalid_tickets + tickets.len(),
        reconcile_tickets(ts, tickets, marks).total_tickets == ts.total_tickets,
    decreases tickets.len(),
{
    if tickets.len() > 0 && marks.len() > 0 {
        let t = tickets.first();
        let m = marks.first();
        let ts2 = if t.attempt != m.attempt || t.signature@.len() != 64 {
            TicketState { invalid_tickets: (ts.invalid_tickets + 1) as u64, ..ts }
        } else {
            TicketState {
                valid_tickets: (ts.valid_tickets + 1) as u64,
                last_ticket_id: Some(m.id),
                ..ts
            }
        };
        lemma_reconcile_bounds(ts2, tickets.drop_first(), marks.drop_first());
    }
}

} // verus!
