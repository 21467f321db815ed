//! Canonical byte serialization of the block structures, and the
//! Blake2b-256 commitment computed over it.
//!
//! The encoding is deterministic and self-delimiting: multi-byte integers
//! are little-endian, variable-length byte strings and lists carry a 32-bit
//! length prefix, and optional fields carry a one-byte presence tag. The
//! extrinsic's canonical hash is the Blake2b-256 digest of its canonical
//! serialization.
//!
//! The canonical form is this library's own. A client that commits to a
//! different serialization of the same extrinsic — say, its JSON text —
//! produces a different digest, so extrinsic-hash commitments do not carry
//! over between the two.

use vstd::prelude::*;
use vstd::slice::slice_subrange;
use crate::schema::{Block, EpochMark, Extrinsic, Header, OpaqueHash, Preimage, TicketBody,
    TicketEnvelope};

verus! {

/// The largest length a 32-bit prefix can carry.
pub const MAX_FIELD_LEN: usize = 0xFFFF_FFFF;

/// A name for what `blake2b_simd` returns: the 32-byte Blake2b digest of the
/// input bytes alone.
pub uninterp spec fn blake2b256_of(bytes: Seq<u8>) -> Seq<u8>;

/// Relies on `blake2b_simd::Params`: with a 32-byte hash length, hashing is
/// a function of the input bytes alone and yields 32 bytes.
#[verifier::external_body]
fn blake2b256(bytes: &Vec<u8>) -> (r: [u8; 32])
    ensures
        r@ == blake2b256_of(bytes@),
{
    let hash = blake2b_simd::Params::new()
        .hash_length(32)
        .to_state()
        .update(bytes.as_slice())
        .finalize();
    let mut out = [0u8; 32];
    out.copy_from_slice(hash.as_bytes());
    out
}

// ---------------------------------------------------------------------------
// The encoding, as mathematical sequences of bytes.
// ---------------------------------------------------------------------------

pub open spec fn enc_u16_spec(x: u16) -> Seq<u8> {
    seq![(x % 256) as u8, ((x / 256) % 256) as u8]
}

pub open spec fn enc_u32_spec(x: u32) -> Seq<u8> {
    seq![
        (x % 256) as u8,
        ((x / 256) % 256) as u8,
        ((x / 65536) % 256) as u8,
        ((x / 16777216) % 256) as u8,
    ]
}

/// A byte string: a 32-bit length prefix, then the bytes.
pub open spec fn enc_bytes_spec(b: Seq<u8>) -> Seq<u8> {
    enc_u32_spec(b.len() as u32) + b
}

pub open spec fn enc_epoch_mark_spec(em: EpochMark) -> Seq<u8> {
    em.entropy@ + em.tickets_entropy@ + enc_u32_spec(em.validators@.len() as u32) + cat_hashes(
        em.validators@,
    )
}

pub open spec fn cat_hashes(hs: Seq<OpaqueHash>) -> Seq<u8>
    decreases hs.len(),
{
    if hs.len() == 0 {
        Seq::empty()
    } else {
        cat_hashes(hs.drop_last()) + hs.last()@
    }
}

pub open spec fn enc_ticket_body_spec(tb: TicketBody) -> Seq<u8> {
    tb.id@ + seq![tb.attempt]
}

pub open spec fn cat_ticket_bodies(tbs: Seq<TicketBody>) -> Seq<u8>
    decreases tbs.len(),
{
    if tbs.len() == 0 {
        Seq::empty()
    } else {
        cat_ticket_bodies(tbs.drop_last()) + enc_ticket_body_spec(tbs.last())
    }
}

pub open spec fn enc_ticket_envelope_spec(t: TicketEnvelope) -> Seq<u8> {
    seq![t.attempt] + enc_bytes_spec(t.signature@)
}

pub open spec fn cat_ticket_envelopes(ts: Seq<TicketEnvelope>) -> Seq<u8>
    decreases ts.len(),
{
    if ts.len() == 0 {
        Seq::empty()
    } else {
        cat_ticket_envelopes(ts.drop_last()) + enc_ticket_envelope_spec(ts.last())
    }
}

pub open spec fn enc_preimage_spec(p: Preimage) -> Seq<u8> {
    enc_u32_spec(p.requester) + enc_bytes_spec(p.blob@)
}

pub open spec fn cat_preimages(ps: Seq<Preimage>) -> Seq<u8>
    decreases ps.len(),
{
    if ps.len() == 0 {
        Seq::empty()
    } else {
        cat_preimages(ps.drop_last()) + enc_preimage_spec(ps.last())
    }
}

pub open spec fn cat_payloads(ps: Seq<Vec<u8>>) -> Seq<u8>
    decreases ps.len(),
{
    if ps.len() == 0 {
        Seq::empty()
    } else {
        cat_payloads(ps.drop_last()) + enc_bytes_spec(ps.last()@)
    }
}

pub open spec fn enc_header_spec(h: Header) -> Seq<u8> {
    h.parent@ + h.parent_state_root@ + h.extrinsic_hash@ + enc_u32_spec(h.slot) + (match h
        .epoch_mark {
        None => seq![0u8],
        Some(em) => seq![1u8] + enc_epoch_mark_spec(em),
    }) + (match h.tickets_mark {
        None => seq![0u8],
        Some(tm) => seq![1u8] + enc_u32_spec(tm@.len() as u32) + cat_ticket_bodies(tm@),
    }) + enc_u32_spec(h.offenders_mark@.len() as u32) + cat_hashes(h.offenders_mark@) + enc_u16_spec(
        h.author_index,
    ) + enc_bytes_spec(h.entropy_source@) + enc_bytes_spec(h.seal@)
}

pub open spec fn enc_extrinsic_spec(e: Extrinsic) -> Seq<u8> {
    enc_u32_spec(e.tickets@.len() as u32) + cat_ticket_envelopes(e.tickets@) + enc_u32_spec(
        e.preimages@.len() as u32,
    ) + cat_preimages(e.preimages@) + enc_u32_spec(e.guarantees@.len() as u32) + cat_payloads(
        e.guarantees@,
    ) + enc_u32_spec(e.assurances@.len() as u32) + cat_payloads(e.assurances@) + (match e.disputes {
        None => seq![0u8],
        Some(d) => seq![1u8] + enc_bytes_spec(d@),
    })
}

pub open spec fn enc_block_spec(b: Block) -> Seq<u8> {
    enc_header_spec(b.header) + enc_extrinsic_spec(b.extrinsic)
}

// ---------------------------------------------------------------------------
// When a value fits the encoding: every length must fit its 32-bit prefix.
// ---------------------------------------------------------------------------

pub open spec fn header_encodable(h: Header) -> bool {
    &&& (match h.epoch_mark {
        None => true,
        Some(em) => em.validators@.len() <= 0xFFFF_FFFF,
    })
    &&& (match h.tickets_mark {
        None => true,
        Some(tm) => tm@.len() <= 0xFFFF_FFFF,
    })
    &&& h.offenders_mark@.len() <= 0xFFFF_FFFF
    &&& h.entropy_source@.len() <= 0xFFFF_FFFF
    &&& h.seal@.len() <= 0xFFFF_FFFF
}

pub open spec fn extrinsic_encodable(e: Extrinsic) -> bool {
    &&& e.tickets@.len() <= 0xFFFF_FFFF
    &&& (forall|i: int|
        0 <= i < e.tickets@.len() ==> (#[trigger] e.tickets@[i]).signature@.len() <= 0xFFFF_FFFF)
    &&& e.preimages@.len() <= 0xFFFF_FFFF
    &&& (forall|i: int|
        0 <= i < e.preimages@.len() ==> (#[trigger] e.preimages@[i]).blob@.len() <= 0xFFFF_FFFF)
    &&& e.guarantees@.len() <= 0xFFFF_FFFF
    &&& (forall|i: int|
        0 <= i < e.guarantees@.len() ==> (#[trigger] e.guarantees@[i])@.len() <= 0xFFFF_FFFF)
    &&& e.assurances@.len() <= 0xFFFF_FFFF
    &&& (forall|i: int|
        0 <= i < e.assurances@.len() ==> (#[trigger] e.assurances@[i])@.len() <= 0xFFFF_FFFF)
    &&& (match e.disputes {
        None => true,
        Some(d) => d@.len() <= 0xFFFF_FFFF,
    })
}

pub open spec fn block_encodable(b: Block) -> bool {
    header_encodable(b.header) && extrinsic_encodable(b.extrinsic)
}

// ---------------------------------------------------------------------------
// The encoder.
// ---------------------------------------------------------------------------

/// Append a slice of bytes.
#[verifier::loop_isolation(false)]
fn push_bytes(out: &mut Vec<u8>, b: &[u8])
    ensures
        final(out)@ == old(out)@ + b@,
{
    let ghost o: Seq<u8> = out@;
    let n = b.len();
    let mut i: usize = 0;
    while i < n
        invariant
            0 <= i <= n,
            out@ == o + b@.subrange(0, i as int),
        decreases n - i,
    {
        out.push(b[i]);
        proof {
            assert(b@.subrange(0, i + 1) =~= b@.subrange(0, i as int).push(b@[i as int]));
            assert(out@ =~= o + b@.subrange(0, i + 1));
        }
        i += 1;
    }
    proof {
        assert(b@.subrange(0, n as int) =~= b@);
    }
}

/// Append a 16-bit integer, little-endian.
fn enc_u16(out: &mut Vec<u8>, x: u16)
    ensures
        final(out)@ == old(out)@ + enc_u16_spec(x),
{
    let ghost o: Seq<u8> = out@;
    out.push((x % 256) as u8);
    out.push(((x / 256) % 256) as u8);
    proof {
        assert(out@ =~= o + enc_u16_spec(x));
    }
}

/// Append a 32-bit integer, little-endian.
fn enc_u32(out: &mut Vec<u8>, x: u32)
    ensures
        final(out)@ == old(out)@ + enc_u32_spec(x),
{
    let ghost o: Seq<u8> = out@;
    out.push((x % 256) as u8);
    out.push(((x / 256) % 256) as u8);
    out.push(((x / 65536) % 256) as u8);
    out.push(((x / 16777216) % 256) as u8);
    proof {
        assert(out@ =~= o + enc_u32_spec(x));
    }
}

/// Append a length-prefixed byte string.
fn enc_bytes(out: &mut Vec<u8>, b: &Vec<u8>)
    requires
        b@.len() <= 0xFFFF_FFFF,
    ensures
        final(out)@ == old(out)@ + enc_bytes_spec(b@),
{
    let ghost o: Seq<u8> = out@;
    enc_u32(out, b.len() as u32);
    push_bytes(out, b.as_slice());
    proof {
        assert(out@ =~= o + enc_bytes_spec(b@));
    }
}

/// Append a 32-byte hash, raw.
fn enc_hash(out: &mut Vec<u8>, h: &OpaqueHash)
    ensures
        final(out)@ == old(out)@ + h@,
{
    push_bytes(out, h.as_bytes().as_slice());
}

/// Append a length-prefixed list of hashes.
#[verifier::loop_isolation(false)]
fn enc_hashes(out: &mut Vec<u8>, hs: &Vec<OpaqueHash>)
    requires
        hs@.len() <= 0xFFFF_FFFF,
    ensures
        final(out)@ == old(out)@ + enc_u32_spec(hs@.len() as u32) + cat_hashes(hs@),
{
    enc_u32(out, hs.len() as u32);
    let ghost o: Seq<u8> = out@;
    proof {
        assert(cat_hashes(hs@.subrange(0, 0)) =~= Seq::<u8>::empty());
        assert(out@ =~= o + cat_hashes(hs@.subrange(0, 0)));
    }
    let n = hs.len();
    let mut i: usize = 0;
    while i < n
        invariant
            0 <= i <= n,
            out@ == o + cat_hashes(hs@.subrange(0, i as int)),
        decreases n - i,
    {
        enc_hash(out, &hs[i]);
        proof {
            assert(hs@.subrange(0, i + 1).drop_last() =~= hs@.subrange(0, i as int));
            assert(out@ =~= o + cat_hashes(hs@.subrange(0, i + 1)));
        }
        i += 1;
    }
    proof {
        assert(hs@.subrange(0, n as int) =~= hs@);
    }
}

/// Append an epoch mark.
fn enc_epoch_mark(out: &mut Vec<u8>, em: &EpochMark)
    requires
        em.validators@.len() <= 0xFFFF_FFFF,
    ensures
        final(out)@ == old(out)@ + enc_epoch_mark_spec(*em),
{
    let ghost o: Seq<u8> = out@;
    enc_hash(out, &em.entropy);
    enc_hash(out, &em.tickets_entropy);
    enc_hashes(out, &em.validators);
    proof {
        assert(out@ =~= o + enc_epoch_mark_spec(*em));
    }
}

/// Append a length-prefixed list of ticket bodies.
#[verifier::loop_isolation(false)]
fn enc_ticket_bodies(out: &mut Vec<u8>, tbs: &Vec<TicketBody>)
    requires
        tbs@.len() <= 0xFFFF_FFFF,
    ensures
        final(out)@ == old(out)@ + enc_u32_spec(tbs@.len() as u32) + cat_ticket_bodies(tbs@),
{
    enc_u32(out, tbs.len() as u32);
    let ghost o: Seq<u8> = out@;
    proof {
        assert(cat_ticket_bodies(tbs@.subrange(0, 0)) =~= Seq::<u8>::empty());
        assert(out@ =~= o + cat_ticket_bodies(tbs@.subrange(0, 0)));
    }
    let n = tbs.len();
    let mut i: usize = 0;
    while i < n
        invariant
            0 <= i <= n,
            out@ == o + cat_ticket_bodies(tbs@.subrange(0, i as int)),
        decreases n - i,
    {
        enc_hash(out, &tbs[i].id);
        out.push(tbs[i].attempt);
        proof {
            assert(tbs@.subrange(0, i + 1).drop_last() =~= tbs@.subrange(0, i as int));
            assert(out@ =~= o + cat_ticket_bodies(tbs@.subrange(0, i + 1)));
        }
        i += 1;
    }
    proof {
        assert(tbs@.subrange(0, n as int) =~= tbs@);
    }
}

/// Append a length-prefixed list of ticket envelopes.
#[verifier::loop_isolation(false)]
fn enc_ticket_envelopes(out: &mut Vec<u8>, ts: &Vec<TicketEnvelope>)
    requires
        ts@.len() <= 0xFFFF_FFFF,
        forall|i: int| 0 <= i < ts@.len() ==> (#[trigger] ts@[i]).signature@.len() <= 0xFFFF_FFFF,
    ensures
        final(out)@ == old(out)@ + enc_u32_spec(ts@.len() as u32) + cat_ticket_envelopes(ts@),
{
    enc_u32(out, ts.len() as u32);
    let ghost o: Seq<u8> = out@;
    proof {
        assert(cat_ticket_envelopes(ts@.subrange(0, 0)) =~= Seq::<u8>::empty());
        assert(out@ =~= o + cat_ticket_envelopes(ts@.subrange(0, 0)));
    }
    let n = ts.len();
    let mut i: usize = 0;
    while i < n
        invariant
            0 <= i <= n,
            out@ == o + cat_ticket_envelopes(ts@.subrange(0, i as int)),
        decreases n - i,
    {
        out.push(ts[i].attempt);
        enc_bytes(out, &ts[i].signature);
        proof {
            assert(ts@.subrange(0, i + 1).drop_last() =~= ts@.subrange(0, i as int));
            assert(out@ =~= o + cat_ticket_envelopes(ts@.subrange(0, i + 1)));
        }
        i += 1;
    }
    proof {
        assert(ts@.subrange(0, n as int) =~= ts@);
    }
}

/// Append a length-prefixed list of preimages.
#[verifier::loop_isolation(false)]
fn enc_preimages(out: &mut Vec<u8>, ps: &Vec<Preimage>)
    requires
        ps@.len() <= 0xFFFF_FFFF,
        forall|i: int| 0 <= i < ps@.len() ==> (#[trigger] ps@[i]).blob@.len() <= 0xFFFF_FFFF,
    ensures
        final(out)@ == old(out)@ + enc_u32_spec(ps@.len() as u32) + cat_preimages(ps@),
{
    enc_u32(out, ps.len() as u32);
    let ghost o: Seq<u8> = out@;
    proof {
        assert(cat_preimages(ps@.subrange(0, 0)) =~= Seq::<u8>::empty());
        assert(out@ =~= o + cat_preimages(ps@.subrange(0, 0)));
    }
    let n = ps.len();
    let mut i: usize = 0;
    while i < n
        invariant
            0 <= i <= n,
            out@ == o + cat_preimages(ps@.subrange(0, i as int)),
        decreases n - i,
    {
        enc_u32(out, ps[i].requester);
        enc_bytes(out, &ps[i].blob);
        proof {
            assert(ps@.subrange(0, i + 1).drop_last() =~= ps@.subrange(0, i as int));
            assert(out@ =~= o + cat_preimages(ps@.subrange(0, i + 1)));
        }
        i += 1;
    }
    proof {
        assert(ps@.subrange(0, n as int) =~= ps@);
    }
}

/// Append a length-prefixed list of raw payloads.
#[verifier::loop_isolation(false)]
fn enc_payloads(out: &mut Vec<u8>, ps: &Vec<Vec<u8>>)
    requires
        ps@.len() <= 0xFFFF_FFFF,
        forall|i: int| 0 <= i < ps@.len() ==> (#[trigger] ps@[i])@.len() <= 0xFFFF_FFFF,
    ensures
        final(out)@ == old(out)@ + enc_u32_spec(ps@.len() as u32) + cat_payloads(ps@),
{
    enc_u32(out, ps.len() as u32);
    let ghost o: Seq<u8> = out@;
    proof {
        assert(cat_payloads(ps@.subrange(0, 0)) =~= Seq::<u8>::empty());
        assert(out@ =~= o + cat_payloads(ps@.subrange(0, 0)));
    }
    let n = ps.len();
    let mut i: usize = 0;
    while i < n
        invariant
            0 <= i <= n,
            out@ == o + cat_payloads(ps@.subrange(0, i as int)),
        decreases n - i,
    {
        enc_bytes(out, &ps[i]);
        proof {
            assert(ps@.subrange(0, i + 1).drop_last() =~= ps@.subrange(0, i as int));
            assert(out@ =~= o + cat_payloads(ps@.subrange(0, i + 1)));
        }
        i += 1;
    }
    proof {
        assert(ps@.subrange(0, n as int) =~= ps@);
    }
}

/// Append a header.
#[verifier::rlimit(60)]
fn enc_header(out: &mut Vec<u8>, h: &Header)
    requires
        header_encodable(*h),
    ensures
        final(out)@ == old(out)@ + enc_header_spec(*h),
{
    let ghost o: Seq<u8> = out@;
    enc_hash(out, &h.parent);
    enc_hash(out, &h.parent_state_root);
    enc_hash(out, &h.extrinsic_hash);
    enc_u32(out, h.slot);
    match &h.epoch_mark {
        None => out.push(0),
        Some(em) => {
            out.push(1);
            enc_epoch_mark(out, em);
        },
    }
    match &h.tickets_mark {
        None => out.push(0),
        Some(tm) => {
            out.push(1);
            enc_ticket_bodies(out, tm);
        },
    }
    enc_hashes(out, &h.offenders_mark);
    enc_u16(out, h.author_index);
    enc_bytes(out, &h.entropy_source);
    enc_bytes(out, &h.seal);
    proof {
        assert(out@ =~= o + enc_header_spec(*h));
    }
}

/// Append an extrinsic.
#[verifier::rlimit(60)]
fn enc_extrinsic(out: &mut Vec<u8>, e: &Extrinsic)
    requires
        extrinsic_encodable(*e),
    ensures
        final(out)@ == old(out)@ + enc_extrinsic_spec(*e),
{
    let ghost o: Seq<u8> = out@;
    enc_ticket_envelopes(out, &e.tickets);
    enc_preimages(out, &e.preimages);
    enc_payloads(out, &e.guarantees);
    enc_payloads(out, &e.assurances);
    match &e.disputes {
        None => out.push(0),
        Some(d) => {
            out.push(1);
            enc_bytes(out, d);
        },
    }
    proof {
        assert(out@ =~= o + enc_extrinsic_spec(*e));
    }
}

/// Whether every length in the extrinsic fits its 32-bit prefix.
#[verifier::loop_isolation(false)]
fn check_extrinsic_encodable(e: &Extrinsic) -> (r: bool)
    ensures
        r <==> extrinsic_encodable(*e),
{
    if e.tickets.len() > MAX_FIELD_LEN || e.preimages.len() > MAX_FIELD_LEN || e.guarantees.len()
        > MAX_FIELD_LEN || e.assurances.len() > MAX_FIELD_LEN {
        return false;
    }
    if let Some(d) = &e.disputes {
        if d.len() > MAX_FIELD_LEN {
            return false;
        }
    }
    let tn = e.tickets.len();
    let mut i: usize = 0;
    while i < tn
        invariant
            0 <= i <= tn,
            forall|j: int| 0 <= j < i ==> (#[trigger] e.tickets@[j]).signature@.len()
                <= 0xFFFF_FFFF,
        decreases tn - i,
    {
        if e.tickets[i].signature.len() > MAX_FIELD_LEN {
            return false;
        }
        i += 1;
    }
    let pn = e.preimages.len();
    let mut i2: usize = 0;
    while i2 < pn
        invariant
            0 <= i2 <= pn,
            forall|j: int| 0 <= j < i2 ==> (#[trigger] e.preimages@[j]).blob@.len() <= 0xFFFF_FFFF,
        decreases pn - i2,
    {
        if e.preimages[i2].blob.len() > MAX_FIELD_LEN {
            return false;
        }
        i2 += 1;
    }
    let gn = e.guarantees.len();
    let mut i3: usize = 0;
    while i3 < gn
        invariant
            0 <= i3 <= gn,
            forall|j: int| 0 <= j < i3 ==> (#[trigger] e.guarantees@[j])@.len() <= 0xFFFF_FFFF,
        decreases gn - i3,
    {
        if e.guarantees[i3].len() > MAX_FIELD_LEN {
            return false;
        }
        i3 += 1;
    }
    let an = e.assurances.len();
    let mut i4: usize = 0;
    while i4 < an
        invariant
            0 <= i4 <= an,
            forall|j: int| 0 <= j < i4 ==> (#[trigger] e.assurances@[j])@.len() <= 0xFFFF_FFFF,
        decreases an - i4,
    {
        if e.assurances[i4].len() > MAX_FIELD_LEN {
            return false;
        }
        i4 += 1;
    }
    true
}

/// Whether every length in the header fits its 32-bit prefix.
fn check_header_encodable(h: &Header) -> (r: bool)
    ensures
        r <==> header_encodable(*h),
{
    if let Some(em) = &h.epoch_mark {
        if em.validators.len() > MAX_FIELD_LEN {
            return false;
        }
    }
    if let Some(tm) = &h.tickets_mark {
        if tm.len() > MAX_FIELD_LEN {
            return false;
        }
    }
    if h.offenders_mark.len() > MAX_FIELD_LEN || h.entropy_source.len() > MAX_FIELD_LEN
        || h.seal.len() > MAX_FIELD_LEN {
        return false;
    }
    true
}

impl Block {
    /// The canonical serialization of the whole block, or `None` when some
    /// length does not fit its 32-bit prefix.
    pub fn canonical_bytes(&self) -> (r: Option<Vec<u8>>)
        ensures
            match r {
                Some(bytes) => block_encodable(*self) && bytes@ == enc_block_spec(*self),
                None => !block_encodable(*self),
            },
    {
        if !check_header_encodable(&self.header) {
            return None;
        }
        if !check_extrinsic_encodable(&self.extrinsic) {
            return None;
        }
        let mut out: Vec<u8> = Vec::new();
        enc_header(&mut out, &self.header);
        enc_extrinsic(&mut out, &self.extrinsic);
        proof {
            assert(out@ =~= enc_block_spec(*self));
        }
        Some(out)
    }
}

impl Extrinsic {
    /// The canonical serialization of the extrinsic, or `None` when some
    /// length does not fit its 32-bit prefix.
    pub fn canonical_bytes(&self) -> (r: Option<Vec<u8>>)
        ensures
            match r {
                Some(bytes) => extrinsic_encodable(*self) && bytes@ == enc_extrinsic_spec(*self),
                None => !extrinsic_encodable(*self),
            },
    {
        if !check_extrinsic_encodable(self) {
            return None;
        }
        let mut out: Vec<u8> = Vec::new();
        enc_extrinsic(&mut out, self);
        proof {
            assert(out@ =~= enc_extrinsic_spec(*self));
        }
        Some(out)
    }

    /// The canonical Blake2b-256 hash of the extrinsic's canonical
    /// serialization, or `None` when the extrinsic cannot be serialized.
    pub fn compute_hash(&self) -> (r: Option<[u8; 32]>)
        ensures
            match r {
                Some(h) => extrinsic_encodable(*self) && h@ == blake2b256_of(
                    enc_extrinsic_spec(*self),
                ),
                None => !extrinsic_encodable(*self),
            },
    {
        match self.canonical_bytes() {
            Some(bytes) => Some(blake2b256(&bytes)),
            None => None,
        }
    }
}

// ---------------------------------------------------------------------------
// The decoder, as mathematical functions from bytes to values. Each decoder
// consumes a prefix of its input and hands back the rest. Hashes and byte
// arrays are decoded as byte sequences, so a decoded block is compared to
// the original field for field at that level.
// ---------------------------------------------------------------------------

pub struct EpochMarkModel {
    pub entropy: Seq<u8>,
    pub tickets_entropy: Seq<u8>,
    pub validators: Seq<Seq<u8>>,
}

pub struct TicketBodyModel {
    pub id: Seq<u8>,
    pub attempt: u8,
}

pub struct TicketEnvelopeModel {
    pub attempt: u8,
    pub signature: Seq<u8>,
}

pub struct PreimageModel {
    pub requester: u32,
    pub blob: Seq<u8>,
}

pub struct HeaderModel {
    pub parent: Seq<u8>,
    pub parent_state_root: Seq<u8>,
    pub extrinsic_hash: Seq<u8>,
    pub slot: u32,
    pub epoch_mark: Option<EpochMarkModel>,
    pub tickets_mark: Option<Seq<TicketBodyModel>>,
    pub offenders_mark: Seq<Seq<u8>>,
    pub author_index: u16,
    pub entropy_source: Seq<u8>,
    pub seal: Seq<u8>,
}

pub struct ExtrinsicModel {
    pub tickets: Seq<TicketEnvelopeModel>,
    pub preimages: Seq<PreimageModel>,
    pub guarantees: Seq<Seq<u8>>,
    pub assurances: Seq<Seq<u8>>,
    pub disputes: Option<Seq<u8>>,
}

pub struct BlockModel {
    pub header: HeaderModel,
    pub extrinsic: ExtrinsicModel,
}

pub open spec fn epoch_mark_model(em: EpochMark) -> EpochMarkModel {
    EpochMarkModel {
        entropy: em.entropy@,
        tickets_entropy: em.tickets_entropy@,
        validators: em.validators@.map(|i: int, h: OpaqueHash| h@),
    }
}

pub open spec fn ticket_body_model(tb: TicketBody) -> TicketBodyModel {
    TicketBodyModel { id: tb.id@, attempt: tb.attempt }
}

pub open spec fn ticket_envelope_model(t: TicketEnvelope) -> TicketEnvelopeModel {
    TicketEnvelopeModel { attempt: t.attempt, signature: t.signature@ }
}

pub open spec fn preimage_model(p: Preimage) -> PreimageModel {
    PreimageModel { requester: p.requester, blob: p.blob@ }
}

pub open spec fn header_model(h: Header) -> HeaderModel {
    HeaderModel {
        parent: h.parent@,
        parent_state_root: h.parent_state_root@,
        extrinsic_hash: h.extrinsic_hash@,
        slot: h.slot,
        epoch_mark: match h.epoch_mark {
            None => None,
            Some(em) => Some(epoch_mark_model(em)),
        },
        tickets_mark: match h.tickets_mark {
            None => None,
            Some(tm) => Some(tm@.map(|i: int, tb: TicketBody| ticket_body_model(tb))),
        },
        offenders_mark: h.offenders_mark@.map(|i: int, x: OpaqueHash| x@),
        author_index: h.author_index,
        entropy_source: h.entropy_source@,
        seal: h.seal@,
    }
}

pub open spec fn extrinsic_model(e: Extrinsic) -> ExtrinsicModel {
    ExtrinsicModel {
        tickets: e.tickets@.map(|i: int, t: TicketEnvelope| ticket_envelope_model(t)),
        preimages: e.preimages@.map(|i: int, p: Preimage| preimage_model(p)),
        guarantees: e.guarantees@.map(|i: int, g: Vec<u8>| g@),
        assurances: e.assurances@.map(|i: int, a: Vec<u8>| a@),
        disputes: match e.disputes {
            None => None,
            Some(d) => Some(d@),
        },
    }
}

pub open spec fn block_model(b: Block) -> BlockModel {
    BlockModel { header: header_model(b.header), extrinsic: extrinsic_model(b.extrinsic) }
}

pub open spec fn dec_u8(b: Seq<u8>) -> Option<(u8, Seq<u8>)> {
    if b.len() >= 1 {
        Some((b[0], b.skip(1)))
    } else {
        None
    }
}

pub open spec fn dec_u16(b: Seq<u8>) -> Option<(u16, Seq<u8>)> {
    if b.len() >= 2 {
        Some(((b[0] + 256 * b[1]) as u16, b.skip(2)))
    } else {
        None
    }
}

pub open spec fn dec_u32(b: Seq<u8>) -> Option<(u32, Seq<u8>)> {
    if b.len() >= 4 {
        Some(((b[0] + 256 * b[1] + 65536 * b[2] + 16777216 * b[3]) as u32, b.skip(4)))
    } else {
        None
    }
}

pub open spec fn dec_bytes(b: Seq<u8>) -> Option<(Seq<u8>, Seq<u8>)> {
    match dec_u32(b) {
        None => None,
        Some((n, r)) => if r.len() >= n {
            Some((r.take(n as int), r.skip(n as int)))
        } else {
            None
        },
    }
}

pub open spec fn dec_hash(b: Seq<u8>) -> Option<(Seq<u8>, Seq<u8>)> {
    if b.len() >= 32 {
        Some((b.take(32), b.skip(32)))
    } else {
        None
    }
}

pub open spec fn dec_hash_items(b: Seq<u8>, n: int) -> Option<(Seq<Seq<u8>>, Seq<u8>)>
    decreases n,
{
    if n <= 0 {
        Some((Seq::empty(), b))
    } else {
        match dec_hash(b) {
            None => None,
            Some((h, r)) => match dec_hash_items(r, n - 1) {
                None => None,
                Some((hs, r2)) => Some((seq![h] + hs, r2)),
            },
        }
    }
}

pub open spec fn dec_hash_list(b: Seq<u8>) -> Option<(Seq<Seq<u8>>, Seq<u8>)> {
    match dec_u32(b) {
        None => None,
        Some((n, r)) => dec_hash_items(r, n as int),
    }
}

pub open spec fn dec_epoch_mark(b: Seq<u8>) -> Option<(EpochMarkModel, Seq<u8>)> {
    match dec_hash(b) {
        None => None,
        Some((entropy, r1)) => match dec_hash(r1) {
            None => None,
            Some((tickets_entropy, r2)) => match dec_hash_list(r2) {
                None => None,
                Some((validators, r3)) => Some(
                    (EpochMarkModel { entropy, tickets_entropy, validators }, r3),
                ),
            },
        },
    }
}

pub open spec fn dec_body_items(b: Seq<u8>, n: int) -> Option<(Seq<TicketBodyModel>, Seq<u8>)>
    decreases n,
{
    if n <= 0 {
        Some((Seq::empty(), b))
    } else {
        match dec_hash(b) {
            None => None,
            Some((id, r1)) => match dec_u8(r1) {
                None => None,
                Some((attempt, r2)) => match dec_body_items(r2, n - 1) {
                    None => None,
                    Some((tbs, r3)) => Some((seq![TicketBodyModel { id, attempt }] + tbs, r3)),
                },
            },
        }
    }
}

pub open spec fn dec_env_items(b: Seq<u8>, n: int) -> Option<(Seq<TicketEnvelopeModel>, Seq<u8>)>
    decreases n,
{
    if n <= 0 {
        Some((Seq::empty(), b))
    } else {
        match dec_u8(b) {
            None => None,
            Some((attempt, r1)) => match dec_bytes(r1) {
                None => None,
                Some((signature, r2)) => match dec_env_items(r2, n - 1) {
                    None => None,
                    Some((ts, r3)) => Some(
                        (seq![TicketEnvelopeModel { attempt, signature }] + ts, r3),
                    ),
                },
            },
        }
    }
}

pub open spec fn dec_preimage_items(b: Seq<u8>, n: int) -> Option<(Seq<PreimageModel>, Seq<u8>)>
    decreases n,
{
    if n <= 0 {
        Some((Seq::empty(), b))
    } else {
        match dec_u32(b) {
            None => None,
            Some((requester, r1)) => match dec_bytes(r1) {
                None => None,
                Some((blob, r2)) => match dec_preimage_items(r2, n - 1) {
                    None => None,
                    Some((ps, r3)) => Some((seq![PreimageModel { requester, blob }] + ps, r3)),
                },
            },
        }
    }
}

pub open spec fn dec_payload_items(b: Seq<u8>, n: int) -> Option<(Seq<Seq<u8>>, Seq<u8>)>
    decreases n,
{
    if n <= 0 {
        Some((Seq::empty(), b))
    } else {
        match dec_bytes(b) {
            None => None,
            Some((p, r1)) => match dec_payload_items(r1, n - 1) {
                None => None,
                Some((ps, r2)) => Some((seq![p] + ps, r2)),
            },
        }
    }
}

pub open spec fn dec_header(b: Seq<u8>) -> Option<(HeaderModel, Seq<u8>)> {
    match dec_hash(b) {
        None => None,
        Some((parent, r1)) => match dec_hash(r1) {
            None => None,
            Some((parent_state_root, r2)) => match dec_hash(r2) {
                None => None,
                Some((extrinsic_hash, r3)) => match dec_u32(r3) {
                    None => None,
                    Some((slot, r4)) => match dec_u8(r4) {
                        None => None,
                        Some((em_tag, r5)) => {
                            let em_dec: Option<(Option<EpochMarkModel>, Seq<u8>)> = if em_tag == 0 {
                                Some((None, r5))
                            } else if em_tag == 1 {
                                match dec_epoch_mark(r5) {
                                    None => None,
                                    Some((em, r6)) => Some((Some(em), r6)),
                                }
                            } else {
                                None
                            };
                            match em_dec {
                                None => None,
                                Some((epoch_mark, r6)) => match dec_u8(r6) {
                                    None => None,
                                    Some((tm_tag, r7)) => {
                                        let tm_dec: Option<
                                            (Option<Seq<TicketBodyModel>>, Seq<u8>),
                                        > = if tm_tag == 0 {
                                            Some((None, r7))
                                        } else if tm_tag == 1 {
                                            match dec_u32(r7) {
                                                None => None,
                                                Some((n, r8)) => match dec_body_items(
                                                    r8,
                                                    n as int,
                                                ) {
                                                    None => None,
                                                    Some((tbs, r9)) => Some((Some(tbs), r9)),
                                                },
                                            }
                                        } else {
                                            None
                                        };
                                        match tm_dec {
                                            None => None,
                                            Some((tickets_mark, r9)) => match dec_hash_list(r9) {
                                                None => None,
                                                Some((offenders_mark, r10)) => match dec_u16(
                                                    r10,
                                                ) {
                                                    None => None,
                                                    Some((author_index, r11)) => match dec_bytes(
                                                        r11,
                                                    ) {
                                                        None => None,
                                                        Some((entropy_source, r12)) => match
                                                            dec_bytes(r12) {
                                                            None => None,
                                                            Some((seal, r13)) => Some(
                                                                (
                                                                    HeaderModel {
                                                                        parent,
                                                                        parent_state_root,
                                                                        extrinsic_hash,
                                                                        slot,
                                                                        epoch_mark,
                                                                        tickets_mark,
                                                                        offenders_mark,
                                                                        author_index,
                                                                        entropy_source,
                                                                        seal,
                                                                    },
                                                                    r13,
                                                                ),
                                                            ),
                                                        },
                                                    },
                                                },
                                            },
                                        }
                                    },
                                },
                            }
                        },
                    },
                },
            },
        },
    }
}

pub open spec fn dec_extrinsic(b: Seq<u8>) -> Option<(ExtrinsicModel, Seq<u8>)> {
    match dec_u32(b) {
        None => None,
        Some((tn, r1)) => match dec_env_items(r1, tn as int) {
            None => None,
            Some((tickets, r2)) => match dec_u32(r2) {
                None => None,
                Some((pn, r3)) => match dec_preimage_items(r3, pn as int) {
                    None => None,
                    Some((preimages, r4)) => match dec_u32(r4) {
                        None => None,
                        Some((gn, r5)) => match dec_payload_items(r5, gn as int) {
                            None => None,
                            Some((guarantees, r6)) => match dec_u32(r6) {
                                None => None,
                                Some((an, r7)) => match dec_payload_items(r7, an as int) {
                                    None => None,
                                    Some((assurances, r8)) => match dec_u8(r8) {
                                        None => None,
                                        Some((d_tag, r9)) => if d_tag == 0 {
                                            Some(
                                                (
                                                    ExtrinsicModel {
                                                        tickets,
                                                        preimages,
                                                        guarantees,
                                                        assurances,
                                                        disputes: None,
                                                    },
                                                    r9,
                                                ),
                                            )
                                        } else if d_tag == 1 {
                                            match dec_bytes(r9) {
                                                None => None,
                                                Some((d, r10)) => Some(
                                                    (
                                                        ExtrinsicModel {
                                                            tickets,
                                                            preimages,
                                                            guarantees,
                                                            assurances,
                                                            disputes: Some(d),
                                                        },
                                                        r10,
                                                    ),
                                                ),
                                            }
                                        } else {
                                            None
                                        },
                                    },
                                },
                            },
                        },
                    },
                },
            },
        },
    }
}

pub open spec fn dec_block(b: Seq<u8>) -> Option<(BlockModel, Seq<u8>)> {
    match dec_header(b) {
        None => None,
        Some((h, r1)) => match dec_extrinsic(r1) {
            None => None,
            Some((e, r2)) => Some((BlockModel { header: h, extrinsic: e }, r2)),
        },
    }
}

// ---------------------------------------------------------------------------
// Round trip: decoding an encoding yields the value back, with the trailing
// bytes untouched.
// ---------------------------------------------------------------------------

broadcast use crate::schema::lemma_opaque_hash_len;

proof fn lemma_concat_assoc(a: Seq<u8>, b: Seq<u8>, c: Seq<u8>)
    ensures
        (a + b) + c == a + (b + c),
{
    assert((a + b) + c =~= a + (b + c));
}

proof fn lemma_dec_u8(x: u8, rest: Seq<u8>)
    ensures
        dec_u8(seq![x] + rest) == Some((x, rest)),
{
    assert((seq![x] + rest)[0] == x);
    assert((seq![x] + rest).skip(1) =~= rest);
}

proof fn lemma_dec_u16(x: u16, rest: Seq<u8>)
    ensures
        dec_u16(enc_u16_spec(x) + rest) == Some((x, rest)),
{
    let b = enc_u16_spec(x) + rest;
    assert(b[0] == x % 256 && b[1] == (x / 256) % 256);
    assert(x / 256 < 256);
    assert(x == x % 256 + 256 * (x / 256));
    assert(b.skip(2) =~= rest);
}

proof fn lemma_dec_u32(x: u32, rest: Seq<u8>)
    ensures
        dec_u32(enc_u32_spec(x) + rest) == Some((x, rest)),
{
    let b = enc_u32_spec(x) + rest;
    assert(b[0] == x % 256 && b[1] == (x / 256) % 256 && b[2] == (x / 65536) % 256 && b[3] == (x
        / 16777216) % 256);
    assert(x / 16777216 < 256);
    assert(x == x % 256 + 256 * ((x / 256) % 256) + 65536 * ((x / 65536) % 256) + 16777216 * (x
        / 16777216)) by {
        assert(x == x % 256 + 256 * (x / 256));
        assert(x / 256 == (x / 256) % 256 + 256 * (x / 65536)) by {
            assert(x / 256 / 256 == x / 65536) by (nonlinear_arith);
            assert(x / 256 == (x / 256) % 256 + 256 * (x / 256 / 256));
        }
        assert(x / 65536 == (x / 65536) % 256 + 256 * (x / 16777216)) by {
            assert(x / 65536 / 256 == x / 16777216) by (nonlinear_arith);
            assert(x / 65536 == (x / 65536) % 256 + 256 * (x / 65536 / 256));
        }
    }
    assert(b.skip(4) =~= rest);
}

proof fn lemma_dec_bytes(s: Seq<u8>, rest: Seq<u8>)
    requires
        s.len() <= 0xFFFF_FFFF,
    ensures
        dec_bytes(enc_bytes_spec(s) + rest) == Some((s, rest)),
{
    lemma_concat_assoc(enc_u32_spec(s.len() as u32), s, rest);
    lemma_dec_u32(s.len() as u32, s + rest);
    assert((s + rest).take(s.len() as int) =~= s);
    assert((s + rest).skip(s.len() as int) =~= rest);
}

proof fn lemma_dec_hash(h: OpaqueHash, rest: Seq<u8>)
    ensures
        dec_hash(h@ + rest) == Some((h@, rest)),
{
    assert((h@ + rest).take(32) =~= h@);
    assert((h@ + rest).skip(32) =~= rest);
}

proof fn lemma_cat_hashes_first(hs: Seq<OpaqueHash>)
    requires
        hs.len() > 0,
    ensures
        cat_hashes(hs) == hs.first()@ + cat_hashes(hs.drop_first()),
    decreases hs.len(),
{
    if hs.len() == 1 {
        assert(hs.drop_last() =~= Seq::<OpaqueHash>::empty());
        assert(hs.drop_first() =~= Seq::<OpaqueHash>::empty());
        assert(cat_hashes(hs) =~= hs.first()@ + cat_hashes(hs.drop_first()));
    } else {
        lemma_cat_hashes_first(hs.drop_last());
        assert(hs.drop_last().first() == hs.first());
        assert(hs.drop_last().drop_first() =~= hs.drop_first().drop_last());
        assert(hs.drop_first().last() == hs.last());
        assert(cat_hashes(hs) == (hs.first()@ + cat_hashes(hs.drop_first().drop_last()))
            + hs.last()@);
        lemma_concat_assoc(hs.first()@, cat_hashes(hs.drop_first().drop_last()), hs.last()@);
        assert(cat_hashes(hs.drop_first()) == cat_hashes(hs.drop_first().drop_last())
            + hs.drop_first().last()@);
    }
}

proof fn lemma_dec_hash_items(hs: Seq<OpaqueHash>, rest: Seq<u8>)
    ensures
        dec_hash_items(cat_hashes(hs) + rest, hs.len() as int) == Some(
            (hs.map(|i: int, h: OpaqueHash| h@), rest),
        ),
    decreases hs.len(),
{
    if hs.len() == 0 {
        assert(cat_hashes(hs) + rest =~= rest);
        assert(hs.map(|i: int, h: OpaqueHash| h@) =~= Seq::<Seq<u8>>::empty());
    } else {
        lemma_cat_hashes_first(hs);
        lemma_concat_assoc(hs.first()@, cat_hashes(hs.drop_first()), rest);
        lemma_dec_hash(hs.first(), cat_hashes(hs.drop_first()) + rest);
        lemma_dec_hash_items(hs.drop_first(), rest);
        assert(hs.map(|i: int, h: OpaqueHash| h@) =~= seq![hs.first()@] + hs.drop_first().map(
            |i: int, h: OpaqueHash| h@,
        ));
    }
}

proof fn lemma_dec_hash_list(hs: Seq<OpaqueHash>, rest: Seq<u8>)
    requires
        hs.len() <= 0xFFFF_FFFF,
    ensures
        dec_hash_list((enc_u32_spec(hs.len() as u32) + cat_hashes(hs)) + rest) == Some(
            (hs.map(|i: int, h: OpaqueHash| h@), rest),
        ),
{
    lemma_concat_assoc(enc_u32_spec(hs.len() as u32), cat_hashes(hs), rest);
    lemma_dec_u32(hs.len() as u32, cat_hashes(hs) + rest);
    lemma_dec_hash_items(hs, rest);
}

proof fn lemma_cat_bodies_first(tbs: Seq<TicketBody>)
    requires
        tbs.len() > 0,
    ensures
        cat_ticket_bodies(tbs) == enc_ticket_body_spec(tbs.first()) + cat_ticket_bodies(
            tbs.drop_first(),
        ),
    decreases tbs.len(),
{
    if tbs.len() == 1 {
        assert(tbs.drop_last() =~= Seq::<TicketBody>::empty());
        assert(tbs.drop_first() =~= Seq::<TicketBody>::empty());
        assert(cat_ticket_bodies(tbs) =~= enc_ticket_body_spec(tbs.first()) + cat_ticket_bodies(
            tbs.drop_first(),
        ));
    } else {
        lemma_cat_bodies_first(tbs.drop_last());
        assert(tbs.drop_last().first() == tbs.first());
        assert(tbs.drop_last().drop_first() =~= tbs.drop_first().drop_last());
        assert(tbs.drop_first().last() == tbs.last());
        lemma_concat_assoc(
            enc_ticket_body_spec(tbs.first()),
            cat_ticket_bodies(tbs.drop_first().drop_last()),
            enc_ticket_body_spec(tbs.last()),
        );
    }
}

proof fn lemma_dec_body_items(tbs: Seq<TicketBody>, rest: Seq<u8>)
    ensures
        dec_body_items(cat_ticket_bodies(tbs) + rest, tbs.len() as int) == Some(
            (tbs.map(|i: int, tb: TicketBody| ticket_body_model(tb)), rest),
        ),
    decreases tbs.len(),
{
    if tbs.len() == 0 {
        assert(cat_ticket_bodies(tbs) + rest =~= rest);
        assert(tbs.map(|i: int, tb: TicketBody| ticket_body_model(tb)) =~= Seq::<
            TicketBodyModel,
        >::empty());
    } else {
        let tb = tbs.first();
        lemma_cat_bodies_first(tbs);
        lemma_concat_assoc(
            enc_ticket_body_spec(tb),
            cat_ticket_bodies(tbs.drop_first()),
            rest,
        );
        let tail = cat_ticket_bodies(tbs.drop_first()) + rest;
        lemma_concat_assoc(tb.id@, seq![tb.attempt], tail);
        lemma_dec_hash(tb.id, seq![tb.attempt] + tail);
        lemma_dec_u8(tb.attempt, tail);
        lemma_dec_body_items(tbs.drop_first(), rest);
        assert(tbs.map(|i: int, x: TicketBody| ticket_body_model(x)) =~= seq![
            ticket_body_model(tb),
        ] + tbs.drop_first().map(|i: int, x: TicketBody| ticket_body_model(x)));
    }
}

proof fn lemma_cat_envelopes_first(ts: Seq<TicketEnvelope>)
    requires
        ts.len() > 0,
    ensures
        cat_ticket_envelopes(ts) == enc_ticket_envelope_spec(ts.first()) + cat_ticket_envelopes(
            ts.drop_first(),
        ),
    decreases ts.len(),
{
    if ts.len() == 1 {
        assert(ts.drop_last() =~= Seq::<TicketEnvelope>::empty());
        assert(ts.drop_first() =~= Seq::<TicketEnvelope>::empty());
        assert(cat_ticket_envelopes(ts) =~= enc_ticket_envelope_spec(ts.first())
            + cat_ticket_envelopes(ts.drop_first()));
    } else {
        lemma_cat_envelopes_first(ts.drop_last());
        assert(ts.drop_last().first() == ts.first());
        assert(ts.drop_last().drop_first() =~= ts.drop_first().drop_last());
        assert(ts.drop_first().last() == ts.last());
        lemma_concat_assoc(
            enc_ticket_envelope_spec(ts.first()),
            cat_ticket_envelopes(ts.drop_first().drop_last()),
            enc_ticket_envelope_spec(ts.last()),
        );
    }
}

proof fn lemma_dec_env_items(ts: Seq<TicketEnvelope>, rest: Seq<u8>)
    requires
        forall|i: int| 0 <= i < ts.len() ==> (#[trigger] ts[i]).signature@.len() <= 0xFFFF_FFFF,
    ensures
        dec_env_items(cat_ticket_envelopes(ts) + rest, ts.len() as int) == Some(
            (ts.map(|i: int, t: TicketEnvelope| ticket_envelope_model(t)), rest),
        ),
    decreases ts.len(),
{
    if ts.len() == 0 {
        assert(cat_ticket_envelopes(ts) + rest =~= rest);
        assert(ts.map(|i: int, t: TicketEnvelope| ticket_envelope_model(t)) =~= Seq::<
            TicketEnvelopeModel,
        >::empty());
    } else {
        let t = ts.first();
        assert(ts[0] == t);
        lemma_cat_envelopes_first(ts);
        lemma_concat_assoc(
            enc_ticket_envelope_spec(t),
            cat_ticket_envelopes(ts.drop_first()),
            rest,
        );
        let tail = cat_ticket_envelopes(ts.drop_first()) + rest;
        lemma_concat_assoc(seq![t.attempt], enc_bytes_spec(t.signature@), tail);
        lemma_dec_u8(t.attempt, enc_bytes_spec(t.signature@) + tail);
        lemma_dec_bytes(t.signature@, tail);
        assert forall|i: int|
            0 <= i < ts.drop_first().len() implies (#[trigger] ts.drop_first()[
            i
        ]).signature@.len() <= 0xFFFF_FFFF by {
            assert(ts.drop_first()[i] == ts[i + 1]);
        }
        lemma_dec_env_items(ts.drop_first(), rest);
        assert(ts.map(|i: int, x: TicketEnvelope| ticket_envelope_model(x)) =~= seq![
            ticket_envelope_model(t),
        ] + ts.drop_first().map(|i: int, x: TicketEnvelope| ticket_envelope_model(x)));
    }
}

proof fn lemma_cat_preimages_first(ps: Seq<Preimage>)
    requires
        ps.len() > 0,
    ensures
        cat_preimages(ps) == enc_preimage_spec(ps.first()) + cat_preimages(ps.drop_first()),
    decreases ps.len(),
{
    if ps.len() == 1 {
        assert(ps.drop_last() =~= Seq::<Preimage>::empty());
        assert(ps.drop_first() =~= Seq::<Preimage>::empty());
        assert(cat_preimages(ps) =~= enc_preimage_spec(ps.first()) + cat_preimages(
            ps.drop_first(),
        ));
    } else {
        lemma_cat_preimages_first(ps.drop_last());
        assert(ps.drop_last().first() == ps.first());
        assert(ps.drop_last().drop_first() =~= ps.drop_first().drop_last());
        assert(ps.drop_first().last() == ps.last());
        lemma_concat_assoc(
            enc_preimage_spec(ps.first()),
            cat_preimages(ps.drop_first().drop_last()),
            enc_preimage_spec(ps.last()),
        );
    }
}

#[verifier::rlimit(60)]
proof fn lemma_dec_preimage_items(ps: Seq<Preimage>, rest: Seq<u8>)
    requires
        forall|i: int| 0 <= i < ps.len() ==> (#[trigger] ps[i]).blob@.len() <= 0xFFFF_FFFF,
    ensures
        dec_preimage_items(cat_preimages(ps) + rest, ps.len() as int) == Some(
            (ps.map(|i: int, p: Preimage| preimage_model(p)), rest),
        ),
    decreases ps.len(),
{
    if ps.len() == 0 {
        assert(cat_preimages(ps) + rest =~= rest);
        assert(ps.map(|i: int, p: Preimage| preimage_model(p)) =~= Seq::<PreimageModel>::empty());
    } else {
        let p = ps.first();
        assert(ps[0] == p);
        lemma_cat_preimages_first(ps);
        lemma_concat_assoc(enc_preimage_spec(p), cat_preimages(ps.drop_first()), rest);
        let tail = cat_preimages(ps.drop_first()) + rest;
        lemma_concat_assoc(enc_u32_spec(p.requester), enc_bytes_spec(p.blob@), tail);
        lemma_dec_u32(p.requester, enc_bytes_spec(p.blob@) + tail);
        lemma_dec_bytes(p.blob@, tail);
        assert forall|i: int| 0 <= i < ps.drop_first().len() implies (#[trigger] ps.drop_first()[
            i
        ]).blob@.len() <= 0xFFFF_FFFF by {
            assert(ps.drop_first()[i] == ps[i + 1]);
        }
        lemma_dec_preimage_items(ps.drop_first(), rest);
        assert(ps.map(|i: int, x: Preimage| preimage_model(x)) =~= seq![preimage_model(p)]
            + ps.drop_first().map(|i: int, x: Preimage| preimage_model(x)));
    }
}

proof fn lemma_cat_payloads_first(ps: Seq<Vec<u8>>)
    requires
        ps.len() > 0,
    ensures
        cat_payloads(ps) == enc_bytes_spec(ps.first()@) + cat_payloads(ps.drop_first()),
    decreases ps.len(),
{
    if ps.len() == 1 {
        assert(ps.drop_last() =~= Seq::<Vec<u8>>::empty());
        assert(ps.drop_first() =~= Seq::<Vec<u8>>::empty());
        assert(cat_payloads(ps) =~= enc_bytes_spec(ps.first()@) + cat_payloads(ps.drop_first()));
    } else {
        lemma_cat_payloads_first(ps.drop_last());
        assert(ps.drop_last().first() == ps.first());
        assert(ps.drop_last().drop_first() =~= ps.drop_first().drop_last());
        assert(ps.drop_first().last() == ps.last());
        lemma_concat_assoc(
            enc_bytes_spec(ps.first()@),
            cat_payloads(ps.drop_first().drop_last()),
            enc_bytes_spec(ps.last()@),
        );
    }
}

proof fn lemma_dec_payload_items(ps: Seq<Vec<u8>>, rest: Seq<u8>)
    requires
        forall|i: int| 0 <= i < ps.len() ==> (#[trigger] ps[i])@.len() <= 0xFFFF_FFFF,
    ensures
        dec_payload_items(cat_payloads(ps) + rest, ps.len() as int) == Some(
            (ps.map(|i: int, p: Vec<u8>| p@), rest),
        ),
    decreases ps.len(),
{
    if ps.len() == 0 {
        assert(cat_payloads(ps) + rest =~= rest);
        assert(ps.map(|i: int, p: Vec<u8>| p@) =~= Seq::<Seq<u8>>::empty());
    } else {
        let p = ps.first();
        assert(ps[0] == p);
        lemma_cat_payloads_first(ps);
        lemma_concat_assoc(enc_bytes_spec(p@), cat_payloads(ps.drop_first()), rest);
        lemma_dec_bytes(p@, cat_payloads(ps.drop_first()) + rest);
        assert forall|i: int| 0 <= i < ps.drop_first().len() implies (#[trigger] ps.drop_first()[
            i
        ])@.len() <= 0xFFFF_FFFF by {
            assert(ps.drop_first()[i] == ps[i + 1]);
        }
        lemma_dec_payload_items(ps.drop_first(), rest);
        assert(ps.map(|i: int, x: Vec<u8>| x@) =~= seq![p@] + ps.drop_first().map(
            |i: int, x: Vec<u8>| x@,
        ));
    }
}

proof fn lemma_dec_epoch_mark(em: EpochMark, rest: Seq<u8>)
    requires
        em.validators@.len() <= 0xFFFF_FFFF,
    ensures
        dec_epoch_mark(enc_epoch_mark_spec(em) + rest) == Some((epoch_mark_model(em), rest)),
{
    let vl = enc_u32_spec(em.validators@.len() as u32);
    let vc = cat_hashes(em.validators@);
    lemma_concat_assoc(em.entropy@ + em.tickets_entropy@ + vl, vc, rest);
    lemma_concat_assoc(em.entropy@ + em.tickets_entropy@, vl, vc + rest);
    lemma_concat_assoc(em.entropy@, em.tickets_entropy@, vl + (vc + rest));
    lemma_dec_hash(em.entropy, em.tickets_entropy@ + (vl + (vc + rest)));
    lemma_dec_hash(em.tickets_entropy, vl + (vc + rest));
    lemma_concat_assoc(vl, vc, rest);
    lemma_dec_hash_list(em.validators@, rest);
}

#[verifier::rlimit(100)]
proof fn lemma_dec_header(h: Header, rest: Seq<u8>)
    requires
        header_encodable(h),
    ensures
        dec_header(enc_header_spec(h) + rest) == Some((header_model(h), rest)),
{
    let em_part = match h.epoch_mark {
        None => seq![0u8],
        Some(em) => seq![1u8] + enc_epoch_mark_spec(em),
    };
    let tm_part = match h.tickets_mark {
        None => seq![0u8],
        Some(tm) => seq![1u8] + enc_u32_spec(tm@.len() as u32) + cat_ticket_bodies(tm@),
    };
    let offl = enc_u32_spec(h.offenders_mark@.len() as u32);
    let offc = cat_hashes(h.offenders_mark@);
    let ai = enc_u16_spec(h.author_index);
    let es = enc_bytes_spec(h.entropy_source@);
    let seal = enc_bytes_spec(h.seal@);
    let p1 = h.parent@;
    let p2 = h.parent_state_root@;
    let p3 = h.extrinsic_hash@;
    let sl = enc_u32_spec(h.slot);

    let a1 = p1 + p2;
    let a2 = a1 + p3;
    let a3 = a2 + sl;
    let a4 = a3 + em_part;
    let a5 = a4 + tm_part;
    let a6 = a5 + offl;
    let a7 = a6 + offc;
    let a8 = a7 + ai;
    let a9 = a8 + es;
    assert(enc_header_spec(h) == a9 + seal);

    let s1 = seal + rest;
    let s2 = es + s1;
    let s3 = ai + s2;
    let s4 = offc + s3;
    let s5 = offl + s4;
    let s6 = tm_part + s5;
    let s7 = em_part + s6;
    let s8 = sl + s7;
    let s9 = p3 + s8;
    let s10 = p2 + s9;

    lemma_concat_assoc(a9, seal, rest);
    lemma_concat_assoc(a8, es, s1);
    lemma_concat_assoc(a7, ai, s2);
    lemma_concat_assoc(a6, offc, s3);
    lemma_concat_assoc(a5, offl, s4);
    lemma_concat_assoc(a4, tm_part, s5);
    lemma_concat_assoc(a3, em_part, s6);
    lemma_concat_assoc(a2, sl, s7);
    lemma_concat_assoc(a1, p3, s8);
    lemma_concat_assoc(p1, p2, s9);
    assert(enc_header_spec(h) + rest == p1 + s10);

    lemma_dec_hash(h.parent, s10);
    lemma_dec_hash(h.parent_state_root, s9);
    lemma_dec_hash(h.extrinsic_hash, s8);
    lemma_dec_u32(h.slot, s7);

    match h.epoch_mark {
        None => {
            lemma_dec_u8(0, s6);
        },
        Some(em) => {
            lemma_concat_assoc(seq![1u8], enc_epoch_mark_spec(em), s6);
            lemma_dec_u8(1, enc_epoch_mark_spec(em) + s6);
            lemma_dec_epoch_mark(em, s6);
        },
    }

    match h.tickets_mark {
        None => {
            lemma_dec_u8(0, s5);
        },
        Some(tm) => {
            let tl = enc_u32_spec(tm@.len() as u32);
            let tc = cat_ticket_bodies(tm@);
            lemma_concat_assoc(seq![1u8] + tl, tc, s5);
            lemma_concat_assoc(seq![1u8], tl, tc + s5);
            lemma_dec_u8(1, tl + (tc + s5));
            lemma_dec_u32(tm@.len() as u32, tc + s5);
            lemma_dec_body_items(tm@, s5);
        },
    }

    lemma_concat_assoc(offl, offc, s3);
    lemma_dec_hash_list(h.offenders_mark@, s3);
    lemma_dec_u16(h.author_index, s2);
    lemma_dec_bytes(h.entropy_source@, s1);
    lemma_dec_bytes(h.seal@, rest);
}

proof fn lemma_dec_extrinsic(e: Extrinsic, rest: Seq<u8>)
    requires
        extrinsic_encodable(e),
    ensures
        dec_extrinsic(enc_extrinsic_spec(e) + rest) == Some((extrinsic_model(e), rest)),
{
    let d_part = match e.disputes {
        None => seq![0u8],
        Some(d) => seq![1u8] + enc_bytes_spec(d@),
    };
    let tl = enc_u32_spec(e.tickets@.len() as u32);
    let tc = cat_ticket_envelopes(e.tickets@);
    let pl = enc_u32_spec(e.preimages@.len() as u32);
    let pc = cat_preimages(e.preimages@);
    let gl = enc_u32_spec(e.guarantees@.len() as u32);
    let gc = cat_payloads(e.guarantees@);
    let al = enc_u32_spec(e.assurances@.len() as u32);
    let ac = cat_payloads(e.assurances@);

    let a1 = tl + tc;
    let a2 = a1 + pl;
    let a3 = a2 + pc;
    let a4 = a3 + gl;
    let a5 = a4 + gc;
    let a6 = a5 + al;
    let a7 = a6 + ac;
    assert(enc_extrinsic_spec(e) == a7 + d_part);

    let s1 = d_part + rest;
    let s2 = ac + s1;
    let s3 = al + s2;
    let s4 = gc + s3;
    let s5 = gl + s4;
    let s6 = pc + s5;
    let s7 = pl + s6;
    let s8 = tc + s7;

    lemma_concat_assoc(a7, d_part, rest);
    lemma_concat_assoc(a6, ac, s1);
    lemma_concat_assoc(a5, al, s2);
    lemma_concat_assoc(a4, gc, s3);
    lemma_concat_assoc(a3, gl, s4);
    lemma_concat_assoc(a2, pc, s5);
    lemma_concat_assoc(a1, pl, s6);
    lemma_concat_assoc(tl, tc, s7);
    assert(enc_extrinsic_spec(e) + rest == tl + s8);

    lemma_dec_u32(e.tickets@.len() as u32, s8);
    lemma_dec_env_items(e.tickets@, s7);
    lemma_dec_u32(e.preimages@.len() as u32, s6);
    lemma_dec_preimage_items(e.preimages@, s5);
    lemma_dec_u32(e.guarantees@.len() as u32, s4);
    lemma_dec_payload_items(e.guarantees@, s3);
    lemma_dec_u32(e.assurances@.len() as u32, s2);
    lemma_dec_payload_items(e.assurances@, s1);

    match e.disputes {
        None => {
            lemma_dec_u8(0, rest);
        },
        Some(d) => {
            lemma_concat_assoc(seq![1u8], enc_bytes_spec(d@), rest);
            lemma_dec_u8(1, enc_bytes_spec(d@) + rest);
            lemma_dec_bytes(d@, rest);
        },
    }
}

// ---------------------------------------------------------------------------
// The executable decoder, verified against the mathematical one.
// ---------------------------------------------------------------------------

fn dec_u8_exec<'a>(b: &'a [u8]) -> (r: Option<(u8, &'a [u8])>)
    ensures
        match r {
            Some((x, rest)) => dec_u8(b@) == Some((x, rest@)),
            None => dec_u8(b@) is None,
        },
{
    if b.len() < 1 {
        return None;
    }
    Some((b[0], slice_subrange(b, 1, b.len())))
}

fn dec_u16_exec<'a>(b: &'a [u8]) -> (r: Option<(u16, &'a [u8])>)
    ensures
        match r {
            Some((x, rest)) => dec_u16(b@) == Some((x, rest@)),
            None => dec_u16(b@) is None,
        },
{
    if b.len() < 2 {
        return None;
    }
    let x: u16 = b[0] as u16 + 256 * (b[1] as u16);
    Some((x, slice_subrange(b, 2, b.len())))
}

fn dec_u32_exec<'a>(b: &'a [u8]) -> (r: Option<(u32, &'a [u8])>)
    ensures
        match r {
            Some((x, rest)) => dec_u32(b@) == Some((x, rest@)),
            None => dec_u32(b@) is None,
        },
{
    if b.len() < 4 {
        return None;
    }
    let x: u32 = b[0] as u32 + 256 * (b[1] as u32) + 65536 * (b[2] as u32) + 16777216 * (b[3]
        as u32);
    Some((x, slice_subrange(b, 4, b.len())))
}

#[verifier::loop_isolation(false)]
fn dec_bytes_exec<'a>(b: &'a [u8]) -> (r: Option<(Vec<u8>, &'a [u8])>)
    ensures
        match r {
            Some((v, rest)) => dec_bytes(b@) == Some((v@, rest@)),
            None => dec_bytes(b@) is None,
        },
{
    let (n, r1) = dec_u32_exec(b)?;
    let n = n as usize;
    if r1.len() < n {
        return None;
    }
    let body = slice_subrange(r1, 0, n);
    let v = vstd::slice::slice_to_vec(body);
    proof {
        assert(v@ =~= r1@.take(n as int));
    }
    Some((v, slice_subrange(r1, n, r1.len())))
}

fn dec_hash_exec<'a>(b: &'a [u8]) -> (r: Option<(OpaqueHash, &'a [u8])>)
    ensures
        match r {
            Some((h, rest)) => dec_hash(b@) == Some((h@, rest@)),
            None => dec_hash(b@) is None,
        },
{
    if b.len() < 32 {
        return None;
    }
    let head = slice_subrange(b, 0, 32);
    let arr = match crate::bytes32_from_slice(head) {
        Some(a) => a,
        None => {
            proof {
                assert(false);
            }
            return None;
        },
    };
    Some((OpaqueHash::new(arr), slice_subrange(b, 32, b.len())))
}

#[verifier::loop_isolation(false)]
fn dec_hashes_exec<'a>(b: &'a [u8], n: u32) -> (r: Option<(Vec<OpaqueHash>, &'a [u8])>)
    ensures
        match r {
            Some((hs, rest)) => dec_hash_items(b@, n as int) == Some(
                (hs@.map(|i: int, h: OpaqueHash| h@), rest@),
            ),
            None => dec_hash_items(b@, n as int) is None,
        },
{
    let mut acc: Vec<OpaqueHash> = Vec::new();
    let mut cur: &[u8] = b;
    let mut k: u32 = 0;
    proof {
        let ghost d = dec_hash_items(b@, n as int);
        if d is Some {
            assert(acc@.map(|i: int, h: OpaqueHash| h@) + d->Some_0.0 =~= d->Some_0.0);
        }
    }
    while k < n
        invariant
            0 <= k <= n,
            match dec_hash_items(cur@, n - k) {
                Some((hs, rest)) => dec_hash_items(b@, n as int) == Some(
                    (acc@.map(|i: int, h: OpaqueHash| h@) + hs, rest),
                ),
                None => dec_hash_items(b@, n as int) is None,
            },
        decreases n - k,
    {
        let ghost accmap0 = acc@.map(|i: int, h: OpaqueHash| h@);
        let (x, rest) = match dec_hash_exec(cur) {
            Some(p) => p,
            None => {
                return None;
            },
        };
        acc.push(x);
        proof {
            assert(acc@.map(|i: int, h: OpaqueHash| h@) =~= accmap0.push(x@));
        }
        cur = rest;
        k = k + 1;
        proof {
            let ghost d = dec_hash_items(cur@, n - k);
            if d is Some {
                assert(accmap0 + (seq![x@] + d->Some_0.0) =~= accmap0.push(x@) + d->Some_0.0);
            }
        }
    }
    proof {
        assert(acc@.map(|i: int, h: OpaqueHash| h@) + Seq::<Seq<u8>>::empty() =~= acc@.map(
            |i: int, h: OpaqueHash| h@,
        ));
    }
    Some((acc, cur))
}

#[verifier::loop_isolation(false)]
fn dec_bodies_exec<'a>(b: &'a [u8], n: u32) -> (r: Option<(Vec<TicketBody>, &'a [u8])>)
    ensures
        match r {
            Some((tbs, rest)) => dec_body_items(b@, n as int) == Some(
                (tbs@.map(|i: int, tb: TicketBody| ticket_body_model(tb)), rest@),
            ),
            None => dec_body_items(b@, n as int) is None,
        },
{
    let mut acc: Vec<TicketBody> = Vec::new();
    let mut cur: &[u8] = b;
    let mut k: u32 = 0;
    proof {
        let ghost d = dec_body_items(b@, n as int);
        if d is Some {
            assert(acc@.map(|i: int, tb: TicketBody| ticket_body_model(tb)) + d->Some_0.0
                =~= d->Some_0.0);
        }
    }
    while k < n
        invariant
            0 <= k <= n,
            match dec_body_items(cur@, n - k) {
                Some((tbs, rest)) => dec_body_items(b@, n as int) == Some(
                    (acc@.map(|i: int, tb: TicketBody| ticket_body_model(tb)) + tbs, rest),
                ),
                None => dec_body_items(b@, n as int) is None,
            },
        decreases n - k,
    {
        let ghost accmap0 = acc@.map(|i: int, tb: TicketBody| ticket_body_model(tb));
        let (id, r1) = match dec_hash_exec(cur) {
            Some(p) => p,
            None => {
                return None;
            },
        };
        let (attempt, r2) = match dec_u8_exec(r1) {
            Some(p) => p,
            None => {
                return None;
            },
        };
        let x = TicketBody { id, attempt };
        acc.push(x);
        proof {
            assert(acc@.map(|i: int, tb: TicketBody| ticket_body_model(tb)) =~= accmap0.push(
                ticket_body_model(x),
            ));
        }
        cur = r2;
        k = k + 1;
        proof {
            let ghost d = dec_body_items(cur@, n - k);
            if d is Some {
                assert(accmap0 + (seq![ticket_body_model(x)] + d->Some_0.0) =~= accmap0.push(
                    ticket_body_model(x),
                ) + d->Some_0.0);
            }
        }
    }
    proof {
        assert(acc@.map(|i: int, tb: TicketBody| ticket_body_model(tb)) + Seq::<
            TicketBodyModel,
        >::empty() =~= acc@.map(|i: int, tb: TicketBody| ticket_body_model(tb)));
    }
    Some((acc, cur))
}

#[verifier::loop_isolation(false)]
fn dec_envs_exec<'a>(b: &'a [u8], n: u32) -> (r: Option<(Vec<TicketEnvelope>, &'a [u8])>)
    ensures
        match r {
            Some((ts, rest)) => dec_env_items(b@, n as int) == Some(
                (ts@.map(|i: int, t: TicketEnvelope| ticket_envelope_model(t)), rest@),
            ),
            None => dec_env_items(b@, n as int) is None,
        },
{
    let mut acc: Vec<TicketEnvelope> = Vec::new();
    let mut cur: &[u8] = b;
    let mut k: u32 = 0;
    proof {
        let ghost d = dec_env_items(b@, n as int);
        if d is Some {
            assert(acc@.map(|i: int, t: TicketEnvelope| ticket_envelope_model(t)) + d->Some_0.0
                =~= d->Some_0.0);
        }
    }
    while k < n
        invariant
            0 <= k <= n,
            match dec_env_items(cur@, n - k) {
                Some((ts, rest)) => dec_env_items(b@, n as int) == Some(
                    (acc@.map(|i: int, t: TicketEnvelope| ticket_envelope_model(t)) + ts, rest),
                ),
                None => dec_env_items(b@, n as int) is None,
            },
        decreases n - k,
    {
        let ghost accmap0 = acc@.map(|i: int, t: TicketEnvelope| ticket_envelope_model(t));
        let (attempt, r1) = match dec_u8_exec(cur) {
            Some(p) => p,
            None => {
                return None;
            },
        };
        let (signature, r2) = match dec_bytes_exec(r1) {
            Some(p) => p,
            None => {
                return None;
            },
        };
        let ghost sig_view = signature@;
        let x = TicketEnvelope { attempt, signature };
        proof {
            assert(ticket_envelope_model(x) == TicketEnvelopeModel {
                attempt,
                signature: sig_view,
            });
        }
        acc.push(x);
        proof {
            assert(acc@.map(|i: int, t: TicketEnvelope| ticket_envelope_model(t)) =~= accmap0.push(
                ticket_envelope_model(x),
            ));
        }
        cur = r2;
        k = k + 1;
        proof {
            let ghost d = dec_env_items(cur@, n - k);
            if d is Some {
                assert(accmap0 + (seq![ticket_envelope_model(x)] + d->Some_0.0) =~= accmap0.push(
                    ticket_envelope_model(x),
                ) + d->Some_0.0);
            }
        }
    }
    proof {
        assert(acc@.map(|i: int, t: TicketEnvelope| ticket_envelope_model(t)) + Seq::<
            TicketEnvelopeModel,
        >::empty() =~= acc@.map(|i: int, t: TicketEnvelope| ticket_envelope_model(t)));
    }
    Some((acc, cur))
}

#[verifier::loop_isolation(false)]
fn dec_preimages_exec<'a>(b: &'a [u8], n: u32) -> (r: Option<(Vec<Preimage>, &'a [u8])>)
    ensures
        match r {
            Some((ps, rest)) => dec_preimage_items(b@, n as int) == Some(
                (ps@.map(|i: int, p: Preimage| preimage_model(p)), rest@),
            ),
            None => dec_preimage_items(b@, n as int) is None,
        },
{
    let mut acc: Vec<Preimage> = Vec::new();
    let mut cur: &[u8] = b;
    let mut k: u32 = 0;
    proof {
        let ghost d = dec_preimage_items(b@, n as int);
        if d is Some {
            assert(acc@.map(|i: int, p: Preimage| preimage_model(p)) + d->Some_0.0
                =~= d->Some_0.0);
        }
    }
    while k < n
        invariant
            0 <= k <= n,
            match dec_preimage_items(cur@, n - k) {
                Some((ps, rest)) => dec_preimage_items(b@, n as int) == Some(
                    (acc@.map(|i: int, p: Preimage| preimage_model(p)) + ps, rest),
                ),
                None => dec_preimage_items(b@, n as int) is None,
            },
        decreases n - k,
    {
        let ghost accmap0 = acc@.map(|i: int, p: Preimage| preimage_model(p));
        let (requester, r1) = match dec_u32_exec(cur) {
            Some(p) => p,
            None => {
                return None;
            },
        };
        let (blob, r2) = match dec_bytes_exec(r1) {
            Some(p) => p,
            None => {
                return None;
            },
        };
        let x = Preimage { requester, blob };
        acc.push(x);
        proof {
            assert(acc@.map(|i: int, p: Preimage| preimage_model(p)) =~= accmap0.push(
                preimage_model(x),
            ));
        }
        cur = r2;
        k = k + 1;
        proof {
            let ghost d = dec_preimage_items(cur@, n - k);
            if d is Some {
                assert(accmap0 + (seq![preimage_model(x)] + d->Some_0.0) =~= accmap0.push(
                    preimage_model(x),
                ) + d->Some_0.0);
            }
        }
    }
    proof {
        assert(acc@.map(|i: int, p: Preimage| preimage_model(p)) + Seq::<
            PreimageModel,
        >::empty() =~= acc@.map(|i: int, p: Preimage| preimage_model(p)));
    }
    Some((acc, cur))
}

#[verifier::loop_isolation(false)]
fn dec_payloads_exec<'a>(b: &'a [u8], n: u32) -> (r: Option<(Vec<Vec<u8>>, &'a [u8])>)
    ensures
        match r {
            Some((ps, rest)) => dec_payload_items(b@, n as int) == Some(
                (ps@.map(|i: int, p: Vec<u8>| p@), rest@),
            ),
            None => dec_payload_items(b@, n as int) is None,
        },
{
    let mut acc: Vec<Vec<u8>> = Vec::new();
    let mut cur: &[u8] = b;
    let mut k: u32 = 0;
    proof {
        let ghost d = dec_payload_items(b@, n as int);
        if d is Some {
            assert(acc@.map(|i: int, p: Vec<u8>| p@) + d->Some_0.0 =~= d->Some_0.0);
        }
    }
    while k < n
        invariant
            0 <= k <= n,
            match dec_payload_items(cur@, n - k) {
                Some((ps, rest)) => dec_payload_items(b@, n as int) == Some(
                    (acc@.map(|i: int, p: Vec<u8>| p@) + ps, rest),
                ),
                None => dec_payload_items(b@, n as int) is None,
            },
        decreases n - k,
    {
        let ghost accmap0 = acc@.map(|i: int, p: Vec<u8>| p@);
        let (x, r1) = match dec_bytes_exec(cur) {
            Some(p) => p,
            None => {
                return None;
            },
        };
        let ghost xv = x@;
        acc.push(x);
        proof {
            assert(acc@.map(|i: int, p: Vec<u8>| p@) =~= accmap0.push(xv));
        }
        cur = r1;
        k = k + 1;
        proof {
            let ghost d = dec_payload_items(cur@, n - k);
            if d is Some {
                assert(accmap0 + (seq![xv] + d->Some_0.0) =~= accmap0.push(xv) + d->Some_0.0);
            }
        }
    }
    proof {
        assert(acc@.map(|i: int, p: Vec<u8>| p@) + Seq::<Seq<u8>>::empty() =~= acc@.map(
            |i: int, p: Vec<u8>| p@,
        ));
    }
    Some((acc, cur))
}

fn dec_epoch_mark_exec<'a>(b: &'a [u8]) -> (r: Option<(EpochMark, &'a [u8])>)
    ensures
        match r {
            Some((em, rest)) => dec_epoch_mark(b@) == Some((epoch_mark_model(em), rest@)),
            None => dec_epoch_mark(b@) is None,
        },
{
    let (entropy, r1) = match dec_hash_exec(b) {
        Some(p) => p,
        None => {
            return None;
        },
    };
    let (tickets_entropy, r2) = match dec_hash_exec(r1) {
        Some(p) => p,
        None => {
            return None;
        },
    };
    let (n, r3) = match dec_u32_exec(r2) {
        Some(p) => p,
        None => {
            return None;
        },
    };
    let (validators, r4) = match dec_hashes_exec(r3, n) {
        Some(p) => p,
        None => {
            return None;
        },
    };
    Some((EpochMark { entropy, tickets_entropy, validators }, r4))
}

/// Decode one header from the front of the bytes, handing back the rest.
pub fn dec_header_exec<'a>(b: &'a [u8]) -> (r: Option<(Header, &'a [u8])>)
    ensures
        match r {
            Some((h, rest)) => dec_header(b@) == Some((header_model(h), rest@)),
            None => dec_header(b@) is None,
        },
{
    let (parent, r1) = match dec_hash_exec(b) {
        Some(p) => p,
        None => {
            return None;
        },
    };
    let (parent_state_root, r2) = match dec_hash_exec(r1) {
        Some(p) => p,
        None => {
            return None;
        },
    };
    let (extrinsic_hash, r3) = match dec_hash_exec(r2) {
        Some(p) => p,
        None => {
            return None;
        },
    };
    let (slot, r4) = match dec_u32_exec(r3) {
        Some(p) => p,
        None => {
            return None;
        },
    };
    let (em_tag, r5) = match dec_u8_exec(r4) {
        Some(p) => p,
        None => {
            return None;
        },
    };
    let (epoch_mark, r6): (Option<EpochMark>, &[u8]) = if em_tag == 0 {
        (None, r5)
    } else if em_tag == 1 {
        match dec_epoch_mark_exec(r5) {
            Some((em, r6)) => (Some(em), r6),
            None => {
                return None;
            },
        }
    } else {
        return None;
    };
    let (tm_tag, r7) = match dec_u8_exec(r6) {
        Some(p) => p,
        None => {
            return None;
        },
    };
    let (tickets_mark, r9): (Option<Vec<TicketBody>>, &[u8]) = if tm_tag == 0 {
        (None, r7)
    } else if tm_tag == 1 {
        let (n, r8) = match dec_u32_exec(r7) {
            Some(p) => p,
            None => {
                return None;
            },
        };
        match dec_bodies_exec(r8, n) {
            Some((tbs, r9)) => (Some(tbs), r9),
            None => {
                return None;
            },
        }
    } else {
        return None;
    };
    let (on, r9b) = match dec_u32_exec(r9) {
        Some(p) => p,
        None => {
            return None;
        },
    };
    let (offenders_mark, r10) = match dec_hashes_exec(r9b, on) {
        Some(p) => p,
        None => {
            return None;
        },
    };
    let (author_index, r11) = match dec_u16_exec(r10) {
        Some(p) => p,
        None => {
            return None;
        },
    };
    let (entropy_source, r12) = match dec_bytes_exec(r11) {
        Some(p) => p,
        None => {
            return None;
        },
    };
    let (seal, r13) = match dec_bytes_exec(r12) {
        Some(p) => p,
        None => {
            return None;
        },
    };
    Some(
        (
            Header {
                parent,
                parent_state_root,
                extrinsic_hash,
                slot,
                epoch_mark,
                tickets_mark,
                offenders_mark,
                author_index,
                entropy_source,
                seal,
            },
            r13,
        ),
    )
}

/// Decode one extrinsic from the front of the bytes, handing back the rest.
pub fn dec_extrinsic_exec<'a>(b: &'a [u8]) -> (r: Option<(Extrinsic, &'a [u8])>)
    ensures
        match r {
            Some((e, rest)) => dec_extrinsic(b@) == Some((extrinsic_model(e), rest@)),
            None => dec_extrinsic(b@) is None,
        },
{
    let (tn, r1) = match dec_u32_exec(b) {
        Some(p) => p,
        None => {
            return None;
        },
    };
    let (tickets, r2) = match dec_envs_exec(r1, tn) {
        Some(p) => p,
        None => {
            return None;
        },
    };
    let (pn, r3) = match dec_u32_exec(r2) {
        Some(p) => p,
        None => {
            return None;
        },
    };
    let (preimages, r4) = match dec_preimages_exec(r3, pn) {
        Some(p) => p,
        None => {
            return None;
        },
    };
    let (gn, r5) = match dec_u32_exec(r4) {
        Some(p) => p,
        None => {
            return None;
        },
    };
    let (guarantees, r6) = match dec_payloads_exec(r5, gn) {
        Some(p) => p,
        None => {
            return None;
        },
    };
    let (an, r7) = match dec_u32_exec(r6) {
        Some(p) => p,
        None => {
            return None;
        },
    };
    let (assurances, r8) = match dec_payloads_exec(r7, an) {
        Some(p) => p,
        None => {
            return None;
        },
    };
    let (d_tag, r9) = match dec_u8_exec(r8) {
        Some(p) => p,
        None => {
            return None;
        },
    };
    let (disputes, r10): (Option<Vec<u8>>, &[u8]) = if d_tag == 0 {
        (None, r9)
    } else if d_tag == 1 {
        match dec_bytes_exec(r9) {
            Some((d, r10)) => (Some(d), r10),
            None => {
                return None;
            },
        }
    } else {
        return None;
    };
    Some((Extrinsic { tickets, preimages, guarantees, assurances, disputes }, r10))
}

/// Decode one block from the front of the bytes, handing back the rest. The
/// decoded block matches the mathematical decoder field for field.
pub fn dec_block_exec<'a>(b: &'a [u8]) -> (r: Option<(Block, &'a [u8])>)
    ensures
        match r {
            Some((blk, rest)) => dec_block(b@) == Some((block_model(blk), rest@)),
            None => dec_block(b@) is None,
        },
{
    let (header, r1) = match dec_header_exec(b) {
        Some(p) => p,
        None => {
            return None;
        },
    };
    let (extrinsic, r2) = match dec_extrinsic_exec(r1) {
        Some(p) => p,
        None => {
            return None;
        },
    };
    Some((Block { header, extrinsic }, r2))
}

impl Block {
    /// Decode a block from exactly its canonical serialization; trailing
    /// bytes are rejected.
    pub fn from_canonical_bytes(bytes: &[u8]) -> (r: Option<Block>)
        ensures
            match r {
                Some(blk) => dec_block(bytes@) matches Some((m, rest)) && m == block_model(blk)
                    && rest.len() == 0,
                None => !(dec_block(bytes@) matches Some((m, rest)) && rest.len() == 0),
            },
    {
        match dec_block_exec(bytes) {
            Some((blk, rest)) => {
                if rest.len() == 0 {
                    Some(blk)
                } else {
                    None
                }
            },
            None => None,
        }
    }
}

/// Round trip: decoding the canonical serialization of any encodable block
/// yields the block back field for field — hash and byte-array fields
/// compared as byte sequences — with any trailing bytes untouched.
pub proof fn lemma_block_round_trip(b: Block, rest: Seq<u8>)
    requires
        block_encodable(b),
    ensures
        dec_block(enc_block_spec(b) + rest) == Some((block_model(b), rest)),
{
    lemma_concat_assoc(enc_header_spec(b.header), enc_extrinsic_spec(b.extrinsic), rest);
    lemma_dec_header(b.header, enc_extrinsic_spec(b.extrinsic) + rest);
    lemma_dec_extrinsic(b.extrinsic, rest);
}

} // verus!
