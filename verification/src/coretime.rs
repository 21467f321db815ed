//! The CoreTime ledger: bounds the computational budget a block may claim
//! across its execution cores and sanity-checks the accompanying
//! availability and dispute payloads.
//!
//! The payloads arrive as raw JSON text. A dedicated parsing layer converts
//! each into a strict shape, and the validation and accounting logic is
//! specified and verified over those shapes.

use vstd::prelude::*;
use crate::jsonval;
use crate::schema::{BlockchainError, CoreTimeViolation};

verus! {

/// Maximum CoreTime that can be consumed by a single core within one block.
pub const MAX_CORETIME_PER_CORE: u64 = 1024;

/// Maximum total CoreTime that can be consumed within a single block.
pub const MAX_CORETIME_PER_BLOCK: u64 = 4096;

/// Maximum number of assurances expected per block.
pub const MAX_ASSURANCES_PER_BLOCK: usize = 256;

/// Maximum dispute age allowed to be processed alongside a block.
pub const MAX_DISPUTE_AGE: u64 = 64;

/// Maximum difference between the current block slot and a guarantee slot.
pub const MAX_GUARANTEE_LOOKBACK: u64 = 8;

/// One execution result inside a guarantee's report.
#[derive(Debug, Clone)]
pub struct GuaranteeResult {
    pub accumulate_gas: u64,
    pub service_id: u64,
}

/// A core's workload report inside a guarantee.
#[derive(Debug, Clone)]
pub struct GuaranteeReport {
    pub auth_gas_used: Option<u64>,
    pub core_index: u16,
    pub results: Vec<GuaranteeResult>,
}

/// A core's attested workload report for a slot.
#[derive(Debug, Clone)]
pub struct CoreTimeGuarantee {
    pub slot: u64,
    pub report: GuaranteeReport,
}

/// A validator's availability attestation. The bitfield is kept as the UTF-8
/// bytes of the attestation string.
#[derive(Debug, Clone)]
pub struct CoreTimeAssurance {
    pub bitfield: Vec<u8>,
    pub validator_index: u16,
}

/// One vote inside a dispute verdict.
#[derive(Debug, Clone)]
pub struct DisputeVote {
    pub vote: bool,
    pub index: u16,
    pub signature: Vec<u8>,
}

/// A verdict resolving a disagreement over a previous guarantee.
#[derive(Debug, Clone)]
pub struct DisputeVerdict {
    pub target: Vec<u8>,
    pub age: u64,
    pub votes: Vec<DisputeVote>,
}

/// The disputes payload: a set of verdicts.
#[derive(Debug, Clone)]
pub struct CoreTimeDisputes {
    pub verdicts: Vec<DisputeVerdict>,
}

/// Which of the two CoreTime error kinds a defect belongs to: a structural
/// or logical violation, or an exceeded or overflowed budget.
#[derive(Debug, Clone, Copy, PartialEq, Eq, Structural)]
pub enum CoreTimeFault {
    Validation,
    Balance,
}

/// Whether an error value carries the kind a fault calls for.
pub open spec fn fault_matches(e: BlockchainError, f: CoreTimeFault) -> bool {
    match f {
        CoreTimeFault::Validation => e is CoreTimeValidationError,
        CoreTimeFault::Balance => e == BlockchainError::CoreTimeBalanceError,
    }
}

/// Cumulative usage of one core across all processed blocks.
#[derive(Debug, Clone, Copy)]
pub struct CoreUsage {
    pub total_consumed: u64,
    pub last_block_slot: u64,
    pub last_block_consumed: u64,
}

// ---------------------------------------------------------------------------
// Association lists keyed by core index, with their map view.
// ---------------------------------------------------------------------------

/// The map an association list denotes; the first entry for a key wins, so
/// every list denotes a map.
pub open spec fn alist_map<V>(s: Seq<(u16, V)>) -> Map<u16, V>
    decreases s.len(),
{
    if s.len() == 0 {
        Map::empty()
    } else {
        alist_map(s.drop_first()).insert(s.first().0, s.first().1)
    }
}

/// No key occurs twice.
pub open spec fn alist_unique<V>(s: Seq<(u16, V)>) -> bool {
    forall|i: int, j: int| 0 <= i < j < s.len() ==> s[i].0 != s[j].0
}

/// Whether some entry of the list carries the key.
pub open spec fn alist_has_key<V>(s: Seq<(u16, V)>, k: u16) -> bool {
    exists|i: int| 0 <= i < s.len() && (#[trigger] s[i]).0 == k
}

proof fn lemma_alist_dom<V>(s: Seq<(u16, V)>)
    ensures
        forall|k: u16| #[trigger] alist_map(s).contains_key(k) <==> alist_has_key(s, k),
    decreases s.len(),
{
    if s.len() > 0 {
        lemma_alist_dom(s.drop_first());
        assert forall|k: u16| #[trigger] alist_map(s).contains_key(k) implies alist_has_key(
            s,
            k,
        ) by {
            if k == s.first().0 {
                assert(s[0].0 == k);
            } else {
                assert(alist_map(s.drop_first()).contains_key(k));
                let i = choose|i: int|
                    0 <= i < s.drop_first().len() && (#[trigger] s.drop_first()[i]).0 == k;
                assert(s.drop_first()[i] == s[i + 1]);
                assert(s[i + 1].0 == k);
            }
        }
        assert forall|k: u16| alist_has_key(s, k) implies #[trigger] alist_map(s).contains_key(
            k,
        ) by {
            let i = choose|i: int| 0 <= i < s.len() && (#[trigger] s[i]).0 == k;
            if i > 0 {
                assert(s.drop_first()[i - 1] == s[i]);
                assert(alist_has_key(s.drop_first(), k));
                assert(alist_map(s.drop_first()).contains_key(k));
            }
        }
    }
}

/// The first entry for a key gives the map's value at that key.
proof fn lemma_alist_first_match<V>(s: Seq<(u16, V)>, i: int)
    requires
        0 <= i < s.len(),
        forall|j: int| 0 <= j < i ==> (#[trigger] s[j]).0 != s[i].0,
    ensures
        alist_map(s).contains_key(s[i].0),
        alist_map(s)[s[i].0] == s[i].1,
    decreases s.len(),
{
    if i > 0 {
        assert(s[0].0 != s[i].0);
        assert forall|j: int| 0 <= j < i - 1 implies (#[trigger] s.drop_first()[j]).0 != s
            .drop_first()[i - 1].0 by {
            assert(s.drop_first()[j] == s[j + 1]);
            assert(s.drop_first()[i - 1] == s[i]);
        }
        lemma_alist_first_match(s.drop_first(), i - 1);
        assert(s.drop_first()[i - 1] == s[i]);
    }
}

/// In a duplicate-free list, every entry gives the map's value at its key.
proof fn lemma_alist_index<V>(s: Seq<(u16, V)>, i: int)
    requires
        alist_unique(s),
        0 <= i < s.len(),
    ensures
        alist_map(s).contains_key(s[i].0),
        alist_map(s)[s[i].0] == s[i].1,
{
    lemma_alist_first_match(s, i);
}

/// Appending an entry for an absent key adds that binding.
proof fn lemma_alist_push_absent<V>(s: Seq<(u16, V)>, k: u16, v: V)
    requires
        forall|j: int| 0 <= j < s.len() ==> (#[trigger] s[j]).0 != k,
    ensures
        alist_map(s.push((k, v))) =~= alist_map(s).insert(k, v),
    decreases s.len(),
{
    let t = s.push((k, v));
    if s.len() == 0 {
        assert(t.first() == (k, v));
        assert(t.drop_first() =~= Seq::<(u16, V)>::empty());
        assert(alist_map(t) == alist_map(t.drop_first()).insert(t.first().0, t.first().1));
        assert(alist_map(s) =~= Map::<u16, V>::empty());
    } else {
        assert(t.drop_first() =~= s.drop_first().push((k, v)));
        assert forall|j: int| 0 <= j < s.drop_first().len() implies (#[trigger] s.drop_first()[
            j
        ]).0 != k by {
            assert(s.drop_first()[j] == s[j + 1]);
        }
        lemma_alist_push_absent(s.drop_first(), k, v);
        assert(alist_map(s.drop_first().push((k, v))) =~= alist_map(s.drop_first()).insert(k, v));
        assert(t.first() == s.first());
        assert(t.len() > 0);
        assert(alist_map(t) == alist_map(t.drop_first()).insert(t.first().0, t.first().1));
        assert(alist_map(s) == alist_map(s.drop_first()).insert(s.first().0, s.first().1));
        assert(s[0].0 != k);
        assert(alist_map(t) =~= alist_map(s).insert(k, v));
    }
}

/// Overwriting the first entry for a key updates that binding.
proof fn lemma_alist_update_first<V>(s: Seq<(u16, V)>, i: int, v: V)
    requires
        0 <= i < s.len(),
        forall|j: int| 0 <= j < i ==> (#[trigger] s[j]).0 != s[i].0,
    ensures
        alist_map(s.update(i, (s[i].0, v))) =~= alist_map(s).insert(s[i].0, v),
    decreases s.len(),
{
    let k = s[i].0;
    let t = s.update(i, (k, v));
    if i == 0 {
        assert(t.drop_first() =~= s.drop_first());
        assert(t.first() == (k, v));
    } else {
        assert(t.first() == s.first());
        assert(t.drop_first() =~= s.drop_first().update(i - 1, (k, v)));
        assert forall|j: int| 0 <= j < i - 1 implies (#[trigger] s.drop_first()[j]).0 != s
            .drop_first()[i - 1].0 by {
            assert(s.drop_first()[j] == s[j + 1]);
            assert(s.drop_first()[i - 1] == s[i]);
        }
        assert(s.drop_first()[i - 1] == s[i]);
        lemma_alist_update_first(s.drop_first(), i - 1, v);
        assert(s[0].0 != k);
    }
}

/// Look a key up in an association list.
fn alist_get<V: Copy>(s: &Vec<(u16, V)>, key: u16) -> (r: Option<V>)
    ensures
        match r {
            Some(x) => alist_map(s@).contains_key(key) && alist_map(s@)[key] == x,
            None => !alist_map(s@).contains_key(key),
        },
{
    let n = s.len();
    let mut i: usize = 0;
    while i < n
        invariant
            0 <= i <= n,
            n == s@.len(),
            forall|j: int| 0 <= j < i ==> (#[trigger] s@[j]).0 != key,
        decreases n - i,
    {
        if s[i].0 == key {
            proof {
                lemma_alist_first_match(s@, i as int);
            }
            return Some(s[i].1);
        }
        i += 1;
    }
    proof {
        lemma_alist_dom(s@);
        if alist_map(s@).contains_key(key) {
            let j = choose|j: int| 0 <= j < s@.len() && (#[trigger] s@[j]).0 == key;
            assert(false);
        }
    }
    None
}

/// Insert or overwrite a key in an association list.
fn alist_set<V: Copy>(s: &mut Vec<(u16, V)>, key: u16, val: V)
    ensures
        alist_map(final(s)@) == alist_map(old(s)@).insert(key, val),
        alist_unique(old(s)@) ==> alist_unique(final(s)@),
{
    let n = s.len();
    let mut i: usize = 0;
    while i < n
        invariant
            0 <= i <= n,
            n == s@.len(),
            s@ == old(s)@,
            forall|j: int| 0 <= j < i ==> (#[trigger] s@[j]).0 != key,
        decreases n - i,
    {
        if s[i].0 == key {
            proof {
                lemma_alist_update_first(s@, i as int, val);
            }
            s.set(i, (key, val));
            return ;
        }
        i += 1;
    }
    proof {
        lemma_alist_push_absent(s@, key, val);
        if alist_unique(s@) {
            assert forall|a: int, b: int| 0 <= a < b < s@.push((key, val)).len() implies s@.push(
                (key, val),
            )[a].0 != s@.push((key, val))[b].0 by {
                if b == s@.len() {
                    assert(s@[a].0 != key);
                }
            }
        }
    }
    s.push((key, val));
}

/// The set a sequence of (slot, core) pairs denotes.
pub open spec fn pair_set(s: Seq<(u64, u16)>) -> Set<(u64, u16)>
    decreases s.len(),
{
    if s.len() == 0 {
        Set::empty()
    } else {
        pair_set(s.drop_last()).insert(s.last())
    }
}

/// Whether the sequence holds the pair.
pub open spec fn has_pair(s: Seq<(u64, u16)>, p: (u64, u16)) -> bool {
    exists|i: int| 0 <= i < s.len() && (#[trigger] s[i]) == p
}

proof fn lemma_pair_set_contains(s: Seq<(u64, u16)>)
    ensures
        forall|p: (u64, u16)| #[trigger] pair_set(s).contains(p) <==> has_pair(s, p),
    decreases s.len(),
{
    if s.len() > 0 {
        lemma_pair_set_contains(s.drop_last());
        assert forall|p: (u64, u16)| #[trigger] pair_set(s).contains(p) implies has_pair(s, p) by {
            if p == s.last() {
                assert(s[s.len() - 1] == p);
            } else {
                assert(pair_set(s.drop_last()).contains(p));
                let i = choose|i: int|
                    0 <= i < s.drop_last().len() && (#[trigger] s.drop_last()[i]) == p;
                assert(s.drop_last()[i] == s[i]);
                assert(s[i] == p);
            }
        }
        assert forall|p: (u64, u16)| has_pair(s, p) implies #[trigger] pair_set(s).contains(p) by {
            let i = choose|i: int| 0 <= i < s.len() && (#[trigger] s[i]) == p;
            if i < s.len() - 1 {
                assert(s.drop_last()[i] == s[i]);
                assert(has_pair(s.drop_last(), p));
                assert(pair_set(s.drop_last()).contains(p));
            }
        }
    }
}

/// Membership test on a sequence of (slot, core) pairs.
fn pairs_contain(s: &Vec<(u64, u16)>, p: (u64, u16)) -> (r: bool)
    ensures
        r <==> pair_set(s@).contains(p),
{
    proof {
        lemma_pair_set_contains(s@);
    }
    let n = s.len();
    let mut i: usize = 0;
    while i < n
        invariant
            0 <= i <= n,
            n == s@.len(),
            forall|j: int| 0 <= j < i ==> s@[j] != p,
        decreases n - i,
    {
        if s[i].0 == p.0 && s[i].1 == p.1 {
            proof {
                assert(s@[i as int] == p);
                assert(has_pair(s@, p));
                lemma_pair_set_contains(s@);
                assert(pair_set(s@).contains(p));
            }
            return true;
        }
        i += 1;
    }
    proof {
        if pair_set(s@).contains(p) {
            let j = choose|j: int| 0 <= j < s@.len() && (#[trigger] s@[j]) == p;
            assert(false);
        }
    }
    false
}

// ---------------------------------------------------------------------------
// The mathematical model of one block's CoreTime validation.
// ---------------------------------------------------------------------------

/// The set a sequence of validator indices denotes.
pub open spec fn u16_set(s: Seq<u16>) -> Set<u16>
    decreases s.len(),
{
    if s.len() == 0 {
        Set::empty()
    } else {
        u16_set(s.drop_last()).insert(s.last())
    }
}

/// Whether the sequence holds the index.
pub open spec fn has_u16(s: Seq<u16>, x: u16) -> bool {
    exists|i: int| 0 <= i < s.len() && (#[trigger] s[i]) == x
}

proof fn lemma_u16_set_contains(s: Seq<u16>)
    ensures
        forall|x: u16| #[trigger] u16_set(s).contains(x) <==> has_u16(s, x),
    decreases s.len(),
{
    if s.len() > 0 {
        lemma_u16_set_contains(s.drop_last());
        assert forall|x: u16| #[trigger] u16_set(s).contains(x) implies has_u16(s, x) by {
            if x == s.last() {
                assert(s[s.len() - 1] == x);
            } else {
                assert(u16_set(s.drop_last()).contains(x));
                let i = choose|i: int|
                    0 <= i < s.drop_last().len() && (#[trigger] s.drop_last()[i]) == x;
                assert(s.drop_last()[i] == s[i]);
                assert(s[i] == x);
            }
        }
        assert forall|x: u16| has_u16(s, x) implies #[trigger] u16_set(s).contains(x) by {
            let i = choose|i: int| 0 <= i < s.len() && (#[trigger] s[i]) == x;
            if i < s.len() - 1 {
                assert(s.drop_last()[i] == s[i]);
                assert(has_u16(s.drop_last(), x));
                assert(u16_set(s.drop_last()).contains(x));
            }
        }
    }
}

/// Membership test on a sequence of validator indices.
fn u16s_contain(s: &Vec<u16>, x: u16) -> (r: bool)
    ensures
        r <==> u16_set(s@).contains(x),
{
    let n = s.len();
    let mut i: usize = 0;
    while i < n
        invariant
            0 <= i <= n,
            n == s@.len(),
            forall|j: int| 0 <= j < i ==> s@[j] != x,
        decreases n - i,
    {
        if s[i] == x {
            proof {
                assert(s@[i as int] == x);
                assert(has_u16(s@, x));
                lemma_u16_set_contains(s@);
            }
            return true;
        }
        i += 1;
    }
    proof {
        lemma_u16_set_contains(s@);
        if u16_set(s@).contains(x) {
            let j = choose|j: int| 0 <= j < s@.len() && (#[trigger] s@[j]) == x;
            assert(false);
        }
    }
    false
}

/// The gas a report's results claim, as an unbounded integer.
pub open spec fn sum_gas(rs: Seq<GuaranteeResult>) -> int
    decreases rs.len(),
{
    if rs.len() == 0 {
        0
    } else {
        sum_gas(rs.drop_last()) + rs.last().accumulate_gas
    }
}

pub proof fn lemma_sum_gas_prefix(rs: Seq<GuaranteeResult>, j: int)
    requires
        0 <= j <= rs.len(),
    ensures
        sum_gas(rs.subrange(0, j)) <= sum_gas(rs),
    decreases rs.len() - j,
{
    if j == rs.len() {
        assert(rs.subrange(0, j) =~= rs);
    } else {
        lemma_sum_gas_prefix(rs, j + 1);
        assert(rs.subrange(0, j + 1).drop_last() =~= rs.subrange(0, j));
        assert(sum_gas(rs.subrange(0, j + 1)) == sum_gas(rs.subrange(0, j)) + rs[j].accumulate_gas);
    }
}

/// The total CoreTime one guarantee claims: the sum of its results' gas plus
/// its authentication gas, if any.
pub open spec fn consumption_of(g: CoreTimeGuarantee) -> int {
    sum_gas(g.report.results@) + match g.report.auth_gas_used {
        Some(a) => a as int,
        None => 0,
    }
}

/// Walk the guarantees in order, accumulating per-core and block-wide usage
/// and the set of (slot, core) pairs already claimed. Stops at the first
/// defect: a future or stale slot or a duplicate claim is a validation
/// fault; a sum that leaves the machine range or a core that exceeds its
/// per-block cap is a balance fault.
pub open spec fn guar_fold(
    gs: Seq<CoreTimeGuarantee>,
    block_slot: u64,
    per_block: Map<u16, u64>,
    total: u64,
    seen: Set<(u64, u16)>,
) -> Result<(Map<u16, u64>, u64), CoreTimeFault>
    decreases gs.len(),
{
    if gs.len() == 0 {
        Ok((per_block, total))
    } else {
        let g = gs.first();
        let ci = g.report.core_index;
        if g.slot > block_slot {
            Err(CoreTimeFault::Validation)
        } else if block_slot - g.slot > MAX_GUARANTEE_LOOKBACK {
            Err(CoreTimeFault::Validation)
        } else if seen.contains((g.slot, ci)) {
            Err(CoreTimeFault::Validation)
        } else {
            let c = consumption_of(g);
            let prev = if per_block.contains_key(ci) {
                per_block[ci] as int
            } else {
                0
            };
            if c > u64::MAX {
                Err(CoreTimeFault::Balance)
            } else if prev + c > MAX_CORETIME_PER_CORE {
                Err(CoreTimeFault::Balance)
            } else if total + c > u64::MAX {
                Err(CoreTimeFault::Balance)
            } else {
                guar_fold(
                    gs.drop_first(),
                    block_slot,
                    per_block.insert(ci, (prev + c) as u64),
                    (total + c) as u64,
                    seen.insert((g.slot, ci)),
                )
            }
        }
    }
}

/// A single byte that is a whitespace character.
pub open spec fn is_ws_byte(b: u8) -> bool {
    b == 0x09 || b == 0x0a || b == 0x0b || b == 0x0c || b == 0x0d || b == 0x20
}

/// A two-byte UTF-8 sequence that is a whitespace character: next line
/// (U+0085) or no-break space (U+00A0).
pub open spec fn is_ws_pair(a: u8, b: u8) -> bool {
    a == 0xc2 && (b == 0x85 || b == 0xa0)
}

/// A three-byte UTF-8 sequence that is a whitespace character: the Ogham
/// space mark (U+1680), the U+2000 to U+200A spaces, the line and paragraph
/// separators (U+2028, U+2029), the narrow no-break space (U+202F), the
/// medium mathematical space (U+205F), or the ideographic space (U+3000).
pub open spec fn is_ws_triple(a: u8, b: u8, c: u8) -> bool {
    ||| (a == 0xe1 && b == 0x9a && c == 0x80)
    ||| (a == 0xe2 && b == 0x80 && (0x80 <= c <= 0x8a || c == 0xa8 || c == 0xa9 || c == 0xaf))
    ||| (a == 0xe2 && b == 0x81 && c == 0x9f)
    ||| (a == 0xe3 && b == 0x80 && c == 0x80)
}

/// A bitfield that is empty or, read as UTF-8, holds only whitespace
/// characters — the characters the Unicode white-space property names.
pub open spec fn is_blank(s: Seq<u8>) -> bool
    decreases s.len(),
{
    if s.len() == 0 {
        true
    } else if is_ws_byte(s[0]) {
        is_blank(s.skip(1))
    } else if s.len() >= 2 && is_ws_pair(s[0], s[1]) {
        is_blank(s.skip(2))
    } else if s.len() >= 3 && is_ws_triple(s[0], s[1], s[2]) {
        is_blank(s.skip(3))
    } else {
        false
    }
}

/// Walk the assurances in order: a blank bitfield or a validator index seen
/// before is a validation fault.
pub open spec fn assur_fold(asr: Seq<CoreTimeAssurance>, seen: Set<u16>) -> Option<CoreTimeFault>
    decreases asr.len(),
{
    if asr.len() == 0 {
        None
    } else {
        let a = asr.first();
        if is_blank(a.bitfield@) {
            Some(CoreTimeFault::Validation)
        } else if seen.contains(a.validator_index) {
            Some(CoreTimeFault::Validation)
        } else {
            assur_fold(asr.drop_first(), seen.insert(a.validator_index))
        }
    }
}

/// Walk the verdicts in order: an over-aged verdict or one without votes is
/// a validation fault.
pub open spec fn verdict_fold(vs: Seq<DisputeVerdict>) -> Option<CoreTimeFault>
    decreases vs.len(),
{
    if vs.len() == 0 {
        None
    } else {
        let v = vs.first();
        if v.age > MAX_DISPUTE_AGE {
            Some(CoreTimeFault::Validation)
        } else if v.votes@.len() == 0 {
            Some(CoreTimeFault::Validation)
        } else {
            verdict_fold(vs.drop_first())
        }
    }
}

/// The first fault of a disputes payload, if any; an absent payload has none.
pub open spec fn dispute_fault(ds: Option<CoreTimeDisputes>) -> Option<CoreTimeFault> {
    match ds {
        None => None,
        Some(d) => verdict_fold(d.verdicts@),
    }
}

/// A core's cumulative consumption before this block.
pub open spec fn old_core_total(pc: Map<u16, CoreUsage>, k: u16) -> int {
    if pc.contains_key(k) {
        pc[k].total_consumed as int
    } else {
        0
    }
}

/// Whether folding the block's per-core usage into the ledger would push
/// some core's cumulative consumption past the machine range.
pub open spec fn commit_overflows(pc: Map<u16, CoreUsage>, per_block: Map<u16, u64>) -> bool {
    exists|k: u16| #[trigger]
        per_block.contains_key(k) && old_core_total(pc, k) + per_block[k] > u64::MAX
}

/// The per-core map after committing one block: each touched core's
/// cumulative total grows by its usage and its last-block snapshot is
/// replaced; untouched cores keep their entries.
pub open spec fn merge_cores(
    pc: Map<u16, CoreUsage>,
    per_block: Map<u16, u64>,
    block_slot: u64,
) -> Map<u16, CoreUsage> {
    Map::new(
        |k: u16| pc.contains_key(k) || per_block.contains_key(k),
        |k: u16|
            if per_block.contains_key(k) {
                CoreUsage {
                    total_consumed: (old_core_total(pc, k) + per_block[k]) as u64,
                    last_block_slot: block_slot,
                    last_block_consumed: per_block[k],
                }
            } else {
                pc[k]
            },
    )
}

/// The ledger as a mathematical value: the global counters, the last block
/// slot, and each core's cumulative usage.
pub struct LedgerView {
    pub total_allocated: u64,
    pub total_consumed: u64,
    pub last_block_slot: Option<u64>,
    pub per_core: Map<u16, CoreUsage>,
}

/// What one block does to the ledger: the guarantees are folded into
/// per-core and block-wide usage, the block-wide cap and the assurance and
/// dispute rules are checked, and only then is the usage committed. A fold
/// fault, an exceeded cap, or a commit that would overflow leaves nothing
/// but an error; otherwise the counters grow by the block's usage and the
/// block's slot is recorded.
pub open spec fn coretime_step(
    l: LedgerView,
    block_slot: u64,
    gs: Seq<CoreTimeGuarantee>,
    asr: Seq<CoreTimeAssurance>,
    ds: Option<CoreTimeDisputes>,
) -> Result<LedgerView, CoreTimeFault> {
    match guar_fold(gs, block_slot, Map::empty(), 0, Set::empty()) {
        Err(f) => Err(f),
        Ok((per_block, total)) => {
            if total > MAX_CORETIME_PER_BLOCK {
                Err(CoreTimeFault::Balance)
            } else if asr.len() > MAX_ASSURANCES_PER_BLOCK {
                Err(CoreTimeFault::Validation)
            } else {
                match assur_fold(asr, Set::empty()) {
                    Some(f) => Err(f),
                    None => match dispute_fault(ds) {
                        Some(f) => Err(f),
                        None => {
                            if l.total_allocated + total > u64::MAX || l.total_consumed + total
                                > u64::MAX {
                                Err(CoreTimeFault::Balance)
                            } else if commit_overflows(l.per_core, per_block) {
                                Err(CoreTimeFault::Balance)
                            } else {
                                Ok(
                                    LedgerView {
                                        total_allocated: (l.total_allocated + total) as u64,
                                        total_consumed: (l.total_consumed + total) as u64,
                                        last_block_slot: Some(block_slot),
                                        per_core: merge_cores(l.per_core, per_block, block_slot),
                                    },
                                )
                            }
                        },
                    },
                }
            }
        },
    }
}

/// The lookback boundary: a lone guarantee within its core's budget is
/// accepted when the block slot trails it by exactly the lookback window,
/// and rejected one slot further — provided the ledger itself has room for
/// the usage it claims.
/// A block without workload reports moves the ledger by recording its slot
/// and nothing else.
pub proof fn lemma_coretime_step_empty(l: LedgerView, block_slot: u64)
    ensures
        coretime_step(l, block_slot, Seq::empty(), Seq::empty(), None) == Ok::<
            LedgerView,
            CoreTimeFault,
        >(LedgerView { last_block_slot: Some(block_slot), ..l }),
{
    assert(guar_fold(Seq::<CoreTimeGuarantee>::empty(), block_slot, Map::empty(), 0, Set::empty())
        == Ok::<(Map<u16, u64>, u64), CoreTimeFault>((Map::empty(), 0)));
    assert(assur_fold(Seq::<CoreTimeAssurance>::empty(), Set::empty()) is None);
    assert(!commit_overflows(l.per_core, Map::empty())) by {
        if commit_overflows(l.per_core, Map::empty()) {
            let k = choose|k: u16| #[trigger]
                Map::<u16, u64>::empty().contains_key(k) && old_core_total(l.per_core, k)
                    + Map::<u16, u64>::empty()[k] > u64::MAX;
            assert(false);
        }
    }
    assert(merge_cores(l.per_core, Map::empty(), block_slot) =~= l.per_core);
}

pub proof fn lemma_lookback_boundary(l: LedgerView, g: CoreTimeGuarantee, s: u64)
    requires
        g.slot == s,
        s + 9 <= u64::MAX,
        0 <= consumption_of(g) <= MAX_CORETIME_PER_CORE,
        l.total_allocated + consumption_of(g) <= u64::MAX,
        l.total_consumed + consumption_of(g) <= u64::MAX,
        old_core_total(l.per_core, g.report.core_index) + consumption_of(g) <= u64::MAX,
    ensures
        coretime_step(
            l,
            (s + 8) as u64,
            seq![g],
            Seq::empty(),
            None,
        ) is Ok,
        coretime_step(l, (s + 9) as u64, seq![g], Seq::empty(), None) == Err::<
            LedgerView,
            CoreTimeFault,
        >(CoreTimeFault::Validation),
{
    let gs = seq![g];
    assert(gs.first() == g);
    assert(gs.drop_first() =~= Seq::<CoreTimeGuarantee>::empty());
    let ci = g.report.core_index;
    let c = consumption_of(g);
    let pb = Map::<u16, u64>::empty().insert(ci, c as u64);
    assert(guar_fold(
        Seq::<CoreTimeGuarantee>::empty(),
        (s + 8) as u64,
        pb,
        c as u64,
        Set::<(u64, u16)>::empty().insert((g.slot, ci)),
    ) == Ok::<(Map<u16, u64>, u64), CoreTimeFault>((pb, c as u64)));
    assert(guar_fold(gs, (s + 8) as u64, Map::empty(), 0, Set::empty()) == Ok::<
        (Map<u16, u64>, u64),
        CoreTimeFault,
    >((pb, c as u64)));
    assert(!commit_overflows(l.per_core, pb)) by {
        if commit_overflows(l.per_core, pb) {
            let k = choose|k: u16| #[trigger]
                pb.contains_key(k) && old_core_total(l.per_core, k) + pb[k] > u64::MAX;
            assert(k == ci);
        }
    }
    assert(assur_fold(Seq::empty(), Set::empty()) is None);
}

/// The gas one guarantee claims, summed with overflow checking; `None`
/// exactly when the mathematical sum leaves the machine range.
#[verifier::loop_isolation(false)]
fn guarantee_consumption(g: &CoreTimeGuarantee) -> (r: Option<u64>)
    ensures
        match r {
            Some(c) => consumption_of(*g) == c,
            None => consumption_of(*g) > u64::MAX,
        },
{
    let mut acc: u64 = 0;
    let m = g.report.results.len();
    let mut j: usize = 0;
    proof {
        assert(g.report.results@.subrange(0, 0) =~= Seq::<GuaranteeResult>::empty());
    }
    while j < m
        invariant
            0 <= j <= m,
            acc == sum_gas(g.report.results@.subrange(0, j as int)),
        decreases m - j,
    {
        let gas = g.report.results[j].accumulate_gas;
        proof {
            assert(g.report.results@.subrange(0, j + 1).drop_last() =~= g.report.results@.subrange(
                0,
                j as int,
            ));
            assert(sum_gas(g.report.results@.subrange(0, j + 1)) == acc + gas);
        }
        acc = match acc.checked_add(gas) {
            Some(x) => x,
            None => {
                proof {
                    lemma_sum_gas_prefix(g.report.results@, j + 1);
                }
                return None;
            },
        };
        j += 1;
    }
    proof {
        assert(g.report.results@.subrange(0, m as int) =~= g.report.results@);
    }
    match g.report.auth_gas_used {
        Some(auth) => match acc.checked_add(auth) {
            Some(x) => Some(x),
            None => None,
        },
        None => Some(acc),
    }
}

/// Whether a bitfield is empty or, read as UTF-8, holds only whitespace
/// characters.
#[verifier::loop_isolation(false)]
fn bitfield_blank(b: &Vec<u8>) -> (r: bool)
    ensures
        r <==> is_blank(b@),
{
    let n = b.len();
    let mut i: usize = 0;
    proof {
        assert(b@.skip(0) =~= b@);
    }
    while i < n
        invariant
            0 <= i <= n,
            is_blank(b@) == is_blank(b@.skip(i as int)),
        decreases n - i,
    {
        proof {
            assert(b@.skip(i as int)[0] == b@[i as int]);
            if i + 1 <= n {
                assert(b@.skip(i as int).skip(1) =~= b@.skip(i + 1));
            }
            if i + 2 <= n {
                assert(b@.skip(i as int)[1] == b@[i + 1]);
                assert(b@.skip(i as int).skip(2) =~= b@.skip(i + 2));
            }
            if i + 3 <= n {
                assert(b@.skip(i as int)[2] == b@[i + 2]);
                assert(b@.skip(i as int).skip(3) =~= b@.skip(i + 3));
            }
        }
        let c = b[i];
        if c == 0x09 || c == 0x0a || c == 0x0b || c == 0x0c || c == 0x0d || c == 0x20 {
            i += 1;
        } else if n - i >= 2 && c == 0xc2 && (b[i + 1] == 0x85 || b[i + 1] == 0xa0) {
            i += 2;
        } else if n - i >= 3 && c == 0xe1 && b[i + 1] == 0x9a && b[i + 2] == 0x80 {
            i += 3;
        } else if n - i >= 3 && c == 0xe2 && b[i + 1] == 0x80 && (0x80 <= b[i + 2] && b[i + 2]
            <= 0x8a || b[i + 2] == 0xa8 || b[i + 2] == 0xa9 || b[i + 2] == 0xaf) {
            i += 3;
        } else if n - i >= 3 && c == 0xe2 && b[i + 1] == 0x81 && b[i + 2] == 0x9f {
            i += 3;
        } else if n - i >= 3 && c == 0xe3 && b[i + 1] == 0x80 && b[i + 2] == 0x80 {
            i += 3;
        } else {
            return false;
        }
    }
    proof {
        assert(b@.skip(n as int) =~= Seq::<u8>::empty());
    }
    true
}

/// Tracks CoreTime allocations and consumption over time.
#[derive(Debug)]
pub struct CoreTimeLedger {
    total_allocated: u64,
    total_consumed: u64,
    last_block_slot: Option<u64>,
    per_core_usage: Vec<(u16, CoreUsage)>,
}

impl View for CoreTimeLedger {
    type V = LedgerView;

    closed spec fn view(&self) -> LedgerView {
        LedgerView {
            total_allocated: self.total_allocated,
            total_consumed: self.total_consumed,
            last_block_slot: self.last_block_slot,
            per_core: alist_map(self.per_core_usage@),
        }
    }
}

impl Default for CoreTimeLedger {
    /// A fresh ledger: all counters at zero, no block processed, no core
    /// tracked.
    fn default() -> (r: Self)
        ensures
            r@.total_allocated == 0,
            r@.total_consumed == 0,
            r@.last_block_slot is None,
            r@.per_core == Map::<u16, CoreUsage>::empty(),
    {
        CoreTimeLedger {
            total_allocated: 0,
            total_consumed: 0,
            last_block_slot: None,
            per_core_usage: Vec::new(),
        }
    }
}

impl CoreTimeLedger {
    /// Total CoreTime allocated across all processed blocks.
    pub fn total_allocated(&self) -> (r: u64)
        ensures
            r == self@.total_allocated,
    {
        self.total_allocated
    }

    /// Total CoreTime consumed across all processed blocks.
    pub fn total_consumed(&self) -> (r: u64)
        ensures
            r == self@.total_consumed,
    {
        self.total_consumed
    }

    /// The last block slot processed by the ledger, if any.
    pub fn last_block_slot(&self) -> (r: Option<u64>)
        ensures
            r == self@.last_block_slot,
    {
        self.last_block_slot
    }

    /// Validate one block's already-parsed CoreTime payloads and, only if
    /// every check passes, commit the usage to the ledger. The outcome is
    /// exactly what the step model prescribes, and any error leaves the
    /// ledger bit-for-bit unchanged.
    #[verifier::loop_isolation(false)]
    #[verifier::rlimit(60)]
    pub fn validate_and_apply_parsed(
        &mut self,
        block_slot: u64,
        guarantees: &Vec<CoreTimeGuarantee>,
        assurances: &Vec<CoreTimeAssurance>,
        disputes: &Option<CoreTimeDisputes>,
    ) -> (r: Result<(), BlockchainError>)
        ensures
            r is Ok <==> coretime_step(
                old(self)@,
                block_slot,
                guarantees@,
                assurances@,
                *disputes,
            ) is Ok,
            r is Ok ==> coretime_step(old(self)@, block_slot, guarantees@, assurances@, *disputes)
                == Ok::<LedgerView, CoreTimeFault>(final(self)@),
            r matches Err(e) ==> {
                &&& *final(self) == *old(self)
                &&& coretime_step(
                    old(self)@,
                    block_slot,
                    guarantees@,
                    assurances@,
                    *disputes,
                ) matches Err(f) && fault_matches(e, f)
            },
    {
        let ghost l0: LedgerView = self@;

        // Fold the guarantees into local accumulators.
        let mut per_block: Vec<(u16, u64)> = Vec::new();
        let mut total_usage: u64 = 0;
        let mut seen: Vec<(u64, u16)> = Vec::new();

        proof {
            assert(guarantees@.skip(0) =~= guarantees@);
            assert(alist_map(per_block@) =~= Map::<u16, u64>::empty());
            assert(pair_set(seen@) =~= Set::<(u64, u16)>::empty());
        }

        let n = guarantees.len();
        let mut i: usize = 0;
        while i < n
            invariant
                0 <= i <= n,
                *self == *old(self),
                alist_unique(per_block@),
                guar_fold(guarantees@, block_slot, Map::empty(), 0, Set::empty()) == guar_fold(
                    guarantees@.skip(i as int),
                    block_slot,
                    alist_map(per_block@),
                    total_usage,
                    pair_set(seen@),
                ),
            decreases n - i,
        {
            proof {
                assert(guarantees@.skip(i as int).first() == guarantees@[i as int]);
                assert(guarantees@.skip(i as int).drop_first() =~= guarantees@.skip(i + 1));
            }
            let g = &guarantees[i];
            let core_index = g.report.core_index;

            if g.slot > block_slot {
                return Err(BlockchainError::CoreTimeValidationError {
                    fault: CoreTimeViolation::FutureSlot,
                });
            }
            if block_slot - g.slot > MAX_GUARANTEE_LOOKBACK {
                return Err(BlockchainError::CoreTimeValidationError {
                    fault: CoreTimeViolation::StaleSlot,
                });
            }
            if pairs_contain(&seen, (g.slot, core_index)) {
                return Err(BlockchainError::CoreTimeValidationError {
                    fault: CoreTimeViolation::DuplicateAllocation,
                });
            }

            let core_consumption = match guarantee_consumption(g) {
                Some(c) => c,
                None => {
                    return Err(BlockchainError::CoreTimeBalanceError);
                },
            };

            let prev: u64 = match alist_get(&per_block, core_index) {
                Some(x) => x,
                None => 0,
            };
            let entry = match prev.checked_add(core_consumption) {
                Some(x) => x,
                None => {
                    return Err(BlockchainError::CoreTimeBalanceError);
                },
            };
            if entry > MAX_CORETIME_PER_CORE {
                return Err(BlockchainError::CoreTimeBalanceError);
            }
            let new_total = match total_usage.checked_add(core_consumption) {
                Some(x) => x,
                None => {
                    return Err(BlockchainError::CoreTimeBalanceError);
                },
            };

            alist_set(&mut per_block, core_index, entry);
            total_usage = new_total;
            proof {
                assert(seen@.push((g.slot, core_index)).drop_last() =~= seen@);
                assert(pair_set(seen@.push((g.slot, core_index))) == pair_set(seen@).insert(
                    (g.slot, core_index),
                ));
            }
            seen.push((g.slot, core_index));
            i += 1;
        }
        proof {
            assert(guarantees@.skip(n as int) =~= Seq::<CoreTimeGuarantee>::empty());
        }

        if total_usage > MAX_CORETIME_PER_BLOCK {
            return Err(BlockchainError::CoreTimeBalanceError);
        }

        // Assurances: bounded count, non-blank bitfields, unique validators.
        if assurances.len() > MAX_ASSURANCES_PER_BLOCK {
            return Err(BlockchainError::CoreTimeValidationError {
                fault: CoreTimeViolation::TooManyAssurances,
            });
        }

        let mut seen_validators: Vec<u16> = Vec::new();
        proof {
            assert(assurances@.skip(0) =~= assurances@);
            assert(u16_set(seen_validators@) =~= Set::<u16>::empty());
        }
        let an = assurances.len();
        let mut ai: usize = 0;
        while ai < an
            invariant
                0 <= ai <= an,
                *self == *old(self),
                assur_fold(assurances@, Set::empty()) == assur_fold(
                    assurances@.skip(ai as int),
                    u16_set(seen_validators@),
                ),
            decreases an - ai,
        {
            proof {
                assert(assurances@.skip(ai as int).first() == assurances@[ai as int]);
                assert(assurances@.skip(ai as int).drop_first() =~= assurances@.skip(ai + 1));
            }
            let a = &assurances[ai];
            if bitfield_blank(&a.bitfield) {
                return Err(BlockchainError::CoreTimeValidationError {
                    fault: CoreTimeViolation::EmptyBitfield,
                });
            }
            if u16s_contain(&seen_validators, a.validator_index) {
                return Err(BlockchainError::CoreTimeValidationError {
                    fault: CoreTimeViolation::DuplicateValidator,
                });
            }
            proof {
                assert(seen_validators@.push(a.validator_index).drop_last() =~= seen_validators@);
                assert(u16_set(seen_validators@.push(a.validator_index)) == u16_set(
                    seen_validators@,
                ).insert(a.validator_index));
            }
            seen_validators.push(a.validator_index);
            ai += 1;
        }
        proof {
            assert(assurances@.skip(an as int) =~= Seq::<CoreTimeAssurance>::empty());
        }

        // Disputes: bounded verdict age, at least one vote per verdict.
        if let Some(d) = disputes {
            proof {
                assert(d.verdicts@.skip(0) =~= d.verdicts@);
            }
            let vn = d.verdicts.len();
            let mut vi: usize = 0;
            while vi < vn
                invariant
                    0 <= vi <= vn,
                    *self == *old(self),
                    verdict_fold(d.verdicts@) == verdict_fold(d.verdicts@.skip(vi as int)),
                decreases vn - vi,
            {
                proof {
                    assert(d.verdicts@.skip(vi as int).first() == d.verdicts@[vi as int]);
                    assert(d.verdicts@.skip(vi as int).drop_first() =~= d.verdicts@.skip(vi + 1));
                }
                let v = &d.verdicts[vi];
                if v.age > MAX_DISPUTE_AGE {
                    return Err(BlockchainError::CoreTimeValidationError {
                        fault: CoreTimeViolation::StaleVerdict,
                    });
                }
                if v.votes.len() == 0 {
                    return Err(BlockchainError::CoreTimeValidationError {
                        fault: CoreTimeViolation::NoVotes,
                    });
                }
                vi += 1;
            }
            proof {
                assert(d.verdicts@.skip(vn as int) =~= Seq::<DisputeVerdict>::empty());
            }
        }

        // Every check passed; make sure the commit itself cannot overflow,
        // then commit atomically.
        let new_allocated = match self.total_allocated.checked_add(total_usage) {
            Some(x) => x,
            None => {
                return Err(BlockchainError::CoreTimeBalanceError);
            },
        };
        let new_consumed = match self.total_consumed.checked_add(total_usage) {
            Some(x) => x,
            None => {
                return Err(BlockchainError::CoreTimeBalanceError);
            },
        };

        let pn = per_block.len();
        let mut pi: usize = 0;
        while pi < pn
            invariant
                0 <= pi <= pn,
                *self == *old(self),
                forall|j: int|
                    0 <= j < pi ==> old_core_total(l0.per_core, (#[trigger] per_block@[j]).0)
                        + per_block@[j].1 <= u64::MAX,
            decreases pn - pi,
        {
            let (k, c) = per_block[pi];
            let prev_total: u64 = match alist_get(&self.per_core_usage, k) {
                Some(u) => u.total_consumed,
                None => 0,
            };
            if prev_total.checked_add(c).is_none() {
                proof {
                    lemma_alist_index(per_block@, pi as int);
                    assert(alist_map(per_block@).contains_key(k));
                    assert(commit_overflows(l0.per_core, alist_map(per_block@)));
                }
                return Err(BlockchainError::CoreTimeBalanceError);
            }
            pi += 1;
        }
        proof {
            if commit_overflows(l0.per_core, alist_map(per_block@)) {
                let k = choose|k: u16| #[trigger]
                    alist_map(per_block@).contains_key(k) && old_core_total(l0.per_core, k)
                        + alist_map(per_block@)[k] > u64::MAX;
                lemma_alist_dom(per_block@);
                let j = choose|j: int| 0 <= j < per_block@.len() && (#[trigger] per_block@[j]).0
                    == k;
                lemma_alist_index(per_block@, j);
                assert(false);
            }
        }

        self.total_allocated = new_allocated;
        self.total_consumed = new_consumed;
        self.last_block_slot = Some(block_slot);

        let ghost pb_map: Map<u16, u64> = alist_map(per_block@);
        proof {
            assert(per_block@.subrange(0, 0) =~= Seq::<(u16, u64)>::empty());
            assert(alist_map(per_block@.subrange(0, 0)) =~= Map::<u16, u64>::empty());
            assert(merge_cores(l0.per_core, alist_map(per_block@.subrange(0, 0)), block_slot)
                =~= l0.per_core);
        }
        let mn = per_block.len();
        let mut mi: usize = 0;
        while mi < mn
            invariant
                0 <= mi <= mn,
                self.total_allocated == new_allocated,
                self.total_consumed == new_consumed,
                self.last_block_slot == Some(block_slot),
                alist_map(self.per_core_usage@) == merge_cores(
                    l0.per_core,
                    alist_map(per_block@.subrange(0, mi as int)),
                    block_slot,
                ),
            decreases mn - mi,
        {
            let (k, c) = per_block[mi];
            proof {
                lemma_alist_index(per_block@, mi as int);
                assert(alist_map(per_block@).contains_key(k) && alist_map(per_block@)[k] == c);
                assert(old_core_total(l0.per_core, k) + c <= u64::MAX);
                lemma_alist_dom(per_block@.subrange(0, mi as int));
                if alist_map(per_block@.subrange(0, mi as int)).contains_key(k) {
                    let j = choose|j: int|
                        0 <= j < mi && (#[trigger] per_block@.subrange(0, mi as int)[j]).0 == k;
                    assert(per_block@[j].0 == k);
                    assert(false);
                }
            }
            let prev_total: u64 = match alist_get(&self.per_core_usage, k) {
                Some(u) => u.total_consumed,
                None => 0,
            };
            proof {
                assert(prev_total == old_core_total(l0.per_core, k));
            }
            let nu = CoreUsage {
                total_consumed: prev_total + c,
                last_block_slot: block_slot,
                last_block_consumed: c,
            };
            alist_set(&mut self.per_core_usage, k, nu);
            proof {
                assert(per_block@.subrange(0, mi + 1) =~= per_block@.subrange(0, mi as int).push(
                    (k, c),
                ));
                assert forall|j: int| 0 <= j < mi implies (#[trigger] per_block@.subrange(
                    0,
                    mi as int,
                )[j]).0 != k by {
                    assert(per_block@.subrange(0, mi as int)[j] == per_block@[j]);
                }
                lemma_alist_push_absent(per_block@.subrange(0, mi as int), k, c);
                assert(alist_map(per_block@.subrange(0, mi + 1)) == alist_map(
                    per_block@.subrange(0, mi as int),
                ).insert(k, c));
                assert(alist_map(self.per_core_usage@) =~= merge_cores(
                    l0.per_core,
                    alist_map(per_block@.subrange(0, mi + 1)),
                    block_slot,
                ));
            }
            mi += 1;
        }
        proof {
            assert(per_block@.subrange(0, mn as int) =~= per_block@);
        }

        Ok(())
    }

    /// Validate and apply the CoreTime payloads carried by one block, given
    /// as raw JSON text. Each payload is first parsed into its strict shape;
    /// a payload that does not parse is a validation error. The parsed
    /// payloads are then validated and applied atomically: on any error the
    /// ledger is left bit-for-bit unchanged, and on success the ledger moves
    /// exactly as the step model prescribes for the parsed values. A block
    /// that carries no workload reports always succeeds and only records its
    /// slot.
    #[verifier::loop_isolation(false)]
    pub fn validate_and_apply(
        &mut self,
        block_slot: u64,
        guarantees: &Vec<Vec<u8>>,
        assurances: &Vec<Vec<u8>>,
        disputes: &Option<Vec<u8>>,
    ) -> (r: Result<(), BlockchainError>)
        ensures
            r matches Err(e) ==> {
                &&& *final(self) == *old(self)
                &&& (e is CoreTimeValidationError || e == BlockchainError::CoreTimeBalanceError)
            },
            r matches Err(e) && e == BlockchainError::CoreTimeBalanceError ==> exists|
                gs: Seq<CoreTimeGuarantee>,
                asr: Seq<CoreTimeAssurance>,
                ds: Option<CoreTimeDisputes>,
            |
                #[trigger] coretime_step(old(self)@, block_slot, gs, asr, ds) == Err::<
                    LedgerView,
                    CoreTimeFault,
                >(CoreTimeFault::Balance),
            guarantees@.len() == 0 && assurances@.len() == 0 && (*disputes) is None ==> r is Ok
                && final(self)@ == (LedgerView {
                last_block_slot: Some(block_slot),
                ..old(self)@
            }),
            r is Ok ==> final(self)@.last_block_slot == Some(block_slot),
            r is Ok ==> exists|
                gs: Seq<CoreTimeGuarantee>,
                asr: Seq<CoreTimeAssurance>,
                ds: Option<CoreTimeDisputes>,
            |
                #[trigger] coretime_step(old(self)@, block_slot, gs, asr, ds) == Ok::<
                    LedgerView,
                    CoreTimeFault,
                >(final(self)@),
    {
        let mut gs: Vec<CoreTimeGuarantee> = Vec::new();
        let gn = guarantees.len();
        let mut gi: usize = 0;
        while gi < gn
            invariant
                0 <= gi <= gn,
                gs@.len() == gi,
            decreases gn - gi,
        {
            let value = match jsonval::json_from_slice(&guarantees[gi]) {
                Some(v) => v,
                None => {
                    return Err(BlockchainError::CoreTimeValidationError {
                        fault: CoreTimeViolation::MalformedGuarantee,
                    });
                },
            };
            let g = match parse_guarantee(&value) {
                Some(g) => g,
                None => {
                    return Err(BlockchainError::CoreTimeValidationError {
                        fault: CoreTimeViolation::MalformedGuarantee,
                    });
                },
            };
            gs.push(g);
            gi += 1;
        }

        let mut asr: Vec<CoreTimeAssurance> = Vec::new();
        let an = assurances.len();
        let mut ai: usize = 0;
        while ai < an
            invariant
                0 <= ai <= an,
                asr@.len() == ai,
            decreases an - ai,
        {
            let value = match jsonval::json_from_slice(&assurances[ai]) {
                Some(v) => v,
                None => {
                    return Err(BlockchainError::CoreTimeValidationError {
                        fault: CoreTimeViolation::MalformedAssurance,
                    });
                },
            };
            let a = match parse_assurance(&value) {
                Some(a) => a,
                None => {
                    return Err(BlockchainError::CoreTimeValidationError {
                        fault: CoreTimeViolation::MalformedAssurance,
                    });
                },
            };
            asr.push(a);
            ai += 1;
        }

        let ds: Option<CoreTimeDisputes> = match disputes {
            None => None,
            Some(bytes) => {
                let value = match jsonval::json_from_slice(bytes) {
                    Some(v) => v,
                    None => {
                        return Err(BlockchainError::CoreTimeValidationError {
                            fault: CoreTimeViolation::MalformedDisputes,
                        });
                    },
                };
                if jsonval::value_is_null(&value) {
                    None
                } else {
                    match parse_disputes(&value) {
                        Some(d) => Some(d),
                        None => {
                            return Err(BlockchainError::CoreTimeValidationError {
                                fault: CoreTimeViolation::MalformedDisputes,
                            });
                        },
                    }
                }
            },
        };

        proof {
            if guarantees@.len() == 0 && assurances@.len() == 0 && (*disputes) is None {
                assert(gs@ =~= Seq::<CoreTimeGuarantee>::empty());
                assert(asr@ =~= Seq::<CoreTimeAssurance>::empty());
                lemma_coretime_step_empty(self@, block_slot);
            }
        }
        self.validate_and_apply_parsed(block_slot, &gs, &asr, &ds)
    }

    /// The total CoreTime consumed by a specific core, if tracked.
    pub fn per_core_consumed(&self, core_index: u16) -> (r: Option<u64>)
        ensures
            r == (if self@.per_core.contains_key(core_index) {
                Some(self@.per_core[core_index].total_consumed)
            } else {
                None
            }),
    {
        match alist_get(&self.per_core_usage, core_index) {
            Some(usage) => Some(usage.total_consumed),
            None => None,
        }
    }
}

/// Parse a guarantee from its loosely-typed JSON value into the strict
/// shape: a slot and a report carrying a core index, optional
/// authentication gas, and a list of results. Missing optional fields
/// default; a missing required field or a field of the wrong type is a
/// parse failure.
#[verifier::loop_isolation(false)]
fn parse_guarantee(v: &serde_json::Value) -> Option<CoreTimeGuarantee> {
    let slot_v = jsonval::value_get(v, "slot")?;
    let slot = jsonval::value_as_u64(slot_v)?;
    let report_v = jsonval::value_get(v, "report")?;

    let core_v = jsonval::value_get(report_v, "core_index")?;
    let core_u = jsonval::value_as_u64(core_v)?;
    if core_u > 0xFFFF {
        return None;
    }
    let core_index = core_u as u16;

    let auth_gas_used: Option<u64> = match jsonval::value_get(report_v, "auth_gas_used") {
        None => None,
        Some(av) => {
            if jsonval::value_is_null(av) {
                None
            } else {
                Some(jsonval::value_as_u64(av)?)
            }
        },
    };

    let mut results: Vec<GuaranteeResult> = Vec::new();
    match jsonval::value_get(report_v, "results") {
        None => {},
        Some(rv) => {
            let arr = jsonval::value_as_array(rv)?;
            let rn = arr.len();
            let mut ri: usize = 0;
            while ri < rn
                invariant
                    0 <= ri <= rn,
                decreases rn - ri,
            {
                let elem = &arr[ri];
                if !jsonval::value_is_object(elem) {
                    return None;
                }
                let accumulate_gas: u64 = match jsonval::value_get(elem, "accumulate_gas") {
                    None => 0,
                    Some(gv) => jsonval::value_as_u64(gv)?,
                };
                let service_id: u64 = match jsonval::value_get(elem, "service_id") {
                    None => 0,
                    Some(sv) => jsonval::value_as_u64(sv)?,
                };
                results.push(GuaranteeResult { accumulate_gas, service_id });
                ri += 1;
            }
        },
    }

    Some(
        CoreTimeGuarantee {
            slot,
            report: GuaranteeReport { auth_gas_used, core_index, results },
        },
    )
}

/// Parse an assurance from its loosely-typed JSON value: a bitfield string
/// and a validator index.
fn parse_assurance(v: &serde_json::Value) -> Option<CoreTimeAssurance> {
    let bf_v = jsonval::value_get(v, "bitfield")?;
    let bitfield = jsonval::value_as_str_bytes(bf_v)?;
    let idx_v = jsonval::value_get(v, "validator_index")?;
    let idx = jsonval::value_as_u64(idx_v)?;
    if idx > 0xFFFF {
        return None;
    }
    Some(CoreTimeAssurance { bitfield, validator_index: idx as u16 })
}

/// Parse a disputes payload from its loosely-typed JSON value: an object
/// whose verdicts each carry a target, an optional age and a list of votes,
/// each vote a record of a boolean, a validator index and a signature.
#[verifier::loop_isolation(false)]
fn parse_disputes(v: &serde_json::Value) -> Option<CoreTimeDisputes> {
    if !jsonval::value_is_object(v) {
        return None;
    }
    let mut verdicts: Vec<DisputeVerdict> = Vec::new();
    match jsonval::value_get(v, "verdicts") {
        None => {},
        Some(vv) => {
            let arr = jsonval::value_as_array(vv)?;
            let vn = arr.len();
            let mut vi: usize = 0;
            while vi < vn
                invariant
                    0 <= vi <= vn,
                decreases vn - vi,
            {
                let elem = &arr[vi];
                let target_v = jsonval::value_get(elem, "target")?;
                let target = jsonval::value_as_str_bytes(target_v)?;
                let age: u64 = match jsonval::value_get(elem, "age") {
                    None => 0,
                    Some(av) => jsonval::value_as_u64(av)?,
                };
                let mut votes: Vec<DisputeVote> = Vec::new();
                match jsonval::value_get(elem, "votes") {
                    None => {},
                    Some(wv) => {
                        let varr = jsonval::value_as_array(wv)?;
                        let wn = varr.len();
                        let mut wi: usize = 0;
                        while wi < wn
                            invariant
                                0 <= wi <= wn,
                            decreases wn - wi,
                        {
                            let velem = &varr[wi];
                            let vote_v = jsonval::value_get(velem, "vote")?;
                            let vote = jsonval::value_as_bool(vote_v)?;
                            let index_v = jsonval::value_get(velem, "index")?;
                            let index_u = jsonval::value_as_u64(index_v)?;
                            if index_u > 0xFFFF {
                                return None;
                            }
                            let sig_v = jsonval::value_get(velem, "signature")?;
                            let signature = jsonval::value_as_str_bytes(sig_v)?;
                            votes.push(
                                DisputeVote { vote, index: index_u as u16, signature },
                            );
                            wi += 1;
                        }
                    },
                }
                verdicts.push(DisputeVerdict { target, age, votes });
                vi += 1;
            }
        },
    }
    Some(CoreTimeDisputes { verdicts })
}

} // verus!

