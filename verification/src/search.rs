//! Candidate bookkeeping of the path search.
//!
//! The candidate library of an origin-destination pair is identified by its
//! generation parameters, so a stored library is never mixed with a run that
//! uses other ones. Overlap between candidate routes is measured on rounded
//! segment keys that do not depend on the direction a segment is travelled.

use vstd::prelude::*;
use vstd::wrapping::u32_specs;
use vstd::bytes::spec_u64_to_le_bytes;
use crate::arith::{lemma_u32_mul_inverse, lemma_u32_xor_cancel, lemma_u32_xor_cancel_left};

verus! {

/// Penalty that leaves every edge alone.
#[derive(Debug, Clone, Copy, Default)]
pub struct NoPenalty;

/// Offset basis of the 32-bit FNV-1a hash.
pub const FNV_OFFSET: u32 = 0x811C_9DC5;

/// Prime of the 32-bit FNV-1a hash.
pub const FNV_PRIME: u32 = 0x0100_0193;

/// Inverse of [`FNV_PRIME`] modulo 2^32.
pub const FNV_PRIME_INV: u32 = 0x359c_449b;

/// One FNV-1a step: xor the word in, multiply by the prime.
pub open spec fn fnv_step(hash: u32, value: u32) -> u32 {
    u32_specs::wrapping_mul(hash ^ value, FNV_PRIME)
}

/// Identifier of a parameter combination, over its four integer words.
pub open spec fn param_set_id_spec(k: u32, penalty_mu_milli: u32, overlap_milli: u32, max_attempts: u32) -> u32 {
    fnv_step(fnv_step(fnv_step(fnv_step(FNV_OFFSET, k), penalty_mu_milli), overlap_milli), max_attempts)
}

/// Stable identifier of a parameter combination.
///
/// Written into a stored library's header and compared on load. The two
/// ratios enter as thousandths, rounded, and the counts are truncated to 32
/// bits; the words are folded with FNV-1a in the order `k`, penalty,
/// overlap, attempts.
pub fn param_set_id(k: usize, penalty_mu_milli: u32, overlap_milli: u32, max_attempts: usize) -> (r: u32)
    ensures
        r == param_set_id_spec(k as u32, penalty_mu_milli, overlap_milli, max_attempts as u32),
{
    let mut hash = FNV_OFFSET;
    hash = (hash ^ (k as u32)).wrapping_mul(FNV_PRIME);
    hash = (hash ^ penalty_mu_milli).wrapping_mul(FNV_PRIME);
    hash = (hash ^ overlap_milli).wrapping_mul(FNV_PRIME);
    hash = (hash ^ (max_attempts as u32)).wrapping_mul(FNV_PRIME);
    hash
}

proof fn lemma_fnv_prime_inverse(z: u32)
    ensures
        u32_specs::wrapping_mul(u32_specs::wrapping_mul(z, FNV_PRIME), FNV_PRIME_INV) == z,
{
    assert((FNV_PRIME as nat * FNV_PRIME_INV as nat) % 0x1_0000_0000nat == 1);
    lemma_u32_mul_inverse(z, FNV_PRIME, FNV_PRIME_INV);
}

/// An FNV step is injective in the running hash.
proof fn lemma_fnv_step_injective_hash(h1: u32, h2: u32, value: u32)
    requires
        fnv_step(h1, value) == fnv_step(h2, value),
    ensures
        h1 == h2,
{
    lemma_fnv_prime_inverse(h1 ^ value);
    lemma_fnv_prime_inverse(h2 ^ value);
    lemma_u32_xor_cancel(h1, h2, value);
}

/// An FNV step is injective in the folded word.
proof fn lemma_fnv_step_injective_value(hash: u32, v1: u32, v2: u32)
    requires
        fnv_step(hash, v1) == fnv_step(hash, v2),
    ensures
        v1 == v2,
{
    lemma_fnv_prime_inverse(hash ^ v1);
    lemma_fnv_prime_inverse(hash ^ v2);
    lemma_u32_xor_cancel_left(v1, v2, hash);
}

/// Law: the identifier changes whenever exactly one of the four parameter
/// words changes.
pub proof fn lemma_param_set_id_separates(
    k: u32, mu: u32, overlap: u32, attempts: u32,
    k2: u32, mu2: u32, overlap2: u32, attempts2: u32,
)
    requires
        (k != k2 && mu == mu2 && overlap == overlap2 && attempts == attempts2)
        || (k == k2 && mu != mu2 && overlap == overlap2 && attempts == attempts2)
        || (k == k2 && mu == mu2 && overlap != overlap2 && attempts == attempts2)
        || (k == k2 && mu == mu2 && overlap == overlap2 && attempts != attempts2),
    ensures
        param_set_id_spec(k, mu, overlap, attempts) != param_set_id_spec(k2, mu2, overlap2, attempts2),
{
    let a1 = fnv_step(FNV_OFFSET, k);
    let a2 = fnv_step(FNV_OFFSET, k2);
    let b1 = fnv_step(a1, mu);
    let b2 = fnv_step(a2, mu2);
    let c1 = fnv_step(b1, overlap);
    let c2 = fnv_step(b2, overlap2);
    if param_set_id_spec(k, mu, overlap, attempts) == param_set_id_spec(k2, mu2, overlap2, attempts2) {
        if attempts == attempts2 {
            lemma_fnv_step_injective_hash(c1, c2, attempts);
            if overlap == overlap2 {
                lemma_fnv_step_injective_hash(b1, b2, overlap);
                if mu == mu2 {
                    lemma_fnv_step_injective_hash(a1, a2, mu);
                    lemma_fnv_step_injective_value(FNV_OFFSET, k, k2);
                } else {
                    lemma_fnv_step_injective_value(a1, mu, mu2);
                }
            } else {
                lemma_fnv_step_injective_value(b1, overlap, overlap2);
            }
        } else {
            lemma_fnv_step_injective_value(c1, attempts, attempts2);
        }
    }
}

/// The xxHash64 digest of a byte string under a seed, as computed by the
/// `twox-hash` crate.
pub uninterp spec fn xxhash64(seed: u64, data: Seq<u8>) -> u64;

/// Computes xxHash64 of `data` with `seed` through
/// `twox_hash::XxHash64::oneshot`; the digest is named, not spelled out.
#[verifier::external_body]
fn xxhash64_oneshot(seed: u64, data: &[u8]) -> (r: u64)
    ensures
        r == xxhash64(seed, data@),
{
    twox_hash::XxHash64::oneshot(seed, data)
}

/// Appends the little-endian bytes of a word.
fn push_le_bytes(out: &mut Vec<u8>, value: u64)
    ensures
        final(out)@ == old(out)@ + spec_u64_to_le_bytes(value),
{
    let bytes = vstd::bytes::u64_to_le_bytes(value);
    let mut i: usize = 0;
    let ghost start = out@;
    while i < bytes.len()
        invariant
            i <= bytes@.len(),
            bytes@ == spec_u64_to_le_bytes(value),
            out@ == start + bytes@.subrange(0, i as int),
        decreases bytes@.len() - i,
    {
        out.push(bytes[i]);
        i = i + 1;
    }
    assert(bytes@.subrange(0, bytes@.len() as int) =~= bytes@);
}

/// The byte string a parameter set is hashed over: `k` as a 64-bit word,
/// then the bit patterns of the penalty multiplier and the overlap ratio,
/// each little-endian.
pub open spec fn candidate_params_bytes(k: usize, penalty_mu_bits: u64, overlap_bits: u64) -> Seq<u8> {
    spec_u64_to_le_bytes(k as u64) + spec_u64_to_le_bytes(penalty_mu_bits) + spec_u64_to_le_bytes(overlap_bits)
}

/// Parameter hash used to detect a mismatched stored library: xxHash64 with
/// seed zero over `k` and the bit patterns of the two ratios.
pub fn candidate_params_hash(k: usize, penalty_mu_bits: u64, overlap_bits: u64) -> (r: u64)
    ensures
        r == xxhash64(0, candidate_params_bytes(k, penalty_mu_bits, overlap_bits)),
{
    let mut bytes: Vec<u8> = Vec::new();
    push_le_bytes(&mut bytes, k as u64);
    push_le_bytes(&mut bytes, penalty_mu_bits);
    push_le_bytes(&mut bytes, overlap_bits);
    xxhash64_oneshot(0, bytes.as_slice())
}


/// A polyline segment on the half-metre lattice: start and end corners.
#[derive(Debug, Clone, Copy, PartialEq, Eq, Structural)]
pub struct SegmentKey {
    /// Start column.
    pub x0: i64,
    /// Start row.
    pub y0: i64,
    /// End column.
    pub x1: i64,
    /// End row.
    pub y1: i64,
}

/// The segment with its ends swapped.
pub open spec fn reversed(key: SegmentKey) -> SegmentKey {
    SegmentKey { x0: key.x1, y0: key.y1, x1: key.x0, y1: key.y0 }
}

/// True when the segment's ends are in canonical order: the start is the
/// lexicographically smaller corner.
pub open spec fn is_canonical(key: SegmentKey) -> bool {
    key.x0 < key.x1 || (key.x0 == key.x1 && key.y0 <= key.y1)
}

/// The direction-free form of a segment key.
pub open spec fn canonical_spec(key: SegmentKey) -> SegmentKey {
    if key.x0 > key.x1 || (key.x0 == key.x1 && key.y0 > key.y1) {
        reversed(key)
    } else {
        key
    }
}

/// Orders a segment key's ends so that the same segment scores as shared in
/// both travel directions.
pub fn canonical_key(key: SegmentKey) -> (r: SegmentKey)
    ensures
        r == canonical_spec(key),
        is_canonical(r),
        r == key || r == reversed(key),
{
    if key.x0 > key.x1 || (key.x0 == key.x1 && key.y0 > key.y1) {
        SegmentKey { x0: key.x1, y0: key.y1, x1: key.x0, y1: key.y0 }
    } else {
        key
    }
}

/// Law: a segment and its reverse have the same key, and canonical keys are
/// left alone.
pub proof fn lemma_canonical_key_direction_free(key: SegmentKey)
    ensures
        canonical_spec(key) == canonical_spec(reversed(key)),
        canonical_spec(canonical_spec(key)) == canonical_spec(key),
{
}

/// Law: two segments share a key exactly when they join the same two corners.
pub proof fn lemma_canonical_key_same_segment(a: SegmentKey, b: SegmentKey)
    ensures
        canonical_spec(a) == canonical_spec(b) <==> (a == b || a == reversed(b)),
{
}

/// True when `key` occurs in `keys`.
pub fn contains_key(keys: &[SegmentKey], key: SegmentKey) -> (r: bool)
    ensures
        r == keys@.contains(key),
{
    let mut i: usize = 0;
    while i < keys.len()
        invariant
            i <= keys@.len(),
            forall|j: int| 0 <= j < i ==> keys@[j] != key,
        decreases keys@.len() - i,
    {
        if keys[i] == key {
            assert(keys@[i as int] == key);
            return true;
        }
        i = i + 1;
    }
    proof {
        if keys@.contains(key) {
            let j = choose|j: int| 0 <= j < keys@.len() && keys@[j] == key;
            assert(keys@[j] != key);
        }
    }
    false
}

/// Number of key lists among `lists` that contain `key`.
pub open spec fn lists_containing(lists: Seq<Vec<SegmentKey>>, key: SegmentKey) -> nat
    decreases lists.len(),
{
    if lists.len() == 0 {
        0
    } else {
        lists_containing(lists.drop_last(), key) + if lists.last()@.contains(key) { 1nat } else { 0nat }
    }
}

/// Number of candidates whose key list contains `key`, at least one.
///
/// This is the share a segment is divided by in the path-size factor: a
/// segment used by three candidates counts a third towards each of them.
pub fn segment_appearances(lists: &[Vec<SegmentKey>], key: SegmentKey) -> (r: usize)
    ensures
        r == if lists_containing(lists@, key) == 0 { 1 } else { lists_containing(lists@, key) },
{
    let mut count: usize = 0;
    let mut i: usize = 0;
    while i < lists.len()
        invariant
            i <= lists@.len(),
            count == lists_containing(lists@.subrange(0, i as int), key),
            count <= i,
        decreases lists@.len() - i,
    {
        assert(lists@.subrange(0, i + 1).drop_last() =~= lists@.subrange(0, i as int));
        if contains_key(lists[i].as_slice(), key) {
            count = count + 1;
        }
        i = i + 1;
    }
    assert(lists@.subrange(0, lists@.len() as int) =~= lists@);
    if count == 0 {
        1
    } else {
        count
    }
}


/// What one candidate search produced.
#[derive(Debug, Clone, Copy, PartialEq, Eq, Structural)]
pub enum AttemptOutcome {
    /// The search failed or returned fewer than two points.
    NoPath,
    /// The route duplicates an accepted one or overlaps it too much.
    Rejected,
    /// The route is a new candidate.
    Accepted,
}

/// Bookkeeping of the K-shortest enumeration by edge penalisation.
///
/// Search, penalise, search again, until `k` candidates exist. Every search
/// counts as an attempt, and there are at most `k * (max_attempts + 1)` of
/// them. A run of more than `max_attempts` consecutive rejections ends the
/// enumeration with what was accepted so far: a leg with no room for `k`
/// mutually distinct routes never satisfies the overlap limit.
#[derive(Debug, Clone, Copy, PartialEq, Eq, Structural)]
pub struct CandidateRun {
    k: usize,
    max_attempts: usize,
    max_iterations: usize,
    attempts: usize,
    rejections: usize,
    accepted: usize,
    pending: bool,
}

impl CandidateRun {
    /// Number of candidates wanted.
    pub closed spec fn wanted(&self) -> nat {
        self.k as nat
    }

    /// Consecutive rejections tolerated.
    pub closed spec fn patience(&self) -> nat {
        self.max_attempts as nat
    }

    /// Searches started so far.
    pub closed spec fn attempts_spec(&self) -> nat {
        self.attempts as nat
    }

    /// Consecutive rejections since the last acceptance.
    pub closed spec fn rejections_spec(&self) -> nat {
        self.rejections as nat
    }

    /// Candidates accepted so far.
    pub closed spec fn accepted_spec(&self) -> nat {
        self.accepted as nat
    }

    /// True between the start of an attempt and the record of its outcome.
    pub closed spec fn pending(&self) -> bool {
        self.pending
    }

    /// The bookkeeping is consistent: the search budget is
    /// `k * (max_attempts + 1)`, no counter exceeds it, and an attempt in
    /// progress has room for its outcome.
    pub closed spec fn wf(&self) -> bool {
        &&& self.max_iterations == self.k * (self.max_attempts + 1)
        &&& self.attempts <= self.max_iterations
        &&& self.accepted <= self.attempts
        &&& self.accepted <= self.k
        &&& self.rejections <= self.attempts
        &&& self.pending ==> {
            &&& self.accepted < self.k
            &&& self.accepted < self.attempts
            &&& self.rejections < self.attempts
        }
    }

    /// Search budget of the enumeration.
    pub open spec fn budget(&self) -> nat {
        self.wanted() * (self.patience() + 1)
    }

    /// Starts an enumeration for `k` candidates.
    pub fn new(k: usize, max_attempts: usize) -> (r: Self)
        requires
            max_attempts < usize::MAX,
            k * (max_attempts + 1) <= usize::MAX,
        ensures
            r.wf(),
            r.wanted() == k,
            r.patience() == max_attempts,
            r.attempts_spec() == 0,
            r.rejections_spec() == 0,
            r.accepted_spec() == 0,
            !r.pending(),
    {
        CandidateRun { k, max_attempts, max_iterations: k * (max_attempts + 1), attempts: 0, rejections: 0, accepted: 0, pending: false }
    }

    /// Decides whether another search runs, counting it as an attempt when it
    /// does: while fewer than `k` candidates are accepted and the budget is
    /// not spent.
    pub fn next_attempt(&mut self) -> (go: bool)
        requires
            old(self).wf(),
            !old(self).pending(),
        ensures
            final(self).wf(),
            final(self).pending() == go,
            go == (old(self).accepted_spec() < old(self).wanted() && old(self).attempts_spec() < old(self).budget()),
            final(self).attempts_spec() == old(self).attempts_spec() + if go { 1nat } else { 0nat },
            final(self).wanted() == old(self).wanted(),
            final(self).patience() == old(self).patience(),
            final(self).rejections_spec() == old(self).rejections_spec(),
            final(self).accepted_spec() == old(self).accepted_spec(),
    {
        if self.accepted < self.k && self.attempts < self.max_iterations {
            self.attempts = self.attempts + 1;
            self.pending = true;
            true
        } else {
            false
        }
    }

    /// Records what the attempt produced and decides whether to go on: a
    /// failed search stops, a rejection stops once more than `max_attempts`
    /// rejections ran in a row, an acceptance resets that run.
    pub fn record(&mut self, outcome: AttemptOutcome) -> (go_on: bool)
        requires
            old(self).wf(),
            old(self).pending(),
        ensures
            final(self).wf(),
            !final(self).pending(),
            final(self).wanted() == old(self).wanted(),
            final(self).patience() == old(self).patience(),
            final(self).attempts_spec() == old(self).attempts_spec(),
            match outcome {
                AttemptOutcome::NoPath => {
                    &&& !go_on
                    &&& final(self).accepted_spec() == old(self).accepted_spec()
                    &&& final(self).rejections_spec() == old(self).rejections_spec()
                },
                AttemptOutcome::Rejected => {
                    &&& final(self).rejections_spec() == old(self).rejections_spec() + 1
                    &&& final(self).accepted_spec() == old(self).accepted_spec()
                    &&& go_on == (final(self).rejections_spec() <= final(self).patience())
                },
                AttemptOutcome::Accepted => {
                    &&& go_on
                    &&& final(self).rejections_spec() == 0
                    &&& final(self).accepted_spec() == old(self).accepted_spec() + 1
                },
            },
    {
        self.pending = false;
        match outcome {
            AttemptOutcome::NoPath => false,
            AttemptOutcome::Rejected => {
                self.rejections = self.rejections + 1;
                self.rejections <= self.max_attempts
            },
            AttemptOutcome::Accepted => {
                self.rejections = 0;
                self.accepted = self.accepted + 1;
                true
            },
        }
    }

    /// Candidates accepted so far.
    pub fn accepted(&self) -> (r: usize)
        ensures
            r == self.accepted_spec(),
    {
        self.accepted
    }

    /// Searches started so far.
    pub fn attempts(&self) -> (r: usize)
        ensures
            r == self.attempts_spec(),
    {
        self.attempts
    }
}

/// Law: an enumeration never runs more than `k * (max_attempts + 1)`
/// searches and never accepts more than `k` candidates.
pub proof fn lemma_candidate_run_bounded(run: CandidateRun)
    requires
        run.wf(),
    ensures
        run.attempts_spec() <= run.budget(),
        run.accepted_spec() <= run.wanted(),
        run.accepted_spec() <= run.attempts_spec(),
{
}

} // verus!
