//! Integer side of the compute backends.
//!
//! The batch paths use a counter-based random source: sample `k` of channel
//! `c` for individual `i` is a hash of `(seed, i, c, k)`, so a batch is
//! reproducible on any backend. Everything here stays in 32-bit integers,
//! because the shader language has no 64-bit integer type without an optional
//! extension. The constraint bitmap handed to the backends is laid out here
//! too: one bit per cell, row-major, 32 cells per word.

use vstd::prelude::*;
use vstd::wrapping::u32_specs;
use crate::arith::{lemma_u32_mul_inverse, lemma_u32_xor_cancel, lemma_u32_xor_cancel_left};
use vstd::arithmetic::div_mod::lemma_fundamental_div_mod_converse;
use vstd::arithmetic::mul::{lemma_mul_strict_inequality, lemma_mul_is_commutative};

verus! {

/// First multiplier of the 32-bit finaliser.
pub const HASH_M1: u32 = 0x7feb_352d;

/// Second multiplier of the 32-bit finaliser.
pub const HASH_M2: u32 = 0x846c_a68b;

/// The 32-bit finaliser, stated over wrapping arithmetic.
pub open spec fn hash32_spec(z: u32) -> u32 {
    let a = u32_specs::wrapping_mul(z ^ (z >> 16u32), HASH_M1);
    let b = u32_specs::wrapping_mul(a ^ (a >> 15u32), HASH_M2);
    b ^ (b >> 16u32)
}

/// 32-bit finaliser used by the counter-based random source.
pub fn hash32(z: u32) -> (r: u32)
    ensures
        r == hash32_spec(z),
{
    let mut z = z;
    z = (z ^ (z >> 16u32)).wrapping_mul(HASH_M1);
    z = (z ^ (z >> 15u32)).wrapping_mul(HASH_M2);
    z ^ (z >> 16u32)
}

proof fn lemma_unshift_16(z: u32)
    by (bit_vector)
    ensures
        (z ^ (z >> 16u32)) ^ ((z ^ (z >> 16u32)) >> 16u32) == z,
{
}

proof fn lemma_unshift_15(z: u32)
    by (bit_vector)
    ensures
        (z ^ (z >> 15u32)) ^ ((z ^ (z >> 15u32)) >> 15u32) ^ ((z ^ (z >> 15u32)) >> 30u32) == z,
{
}

/// The inverse of the 32-bit finaliser.
pub open spec fn unhash32_spec(r: u32) -> u32 {
    let b = r ^ (r >> 16u32);
    let a0 = u32_specs::wrapping_mul(b, 0x4302_1123u32);
    let a = a0 ^ (a0 >> 15u32) ^ (a0 >> 30u32);
    let z0 = u32_specs::wrapping_mul(a, 0x1d69_e2a5u32);
    z0 ^ (z0 >> 16u32)
}

/// The finaliser can be undone: `unhash32_spec` recovers its input.
pub proof fn lemma_unhash32_hash32(z: u32)
    ensures
        unhash32_spec(hash32_spec(z)) == z,
{
    let x0 = z ^ (z >> 16u32);
    let a = u32_specs::wrapping_mul(x0, HASH_M1);
    let x1 = a ^ (a >> 15u32);
    let b = u32_specs::wrapping_mul(x1, HASH_M2);
    lemma_unshift_16(b);
    assert((HASH_M2 as nat * 0x4302_1123u32 as nat) % 0x1_0000_0000nat == 1);
    lemma_u32_mul_inverse(x1, HASH_M2, 0x4302_1123u32);
    lemma_unshift_15(a);
    assert((HASH_M1 as nat * 0x1d69_e2a5u32 as nat) % 0x1_0000_0000nat == 1);
    lemma_u32_mul_inverse(x0, HASH_M1, 0x1d69_e2a5u32);
    lemma_unshift_16(z);
}

/// Law: the 32-bit finaliser is a bijection, so distinct counters never hash
/// to the same word.
pub proof fn lemma_hash32_injective(a: u32, b: u32)
    requires
        hash32_spec(a) == hash32_spec(b),
    ensures
        a == b,
{
    lemma_unhash32_hash32(a);
    lemma_unhash32_hash32(b);
}

/// Multiplier that spreads the channel index before it meets the individual.
pub const CHANNEL_SPREAD: u32 = 2_654_435_761;

/// Second-word offset of the counter source.
pub const SECOND_WORD_OFFSET: u32 = 0x9e37_79b9;

/// The hashed base word of counter position `(seed, individual, channel, sample)`.
pub open spec fn counter_base_spec(seed: u64, individual: u32, channel: u32, sample: u32) -> u32 {
    (seed as u32) ^ hash32_spec(individual ^ u32_specs::wrapping_mul(channel, CHANNEL_SPREAD))
        ^ hash32_spec(sample ^ ((seed >> 32u64) as u32))
}

/// Law: the counter source depends on the high word of the seed. Two seeds
/// with the same low 32 bits and different high 32 bits give different base
/// words, and so different first hash words, at every counter position.
pub proof fn lemma_counter_base_uses_high_seed_word(s1: u64, s2: u64, individual: u32, channel: u32, sample: u32)
    requires
        s1 as u32 == s2 as u32,
        (s1 >> 32u64) as u32 != (s2 >> 32u64) as u32,
    ensures
        counter_base_spec(s1, individual, channel, sample) != counter_base_spec(s2, individual, channel, sample),
        hash32_spec(counter_base_spec(s1, individual, channel, sample)) != hash32_spec(counter_base_spec(s2, individual, channel, sample)),
{
    let lead = (s1 as u32) ^ hash32_spec(individual ^ u32_specs::wrapping_mul(channel, CHANNEL_SPREAD));
    let h1 = hash32_spec(sample ^ ((s1 >> 32u64) as u32));
    let h2 = hash32_spec(sample ^ ((s2 >> 32u64) as u32));
    if counter_base_spec(s1, individual, channel, sample) == counter_base_spec(s2, individual, channel, sample) {
        lemma_u32_xor_cancel_left(h1, h2, lead);
        lemma_hash32_injective(sample ^ ((s1 >> 32u64) as u32), sample ^ ((s2 >> 32u64) as u32));
        lemma_u32_xor_cancel_left((s1 >> 32u64) as u32, (s2 >> 32u64) as u32, sample);
    }
    if hash32_spec(counter_base_spec(s1, individual, channel, sample)) == hash32_spec(counter_base_spec(s2, individual, channel, sample)) {
        lemma_hash32_injective(counter_base_spec(s1, individual, channel, sample), counter_base_spec(s2, individual, channel, sample));
    }
}

/// Law: the counter source depends on the low word of the seed. Two seeds
/// with the same high 32 bits and different low 32 bits give different base
/// words, and so different first hash words, at every counter position.
pub proof fn lemma_counter_base_uses_low_seed_word(s1: u64, s2: u64, individual: u32, channel: u32, sample: u32)
    requires
        s1 as u32 != s2 as u32,
        (s1 >> 32u64) as u32 == (s2 >> 32u64) as u32,
    ensures
        counter_base_spec(s1, individual, channel, sample) != counter_base_spec(s2, individual, channel, sample),
        hash32_spec(counter_base_spec(s1, individual, channel, sample)) != hash32_spec(counter_base_spec(s2, individual, channel, sample)),
{
    let spread = hash32_spec(individual ^ u32_specs::wrapping_mul(channel, CHANNEL_SPREAD));
    let h = hash32_spec(sample ^ ((s1 >> 32u64) as u32));
    if counter_base_spec(s1, individual, channel, sample) == counter_base_spec(s2, individual, channel, sample) {
        lemma_u32_xor_cancel((s1 as u32) ^ spread, (s2 as u32) ^ spread, h);
        lemma_u32_xor_cancel(s1 as u32, s2 as u32, spread);
    }
    if hash32_spec(counter_base_spec(s1, individual, channel, sample)) == hash32_spec(counter_base_spec(s2, individual, channel, sample)) {
        lemma_hash32_injective(counter_base_spec(s1, individual, channel, sample), counter_base_spec(s2, individual, channel, sample));
    }
}

/// The two 24-bit uniform mantissas of a counter position.
pub open spec fn counter_bits_spec(seed: u64, individual: u32, channel: u32, sample: u32) -> (u32, u32) {
    let first = hash32_spec(counter_base_spec(seed, individual, channel, sample));
    let second = hash32_spec(first ^ SECOND_WORD_OFFSET);
    (first >> 8u32, second >> 8u32)
}

/// The two 24-bit uniform mantissas the counter-based normal deviate is built
/// from, computed without any sequential state.
///
/// The Box–Muller transform that turns them into a normal deviate runs on the
/// floating-point side; the hash itself is exact on every backend.
pub fn counter_bits(seed: u64, individual: u32, channel: u32, sample: u32) -> (r: (u32, u32))
    ensures
        r == counter_bits_spec(seed, individual, channel, sample),
        r.0 < 0x100_0000,
        r.1 < 0x100_0000,
{
    let seed_lo = seed as u32;
    let seed_hi = (seed >> 32u64) as u32;
    let base = seed_lo ^ hash32(individual ^ channel.wrapping_mul(CHANNEL_SPREAD)) ^ hash32(sample ^ seed_hi);
    let first = hash32(base);
    let second = hash32(first ^ SECOND_WORD_OFFSET);
    assert((first >> 8u32) < 0x100_0000u32) by (bit_vector);
    assert((second >> 8u32) < 0x100_0000u32) by (bit_vector);
    (first >> 8u32, second >> 8u32)
}


/// Bit `b` of a word.
pub open spec fn bit_of(word: u32, b: u32) -> bool {
    (word >> b) & 1u32 == 1u32
}

/// Bit of `cell` in a row-major bitmap of 32 cells per word.
pub open spec fn bitmap_bit(words: Seq<u32>, cell: int) -> bool {
    bit_of(words[cell / 32], (cell % 32) as u32)
}

/// Number of 32-bit words a bitmap over `cells` cells needs.
pub open spec fn bitmap_words_spec(cells: int) -> int {
    (cells + 31) / 32
}

/// Number of 32-bit words the bitmap needs for a grid.
pub fn bitmap_words(cells: usize) -> (r: usize)
    ensures
        r == bitmap_words_spec(cells as int),
{
    cells / 32 + if cells % 32 == 0 { 0 } else { 1 }
}

proof fn lemma_set_bit(word: u32, b: u32, j: u32)
    by (bit_vector)
    requires
        b < 32,
        j < 32,
    ensures
        ((word | (1u32 << b)) >> j) & 1u32 == (if j == b { 1u32 } else { (word >> j) & 1u32 }),
{
}

proof fn lemma_zero_bits(j: u32)
    by (bit_vector)
    requires
        j < 32,
    ensures
        (0u32 >> j) & 1u32 == 0u32,
{
}

/// Packs a boolean mask into the backend bitmap: bit `cell % 32` of word
/// `cell / 32` is set exactly when `mask[cell]` is, for the first `cells`
/// cells, and the padding bits of the last word are clear.
///
/// Returns `None` when the mask is shorter than the grid.
pub fn pack_bitmap(mask: &[bool], cells: usize) -> (r: Option<Vec<u32>>)
    ensures
        r is None <==> mask@.len() < cells,
        r matches Some(words) ==> {
            &&& words@.len() == bitmap_words_spec(cells as int)
            &&& forall|c: int| 0 <= c < cells ==> #[trigger] bitmap_bit(words@, c) == mask@[c]
            &&& forall|c: int| cells <= c < words@.len() * 32 ==> !#[trigger] bitmap_bit(words@, c)
        },
{
    if mask.len() < cells {
        return None;
    }
    let words = bitmap_words(cells);
    let mut out: Vec<u32> = Vec::new();
    let mut w: usize = 0;
    while w < words
        invariant
            w <= words,
            words == bitmap_words_spec(cells as int),
            cells <= mask@.len(),
            out@.len() == w,
            forall|c: int| 0 <= c < w * 32 ==> #[trigger] bitmap_bit(out@, c) == (c < cells && mask@[c]),
        decreases words - w,
    {
        let base = w * 32;
        let mut word: u32 = 0;
        let mut b: u32 = 0;
        assert forall|j: u32| 0 <= j < 32 implies !#[trigger] bit_of(word, j) by {
            lemma_zero_bits(j);
        }
        while b < 32
            invariant
                b <= 32,
                base == w * 32,
                base < cells,
                cells <= mask@.len(),
                forall|j: u32| j < b ==> #[trigger] bit_of(word, j) == (base + j < cells && mask@[base + j]),
                forall|j: u32| b <= j < 32 ==> !#[trigger] bit_of(word, j),
            decreases 32 - b,
        {
            let inside = (b as usize) < cells - base;
            let set = inside && mask[base + b as usize];
            if set {
                let old_word = word;
                word = word | (1u32 << b);
                assert forall|j: u32| j < 32 implies #[trigger] bit_of(word, j) == (if j == b { true } else { bit_of(old_word, j) }) by {
                    lemma_set_bit(old_word, b, j);
                }
            }
            b = b + 1;
        }
        let ghost prev = out@;
        out.push(word);
        assert forall|c: int| 0 <= c < (w + 1) * 32 implies #[trigger] bitmap_bit(out@, c) == (c < cells && mask@[c]) by {
            if c < w * 32 {
                assert(c / 32 < w);
                assert(out@[c / 32] == prev[c / 32]);
                assert(bitmap_bit(prev, c) == (c < cells && mask@[c]));
            } else {
                let j = (c - w * 32) as u32;
                assert(c / 32 == w);
                assert(c % 32 == j);
                assert(bit_of(word, j) == (base + j < cells && mask@[base + j]));
            }
        }
        w = w + 1;
    }
    assert forall|c: int| cells <= c < out@.len() * 32 implies !#[trigger] bitmap_bit(out@, c) by {
        assert(bitmap_bit(out@, c) == (c < cells && mask@[c]));
    }
    Some(out)
}

/// Reads the bit of one cell from a backend bitmap.
pub fn bitmap_get(words: &[u32], cell: usize) -> (r: bool)
    requires
        cell / 32 < words@.len(),
    ensures
        r == bitmap_bit(words@, cell as int),
{
    (words[cell / 32] >> ((cell % 32) as u32)) & 1u32 == 1u32
}


/// Why a projection batch does not match its own declared sizes.
#[derive(Debug, Clone, Copy, PartialEq, Eq, Structural)]
pub enum BatchSizeError {
    /// The coordinate list does not hold two values per point.
    CoordinateCount,
    /// The distance field does not hold one value per grid cell.
    DistanceCount,
    /// The bitmap has fewer words than the grid needs.
    BitmapTooShort,
}

/// Checks a projection batch's buffers against its declared sizes, in the
/// order coordinates, distance field, bitmap.
pub fn validate_projection_sizes(
    points: usize,
    xy_len: usize,
    width: u32,
    height: u32,
    distance_len: usize,
    bitmap_len: usize,
) -> (r: Result<(), BatchSizeError>)
    requires
        points * 2 <= usize::MAX,
        width * height <= usize::MAX,
    ensures
        r == (if xy_len != points * 2 {
            Err(BatchSizeError::CoordinateCount)
        } else if distance_len != width * height {
            Err(BatchSizeError::DistanceCount)
        } else if bitmap_len < bitmap_words_spec(width * height) {
            Err(BatchSizeError::BitmapTooShort)
        } else {
            Ok(())
        }),
{
    if xy_len != points * 2 {
        return Err(BatchSizeError::CoordinateCount);
    }
    let cells = (width as usize) * (height as usize);
    if distance_len != cells {
        return Err(BatchSizeError::DistanceCount);
    }
    if bitmap_len < bitmap_words(cells) {
        return Err(BatchSizeError::BitmapTooShort);
    }
    Ok(())
}


/// Feature dimension of a set of weight vectors: the length of the first, or
/// zero when there is none.
pub open spec fn weight_dims<T>(vectors: Seq<Vec<T>>) -> int {
    if vectors.len() == 0 { 0 } else { vectors[0]@.len() as int }
}

/// Lays one weight vector per mode out as a row-major `[dims][modes]` matrix:
/// entry `dim * modes + mode` is component `dim` of vector `mode`.
///
/// Returns `None` when the vectors do not all have the dimension of the
/// first; on success the result is `(modes, dims, values)`.
pub fn weight_matrix_layout<T: Copy>(vectors: &[Vec<T>]) -> (r: Option<(usize, usize, Vec<T>)>)
    requires
        forall|i: int| 0 <= i < vectors@.len() ==> vectors@.len() * #[trigger] vectors@[i]@.len() <= usize::MAX,
    ensures
        r is None <==> exists|i: int| 0 <= i < vectors@.len() && #[trigger] vectors@[i]@.len() != weight_dims(vectors@),
        r matches Some((modes, dims, values)) ==> {
            &&& modes == vectors@.len()
            &&& dims == weight_dims(vectors@)
            &&& values@.len() == dims * modes
            &&& forall|d: int, m: int| 0 <= d < dims && 0 <= m < modes ==> #[trigger] values@[d * modes + m] == vectors@[m]@[d]
        },
{
    let modes = vectors.len();
    let dims = if modes == 0 { 0 } else { vectors[0].len() };
    let mut i: usize = 0;
    while i < modes
        invariant
            i <= modes,
            modes == vectors@.len(),
            dims == weight_dims(vectors@),
            forall|j: int| 0 <= j < i ==> #[trigger] vectors@[j]@.len() == dims,
        decreases modes - i,
    {
        if vectors[i].len() != dims {
            return None;
        }
        i = i + 1;
    }
    if modes == 0 {
        return Some((0, 0, Vec::new()));
    }
    assert(vectors@.len() * vectors@[0]@.len() <= usize::MAX);
    let total = dims * modes;
    let mut values: Vec<T> = Vec::new();
    let mut k: usize = 0;
    while k < total
        invariant
            k <= total,
            total == dims * modes,
            modes == vectors@.len(),
            modes > 0,
            forall|j: int| 0 <= j < modes ==> #[trigger] vectors@[j]@.len() == dims,
            values@.len() == k,
            forall|t: int| 0 <= t < k ==> #[trigger] values@[t] == vectors@[t % (modes as int)]@[t / (modes as int)],
        decreases total - k,
    {
        let m = k % modes;
        let d = k / modes;
        proof {
            vstd::arithmetic::div_mod::lemma_div_is_ordered(k as int, total as int, modes as int);
            assert(total as int / modes as int == dims) by {
                lemma_mul_is_commutative(dims as int, modes as int);
                vstd::arithmetic::div_mod::lemma_div_multiples_vanish(dims as int, modes as int);
            }
            if d >= dims {
                vstd::arithmetic::div_mod::lemma_fundamental_div_mod(k as int, modes as int);
                vstd::arithmetic::mul::lemma_mul_inequality(dims as int, d as int, modes as int);
                lemma_mul_is_commutative(d as int, modes as int);
            }
        }
        values.push(vectors[m][d]);
        k = k + 1;
    }
    proof {
        assert forall|d: int, m: int| 0 <= d < dims && 0 <= m < modes implies #[trigger] values@[d * modes + m] == vectors@[m]@[d] by {
            let t = d * modes + m;
            lemma_fundamental_div_mod_converse(t, modes as int, d, m);
            lemma_mul_strict_inequality(d, dims as int, modes as int);
            assert(t < dims * modes) by (nonlinear_arith)
                requires
                    0 <= d < dims,
                    0 <= m < modes,
                    t == d * modes + m;
        }
    }
    Some((modes, dims, values))
}

} // verus!
