//! Deterministic random streams.
//!
//! Every stochastic quantity draws from a stream derived from
//! `(global seed, purpose, individual index, channel index)`. The key is folded
//! one component at a time through the SplitMix64 finaliser, which is a
//! bijection of `u64`, so two keys that differ in a single component never
//! seed the same generator.

use rand_chacha::rand_core::{Rng as _, SeedableRng};
use rand_chacha::ChaCha8Rng;
use vstd::prelude::*;
use vstd::wrapping::u64_specs;
use crate::arith::{lemma_u64_mul_inverse, lemma_u64_xor_cancel, lemma_u64_xor_cancel_left};

verus! {

/// Additive constant of the SplitMix64 finaliser.
pub const MIX_GOLDEN: u64 = 0x9E37_79B9_7F4A_7C15;

/// First multiplier of the SplitMix64 finaliser.
pub const MIX_M1: u64 = 0xBF58_476D_1CE4_E5B9;

/// Second multiplier of the SplitMix64 finaliser.
pub const MIX_M2: u64 = 0x94D0_49BB_1331_11EB;

/// The SplitMix64 finaliser, stated over wrapping arithmetic.
pub open spec fn mix64_spec(value: u64) -> u64 {
    let v = u64_specs::wrapping_add(value, MIX_GOLDEN);
    let z1 = u64_specs::wrapping_mul(v ^ (v >> 30u64), MIX_M1);
    let z2 = u64_specs::wrapping_mul(z1 ^ (z1 >> 27u64), MIX_M2);
    z2 ^ (z2 >> 31u64)
}

/// SplitMix64 finaliser: mixes a counter into a well-distributed 64-bit value.
pub fn mix64(value: u64) -> (r: u64)
    ensures
        r == mix64_spec(value),
{
    let value = value.wrapping_add(MIX_GOLDEN);
    let mut z = value;
    z = (z ^ (z >> 30u64)).wrapping_mul(MIX_M1);
    z = (z ^ (z >> 27u64)).wrapping_mul(MIX_M2);
    z ^ (z >> 31u64)
}


proof fn lemma_unshift_30(z: u64)
    by (bit_vector)
    ensures
        (z ^ (z >> 30u64)) ^ ((z ^ (z >> 30u64)) >> 30u64) ^ ((z ^ (z >> 30u64)) >> 60u64) == z,
{
}

proof fn lemma_unshift_27(z: u64)
    by (bit_vector)
    ensures
        (z ^ (z >> 27u64)) ^ ((z ^ (z >> 27u64)) >> 27u64) ^ ((z ^ (z >> 27u64)) >> 54u64) == z,
{
}

proof fn lemma_unshift_31(z: u64)
    by (bit_vector)
    ensures
        (z ^ (z >> 31u64)) ^ ((z ^ (z >> 31u64)) >> 31u64) ^ ((z ^ (z >> 31u64)) >> 62u64) == z,
{
}

/// The inverse of the SplitMix64 finaliser.
pub open spec fn unmix64_spec(r: u64) -> u64 {
    let z2 = r ^ (r >> 31u64) ^ (r >> 62u64);
    let y1 = u64_specs::wrapping_mul(z2, 0x319642b2d24d8ec3u64);
    let z1 = y1 ^ (y1 >> 27u64) ^ (y1 >> 54u64);
    let y0 = u64_specs::wrapping_mul(z1, 0x96de1b173f119089u64);
    let v = y0 ^ (y0 >> 30u64) ^ (y0 >> 60u64);
    u64_specs::wrapping_sub(v, MIX_GOLDEN)
}

/// The finaliser can be undone: `unmix64_spec` recovers its input.
pub proof fn lemma_unmix64_mix64(value: u64)
    ensures
        unmix64_spec(mix64_spec(value)) == value,
{
    let v = u64_specs::wrapping_add(value, MIX_GOLDEN);
    let x0 = v ^ (v >> 30u64);
    let z1 = u64_specs::wrapping_mul(x0, MIX_M1);
    let x1 = z1 ^ (z1 >> 27u64);
    let z2 = u64_specs::wrapping_mul(x1, MIX_M2);
    let r = z2 ^ (z2 >> 31u64);
    lemma_unshift_31(z2);
    assert(r ^ (r >> 31u64) ^ (r >> 62u64) == z2);
    assert((MIX_M2 as nat * 0x319642b2d24d8ec3u64 as nat) % 0x1_0000_0000_0000_0000nat == 1);
    lemma_u64_mul_inverse(x1, MIX_M2, 0x319642b2d24d8ec3u64);
    lemma_unshift_27(z1);
    assert((MIX_M1 as nat * 0x96de1b173f119089u64 as nat) % 0x1_0000_0000_0000_0000nat == 1);
    lemma_u64_mul_inverse(x0, MIX_M1, 0x96de1b173f119089u64);
    lemma_unshift_30(v);
}

/// Law: the SplitMix64 finaliser is injective, so distinct inputs never mix
/// to the same value.
pub proof fn lemma_mix64_injective(a: u64, b: u64)
    requires
        mix64_spec(a) == mix64_spec(b),
    ensures
        a == b,
{
    lemma_unmix64_mix64(a);
    lemma_unmix64_mix64(b);
}


/// Purpose tag mixed into a stream seed.
///
/// Distinct tags guarantee that two features using the same individual index
/// never share a stream by accident.
#[derive(Debug, Clone, Copy, PartialEq, Eq, Structural)]
pub enum Stream {
    /// Population sampling of individual parameters.
    Person,
    /// PRM waypoint sampling.
    Prm,
    /// Logit path choice.
    PathChoice,
    /// Ornstein–Uhlenbeck pace drift.
    PaceDrift,
    /// Ornstein–Uhlenbeck lateral offset.
    LateralOffset,
    /// White position jitter.
    PositionJitter,
    /// Step-frequency phase reference.
    StepPhase,
    /// GNSS slow bias and white noise.
    Gnss,
    /// Accelerometer bias and white noise.
    Accelerometer,
    /// Gyroscope bias and white noise.
    Gyroscope,
    /// Magnetometer bias and disturbance.
    Magnetometer,
    /// Barometer noise and weather drift.
    Barometer,
    /// Region event decisions in probabilistic mode.
    RegionEvent,
    /// Multi-path events.
    Multipath,
    /// Turn maneuver timing jitter.
    Maneuver,
}

impl Stream {
    /// Numeric tag of the purpose, one to fifteen in declaration order.
    pub open spec fn tag_value(self) -> u64 {
        match self {
            Stream::Person => 1,
            Stream::Prm => 2,
            Stream::PathChoice => 3,
            Stream::PaceDrift => 4,
            Stream::LateralOffset => 5,
            Stream::PositionJitter => 6,
            Stream::StepPhase => 7,
            Stream::Gnss => 8,
            Stream::Accelerometer => 9,
            Stream::Gyroscope => 10,
            Stream::Magnetometer => 11,
            Stream::Barometer => 12,
            Stream::RegionEvent => 13,
            Stream::Multipath => 14,
            Stream::Maneuver => 15,
        }
    }

    /// Numeric tag of the purpose, as folded into a stream key.
    pub fn tag(self) -> (t: u64)
        ensures
            t == self.tag_value(),
    {
        match self {
            Stream::Person => 1,
            Stream::Prm => 2,
            Stream::PathChoice => 3,
            Stream::PaceDrift => 4,
            Stream::LateralOffset => 5,
            Stream::PositionJitter => 6,
            Stream::StepPhase => 7,
            Stream::Gnss => 8,
            Stream::Accelerometer => 9,
            Stream::Gyroscope => 10,
            Stream::Magnetometer => 11,
            Stream::Barometer => 12,
            Stream::RegionEvent => 13,
            Stream::Multipath => 14,
            Stream::Maneuver => 15,
        }
    }
}

/// Odd multiplier used to separate the components of a stream key before
/// mixing, so that permuting two components cannot cancel out.
pub const KEY_GOLDEN: u64 = 0x9E37_79B9_7F4A_7C15;

/// Inverse of [`KEY_GOLDEN`] modulo 2^64.
pub const KEY_GOLDEN_INV: u64 = 0xf1de_83e1_9937_733d;

/// One folding step of a stream key: spread the component, xor it in, mix.
pub open spec fn fold_key(mixed: u64, component: u64) -> u64 {
    mix64_spec(mixed ^ u64_specs::wrapping_mul(component, KEY_GOLDEN))
}

/// The generator seed of the stream `(seed, stream tag, individual, channel)`.
pub open spec fn stream_key_spec(seed: u64, tag: u64, individual: u32, channel: u32) -> u64 {
    fold_key(fold_key(fold_key(mix64_spec(seed), tag), individual as u64), channel as u64)
}

/// Computes the generator seed of a stream.
///
/// The four components are folded in one at a time rather than packed into
/// disjoint bit fields: a packed key needs every component to fit its slot,
/// and `individual` and `channel` are both wider than the slots a 64-bit word
/// can spare.
pub fn stream_key(seed: u64, stream: Stream, individual: u32, channel: u32) -> (r: u64)
    ensures
        r == stream_key_spec(seed, stream.tag_value(), individual, channel),
{
    let mut mixed = mix64(seed);
    mixed = mix64(mixed ^ stream.tag().wrapping_mul(KEY_GOLDEN));
    mixed = mix64(mixed ^ (individual as u64).wrapping_mul(KEY_GOLDEN));
    mixed = mix64(mixed ^ (channel as u64).wrapping_mul(KEY_GOLDEN));
    mixed
}

/// Folding a component is injective in the accumulated key.
proof fn lemma_fold_key_injective_mixed(m1: u64, m2: u64, component: u64)
    requires
        fold_key(m1, component) == fold_key(m2, component),
    ensures
        m1 == m2,
{
    let c = u64_specs::wrapping_mul(component, KEY_GOLDEN);
    lemma_mix64_injective(m1 ^ c, m2 ^ c);
    lemma_u64_xor_cancel(m1, m2, c);
}

/// Folding a component is injective in the component.
proof fn lemma_fold_key_injective_component(mixed: u64, c1: u64, c2: u64)
    requires
        fold_key(mixed, c1) == fold_key(mixed, c2),
    ensures
        c1 == c2,
{
    let w1 = u64_specs::wrapping_mul(c1, KEY_GOLDEN);
    let w2 = u64_specs::wrapping_mul(c2, KEY_GOLDEN);
    lemma_mix64_injective(mixed ^ w1, mixed ^ w2);
    lemma_u64_xor_cancel_left(w1, w2, mixed);
    assert((KEY_GOLDEN as nat * KEY_GOLDEN_INV as nat) % 0x1_0000_0000_0000_0000nat == 1);
    lemma_u64_mul_inverse(c1, KEY_GOLDEN, KEY_GOLDEN_INV);
    lemma_u64_mul_inverse(c2, KEY_GOLDEN, KEY_GOLDEN_INV);
}

proof fn lemma_xor_zero(a: u64)
    by (bit_vector)
    ensures
        a ^ 0u64 == a,
{
}

/// Folding a zero component leaves only the mix.
proof fn lemma_fold_zero(mixed: u64)
    ensures
        fold_key(mixed, 0) == mix64_spec(mixed),
{
    assert(u64_specs::wrapping_mul(0, KEY_GOLDEN) == 0);
    lemma_xor_zero(mixed);
}

/// Law: the channel is folded in last and on its own. Undoing the final mix
/// of a stream key leaves the key-level word of the individual, shared by all
/// its channels, xored with the spread channel index.
pub proof fn lemma_stream_key_channel_folded_last(seed: u64, tag: u64, individual: u32, channel: u32)
    ensures
        unmix64_spec(stream_key_spec(seed, tag, individual, channel))
            == unmix64_spec(stream_key_spec(seed, tag, individual, 0)) ^ u64_specs::wrapping_mul(channel as u64, KEY_GOLDEN),
{
    let x = fold_key(fold_key(mix64_spec(seed), tag), individual as u64);
    lemma_unmix64_mix64(x ^ u64_specs::wrapping_mul(channel as u64, KEY_GOLDEN));
    lemma_fold_zero(x);
    lemma_unmix64_mix64(x);
}

/// Law: the individual is folded in before the channel and on its own.
/// Undoing the last two mixes of a channel-zero key leaves the word of the
/// purpose, shared by all individuals, xored with the spread individual index.
pub proof fn lemma_stream_key_individual_folded_second(seed: u64, tag: u64, individual: u32)
    ensures
        unmix64_spec(unmix64_spec(stream_key_spec(seed, tag, individual, 0)))
            == unmix64_spec(unmix64_spec(stream_key_spec(seed, tag, 0, 0))) ^ u64_specs::wrapping_mul(individual as u64, KEY_GOLDEN),
{
    let y = fold_key(mix64_spec(seed), tag);
    let xi = fold_key(y, individual as u64);
    lemma_fold_zero(xi);
    lemma_unmix64_mix64(xi);
    lemma_unmix64_mix64(y ^ u64_specs::wrapping_mul(individual as u64, KEY_GOLDEN));
    let x0 = fold_key(y, 0);
    lemma_fold_zero(y);
    lemma_fold_zero(x0);
    lemma_unmix64_mix64(x0);
    lemma_unmix64_mix64(y);
}

/// Law: the purpose is folded in first after the seed and on its own. Undoing
/// the last three mixes of a key with individual and channel zero leaves the
/// mixed seed xored with the spread purpose tag.
pub proof fn lemma_stream_key_purpose_folded_first(seed: u64, tag: u64)
    ensures
        unmix64_spec(unmix64_spec(unmix64_spec(stream_key_spec(seed, tag, 0, 0))))
            == mix64_spec(seed) ^ u64_specs::wrapping_mul(tag, KEY_GOLDEN),
{
    let m = mix64_spec(seed);
    let y = fold_key(m, tag);
    let x0 = fold_key(y, 0);
    lemma_fold_zero(x0);
    lemma_unmix64_mix64(x0);
    lemma_fold_zero(y);
    lemma_unmix64_mix64(y);
    lemma_unmix64_mix64(m ^ u64_specs::wrapping_mul(tag, KEY_GOLDEN));
}

/// Law: two streams that differ only in their global seed have different keys.
pub proof fn lemma_stream_key_separates_seeds(s1: u64, s2: u64, tag: u64, individual: u32, channel: u32)
    requires
        s1 != s2,
    ensures
        stream_key_spec(s1, tag, individual, channel) != stream_key_spec(s2, tag, individual, channel),
{
    if stream_key_spec(s1, tag, individual, channel) == stream_key_spec(s2, tag, individual, channel) {
        let a1 = fold_key(mix64_spec(s1), tag);
        let a2 = fold_key(mix64_spec(s2), tag);
        lemma_fold_key_injective_mixed(fold_key(a1, individual as u64), fold_key(a2, individual as u64), channel as u64);
        lemma_fold_key_injective_mixed(a1, a2, individual as u64);
        lemma_fold_key_injective_mixed(mix64_spec(s1), mix64_spec(s2), tag);
        lemma_mix64_injective(s1, s2);
    }
}

/// Law: two streams that differ only in their purpose tag have different keys.
pub proof fn lemma_stream_key_separates_purposes(seed: u64, a: Stream, b: Stream, individual: u32, channel: u32)
    requires
        a != b,
    ensures
        stream_key_spec(seed, a.tag_value(), individual, channel) != stream_key_spec(seed, b.tag_value(), individual, channel),
{
    let m = mix64_spec(seed);
    if stream_key_spec(seed, a.tag_value(), individual, channel) == stream_key_spec(seed, b.tag_value(), individual, channel) {
        let a1 = fold_key(m, a.tag_value());
        let a2 = fold_key(m, b.tag_value());
        lemma_fold_key_injective_mixed(fold_key(a1, individual as u64), fold_key(a2, individual as u64), channel as u64);
        lemma_fold_key_injective_mixed(a1, a2, individual as u64);
        lemma_fold_key_injective_component(m, a.tag_value(), b.tag_value());
    }
}

/// Law: two streams that differ only in the individual index have different keys.
pub proof fn lemma_stream_key_separates_individuals(seed: u64, tag: u64, i1: u32, i2: u32, channel: u32)
    requires
        i1 != i2,
    ensures
        stream_key_spec(seed, tag, i1, channel) != stream_key_spec(seed, tag, i2, channel),
{
    let a = fold_key(mix64_spec(seed), tag);
    if stream_key_spec(seed, tag, i1, channel) == stream_key_spec(seed, tag, i2, channel) {
        lemma_fold_key_injective_mixed(fold_key(a, i1 as u64), fold_key(a, i2 as u64), channel as u64);
        lemma_fold_key_injective_component(a, i1 as u64, i2 as u64);
    }
}

/// Law: two streams that differ only in the channel index have different keys.
pub proof fn lemma_stream_key_separates_channels(seed: u64, tag: u64, individual: u32, c1: u32, c2: u32)
    requires
        c1 != c2,
    ensures
        stream_key_spec(seed, tag, individual, c1) != stream_key_spec(seed, tag, individual, c2),
{
    let a = fold_key(fold_key(mix64_spec(seed), tag), individual as u64);
    if stream_key_spec(seed, tag, individual, c1) == stream_key_spec(seed, tag, individual, c2) {
        lemma_fold_key_injective_component(a, c1 as u64, c2 as u64);
    }
}


/// Length of a ChaCha8 stream in 32-bit words: the generator's word position
/// is a 68-bit number, and the stream cycles after it.
pub const WORD_PERIOD: u128 = 0x10_0000_0000_0000_0000;

/// The 32-bit word at position `pos` of the stream of the ChaCha8 generator
/// that `rand_core::SeedableRng::seed_from_u64` makes from `key`.
pub uninterp spec fn chacha8_word(key: u64, pos: u128) -> u32;

/// Position that follows `pos` after `words` words, on the cyclic stream.
pub open spec fn advance(pos: u128, words: nat) -> u128 {
    ((pos + words) % (WORD_PERIOD as int)) as u128
}

/// The 64-bit draw at position `pos`: the word there is the low half and the
/// word after it the high half.
pub open spec fn chacha8_u64_at(key: u64, pos: u128) -> u64 {
    ((chacha8_word(key, advance(pos, 1)) as u64) << 32u64) | (chacha8_word(key, pos) as u64)
}

/// Byte `i` of a little-endian fill that starts at position `pos`: byte
/// `i % 4` of word `pos + i / 4`.
pub open spec fn chacha8_fill_byte(key: u64, pos: u128, i: int) -> u8 {
    ((chacha8_word(key, advance(pos, (i / 4) as nat)) >> ((8 * (i % 4)) as u32)) & 0xffu32) as u8
}

/// Reads one 32-bit word of the ChaCha8 stream of `key` at word position
/// `pos`: the generator is made by `SeedableRng::seed_from_u64`, placed with
/// `ChaCha8Rng::set_word_pos`, and read with `rand_core::Rng::next_u32`.
#[verifier::external_body]
fn chacha8_u32_at(key: u64, pos: u128) -> (r: u32)
    ensures
        r == chacha8_word(key, pos),
{
    let mut rng = ChaCha8Rng::seed_from_u64(key);
    rng.set_word_pos(pos);
    rng.next_u32()
}

/// Reads one 64-bit value of the ChaCha8 stream of `key` at word position
/// `pos` through `rand_core::Rng::next_u64`, which joins the word at `pos`
/// (low half) and the next word of the cyclic stream (high half).
#[verifier::external_body]
fn chacha8_next_u64_at(key: u64, pos: u128) -> (r: u64)
    requires
        pos < WORD_PERIOD,
    ensures
        r == chacha8_u64_at(key, pos),
{
    let mut rng = ChaCha8Rng::seed_from_u64(key);
    rng.set_word_pos(pos);
    rng.next_u64()
}

/// Fills `dst` from the ChaCha8 stream of `key` starting at word position
/// `pos` through `rand_core::Rng::fill_bytes`, which writes consecutive words
/// little-endian and cuts the last one short.
#[verifier::external_body]
fn chacha8_fill_at(key: u64, pos: u128, dst: &mut [u8])
    requires
        pos < WORD_PERIOD,
    ensures
        final(dst)@.len() == old(dst)@.len(),
        forall|i: int| 0 <= i < old(dst)@.len() ==> #[trigger] final(dst)@[i] == chacha8_fill_byte(key, pos, i),
{
    let mut rng = ChaCha8Rng::seed_from_u64(key);
    rng.set_word_pos(pos);
    rng.fill_bytes(dst)
}

/// Maps a raw 64-bit draw onto the integer range `[low, high)`.
pub open spec fn uniform_int_spec(low: i64, high: i64, draw: u64) -> int {
    if high <= low {
        low as int
    } else {
        low + (draw as int % (high - low))
    }
}

/// Maps a raw 64-bit draw onto `[low, high)`; an empty range yields `low`.
pub fn uniform_int_from(low: i64, high: i64, draw: u64) -> (r: i64)
    requires
        high <= low || high - low <= i64::MAX,
    ensures
        r == uniform_int_spec(low, high, draw),
{
    if high <= low {
        return low;
    }
    let span = (high - low) as u64;
    low + (draw % span) as i64
}

/// A seeded, reproducible random source.
///
/// The generator is the ChaCha8 stream of a 64-bit key, read at a word
/// position that every draw moves on; floating-point draws are layered on top
/// of the words this type hands out.
#[derive(Debug)]
pub struct Rng {
    key: u64,
    pos: u128,
}

impl Rng {
    #[verifier::type_invariant]
    spec fn position_in_stream(self) -> bool {
        self.pos < WORD_PERIOD
    }

    /// The 64-bit seed the ChaCha8 generator is created from.
    pub closed spec fn key(&self) -> u64 {
        self.key
    }

    /// Word position of the next draw in the generator's stream.
    pub closed spec fn position(&self) -> u128 {
        self.pos
    }

    /// Creates a stream from a fully specified key.
    pub fn stream(seed: u64, stream: Stream, individual: u32, channel: u32) -> (r: Self)
        ensures
            r.key() == stream_key_spec(seed, stream.tag_value(), individual, channel),
            r.position() == 0,
    {
        let mixed = stream_key(seed, stream, individual, channel);
        Self::from_seed(mixed)
    }

    /// Creates a stream from an explicit 64-bit seed, at the start of its
    /// stream.
    pub fn from_seed(seed: u64) -> (r: Self)
        ensures
            r.key() == seed,
            r.position() == 0,
    {
        Rng { key: seed, pos: 0 }
    }

    /// Derives an independent stream from this one: the next 64-bit value of
    /// this stream, xored with `tag` and mixed, seeds the new one.
    pub fn derive(&mut self, tag: u64) -> (r: Self)
        ensures
            final(self).key() == old(self).key(),
            final(self).position() == advance(old(self).position(), 2),
            r.key() == mix64_spec(chacha8_u64_at(old(self).key(), old(self).position()) ^ tag),
            r.position() == 0,
    {
        let draw = self.next_u64();
        Self::from_seed(mix64(draw ^ tag))
    }

    /// Uniform integer in `[low, high)` from the next 64-bit value of the
    /// stream; `low` when the range is empty, which still uses up the value.
    pub fn uniform_int(&mut self, low: i64, high: i64) -> (r: i64)
        requires
            high <= low || high - low <= i64::MAX,
        ensures
            final(self).key() == old(self).key(),
            final(self).position() == advance(old(self).position(), 2),
            r == uniform_int_spec(low, high, chacha8_u64_at(old(self).key(), old(self).position())),
            high <= low ==> r == low,
            low < high ==> low <= r < high,
    {
        let draw = self.next_u64();
        uniform_int_from(low, high, draw)
    }

    /// Next 64-bit value of the stream: two words, low half first.
    pub fn next_u64(&mut self) -> (r: u64)
        ensures
            final(self).key() == old(self).key(),
            final(self).position() == advance(old(self).position(), 2),
            r == chacha8_u64_at(old(self).key(), old(self).position()),
    {
        proof {
            use_type_invariant(&*self);
        }
        let r = chacha8_next_u64_at(self.key, self.pos);
        self.pos = (self.pos + 2) % WORD_PERIOD;
        r
    }

    /// Next 32-bit word of the stream.
    pub fn next_u32(&mut self) -> (r: u32)
        ensures
            final(self).key() == old(self).key(),
            final(self).position() == advance(old(self).position(), 1),
            r == chacha8_word(old(self).key(), old(self).position()),
    {
        proof {
            use_type_invariant(&*self);
        }
        let r = chacha8_u32_at(self.key, self.pos);
        self.pos = (self.pos + 1) % WORD_PERIOD;
        r
    }

    /// Fills `dst` with the next bytes of the stream: whole words
    /// little-endian, the last one cut short and used up.
    pub fn fill_bytes(&mut self, dst: &mut [u8])
        ensures
            final(self).key() == old(self).key(),
            final(self).position() == advance(old(self).position(), ((old(dst)@.len() + 3) / 4) as nat),
            final(dst)@.len() == old(dst)@.len(),
            forall|i: int| 0 <= i < old(dst)@.len() ==> #[trigger] final(dst)@[i] == chacha8_fill_byte(old(self).key(), old(self).position(), i),
    {
        proof {
            use_type_invariant(&*self);
        }
        let words = (dst.len() as u128 + 3) / 4;
        chacha8_fill_at(self.key, self.pos, dst);
        self.pos = (self.pos + words) % WORD_PERIOD;
    }
}

impl Clone for Rng {
    /// A stream with the same key at the same position, which reproduces
    /// every later draw.
    fn clone(&self) -> (r: Self)
        ensures
            r.key() == self.key(),
            r.position() == self.position(),
    {
        proof {
            use_type_invariant(self);
        }
        Rng { key: self.key, pos: self.pos }
    }
}

/// The `n`-th 64-bit value of the stream seeded with `key`, counting from
/// zero, when only 64-bit values are drawn.
pub open spec fn stream_u64(key: u64, n: nat) -> u64 {
    chacha8_u64_at(key, advance(0, 2 * n))
}

/// Law: the output of a stream depends on its key alone. A stream made from
/// a key sits at position zero; after `n` 64-bit draws it sits at the
/// position of the `n`-th draw, so its next value is `stream_u64(key, n)`
/// and the draw after that moves it to the position of draw `n + 1`.
/// Rerunning with the same seed therefore reproduces every value bit for bit.
pub proof fn lemma_stream_reproducible(key: u64, n: nat)
    ensures
        advance(0, 0) == 0,
        chacha8_u64_at(key, advance(0, 2 * n)) == stream_u64(key, n),
        advance(advance(0, 2 * n), 2) == advance(0, 2 * (n + 1)),
{
    let p = WORD_PERIOD as int;
    vstd::arithmetic::div_mod::lemma_add_mod_noop(2 * n as int, 2, p);
    vstd::arithmetic::div_mod::lemma_small_mod(2, p as nat);
    vstd::arithmetic::div_mod::lemma_mod_twice(2 * n as int, p);
    assert(2 * (n + 1) == 2 * n + 2);
}

} // verus!
