//! Arithmetic facts shared by the hash and key-folding proofs.
//!
//! Every finaliser and fold in this crate is built from steps that can be
//! undone: xor with a known word, and multiplication by an odd constant modulo
//! a power of two, which its modular inverse reverses.

use vstd::prelude::*;
use vstd::wrapping::{u32_specs, u64_specs};
use vstd::arithmetic::div_mod::{lemma_mul_mod_noop_left, lemma_mul_mod_noop_right, lemma_small_mod};
use vstd::arithmetic::mul::lemma_mul_is_associative;

verus! {

/// Multiplying by `c` and then by its inverse modulo `m` gives back any
/// residue below `m`.
pub proof fn lemma_mul_inverse_mod(z: int, c: int, c_inv: int, m: int)
    requires
        0 <= z < m,
        (c * c_inv) % m == 1,
    ensures
        (((z * c) % m) * c_inv) % m == z,
{
    lemma_mul_mod_noop_left(z * c, c_inv, m);
    lemma_mul_is_associative(z, c, c_inv);
    lemma_mul_mod_noop_right(z, c * c_inv, m);
    assert(z * 1 == z);
    lemma_small_mod(z as nat, m as nat);
}

/// Wrapping multiplication of a `u64` by an odd constant is undone by the
/// constant's inverse modulo 2^64.
pub proof fn lemma_u64_mul_inverse(z: u64, c: u64, c_inv: u64)
    requires
        (c as nat * c_inv as nat) % 0x1_0000_0000_0000_0000nat == 1,
    ensures
        u64_specs::wrapping_mul(u64_specs::wrapping_mul(z, c), c_inv) == z,
{
    lemma_mul_inverse_mod(z as int, c as int, c_inv as int, 0x1_0000_0000_0000_0000int);
}

/// Wrapping multiplication of a `u32` by an odd constant is undone by the
/// constant's inverse modulo 2^32.
pub proof fn lemma_u32_mul_inverse(z: u32, c: u32, c_inv: u32)
    requires
        (c as nat * c_inv as nat) % 0x1_0000_0000nat == 1,
    ensures
        u32_specs::wrapping_mul(u32_specs::wrapping_mul(z, c), c_inv) == z,
{
    lemma_mul_inverse_mod(z as int, c as int, c_inv as int, 0x1_0000_0000int);
}

/// Xor with a common word on the right cancels.
pub proof fn lemma_u64_xor_cancel(a: u64, b: u64, c: u64)
    by (bit_vector)
    requires
        a ^ c == b ^ c,
    ensures
        a == b,
{
}

/// Xor with a common word on the left cancels.
pub proof fn lemma_u64_xor_cancel_left(a: u64, b: u64, c: u64)
    by (bit_vector)
    requires
        c ^ a == c ^ b,
    ensures
        a == b,
{
}

/// Xor with a common word on the right cancels.
pub proof fn lemma_u32_xor_cancel(a: u32, b: u32, c: u32)
    by (bit_vector)
    requires
        a ^ c == b ^ c,
    ensures
        a == b,
{
}

/// Xor with a common word on the left cancels.
pub proof fn lemma_u32_xor_cancel_left(a: u32, b: u32, c: u32)
    by (bit_vector)
    requires
        c ^ a == c ^ b,
    ensures
        a == b,
{
}

} // verus!
