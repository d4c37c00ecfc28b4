use vstd::prelude::*;

verus! {

/// Addition modulo 2^64.
pub open spec fn wadd(a: u64, b: u64) -> u64 {
    if a + b > u64::MAX {
        (a + b - 0x1_0000_0000_0000_0000) as u64
    } else {
        (a + b) as u64
    }
}

/// Subtraction modulo 2^64.
pub open spec fn wsub(a: u64, b: u64) -> u64 {
    if a < b {
        (a - b + 0x1_0000_0000_0000_0000) as u64
    } else {
        (a - b) as u64
    }
}

/// The two's-complement reading of a word.
pub open spec fn signed(v: u64) -> int {
    if v <= i64::MAX {
        v as int
    } else {
        v - 0x1_0000_0000_0000_0000
    }
}

/// The two's-complement reading of a word, as an `i64`.
pub fn to_signed(v: u64) -> (r: i64)
    ensures
        r as int == signed(v),
{
    if v <= 0x7fff_ffff_ffff_ffff {
        v as i64
    } else {
        ((v - 0x8000_0000_0000_0000) as i64) + i64::MIN
    }
}

/// The word whose two's-complement reading is `s`.
pub fn to_unsigned(s: i64) -> (r: u64)
    ensures
        signed(r) == s as int,
{
    if s >= 0 {
        s as u64
    } else {
        ((s - i64::MIN) as u64) + 0x8000_0000_0000_0000
    }
}

/// `wrapping_add` is addition modulo 2^64.
pub proof fn lemma_wrapping_add(a: u64, b: u64)
    ensures
        vstd::wrapping::u64_specs::wrapping_add(a, b) == wadd(a, b),
        wadd(a, b) == (a + b) as u64,
{
    assert(wadd(a, b) == (a + b) as u64) by (bit_vector);
}

/// `wrapping_sub` is subtraction modulo 2^64.
pub proof fn lemma_wrapping_sub(a: u64, b: u64)
    ensures
        vstd::wrapping::u64_specs::wrapping_sub(a, b) == wsub(a, b),
        wsub(a, b) == (a - b) as u64,
{
    assert(wsub(a, b) == (a - b) as u64) by (bit_vector);
}

} // verus!

verus! {

use vstd::arithmetic::power2::{pow2, lemma_pow2_unfold, lemma_pow2_pos, lemma2_to64, lemma2_to64_rest};
use vstd::arithmetic::div_mod::{lemma_mul_mod_noop_right, lemma_breakdown, lemma_add_mod_noop, lemma_small_mod};
use vstd::arithmetic::mul::{lemma_mul_is_associative, lemma_mul_is_distributive_add, lemma_mul_is_commutative};
use vstd::bits::lemma_u64_shr_is_div;

/// 2^64.
pub open spec fn word_modulus() -> int {
    0x1_0000_0000_0000_0000
}

/// Doubling a word with a left shift by one is multiplication by two modulo 2^64.
proof fn lemma_shl_one(w: u64)
    ensures
        (w << 1u64) as int == (2 * w) % word_modulus(),
{
    assert(w << 1u64 == vstd::wrapping::u64_specs::wrapping_add(w, w)) by (bit_vector);
}

/// A left shift by `k` multiplies by 2^k modulo 2^64.
pub proof fn lemma_shl_is_mul_mod(y: u64, k: nat)
    requires
        k < 64,
    ensures
        (y << (k as u64)) as int == (y * pow2(k)) % word_modulus(),
    decreases k,
{
    if k == 0 {
        assert(y << 0u64 == y) by (bit_vector);
        lemma2_to64();
        lemma_small_mod(y as nat, word_modulus() as nat);
    } else {
        let j = (k - 1) as nat;
        lemma_shl_is_mul_mod(y, j);
        let w = y << (j as u64);
        let kk = k as u64;
        let jj = j as u64;
        assert(y << kk == (y << jj) << 1u64) by (bit_vector)
            requires
                kk < 64,
                jj + 1 == kk,
        ;
        lemma_shl_one(w);
        lemma_mul_mod_noop_right(2, y * pow2(j), word_modulus());
        lemma_pow2_unfold(k);
        lemma_mul_is_associative(2, y as int, pow2(j) as int);
        lemma_mul_is_associative(y as int, 2, pow2(j) as int);
        lemma_mul_is_commutative(2, y as int);
    }
}

/// The low `k + 1` bits of `x` are its low `k` bits plus bit `k`.
pub proof fn lemma_low_bits_step(x: u64, k: nat)
    requires
        k < 64,
    ensures
        x & (1u64 << (k as u64)) != 0 ==> (x as nat) % pow2(k + 1) == (x as nat) % pow2(k) + pow2(k),
        x & (1u64 << (k as u64)) == 0 ==> (x as nat) % pow2(k + 1) == (x as nat) % pow2(k),
{
    let kk = k as u64;
    lemma_pow2_pos(k);
    lemma_pow2_unfold(k + 1);
    lemma_breakdown(x as int, pow2(k) as int, 2);
    lemma_u64_shr_is_div(x, kk);
    let q = x >> kk;
    assert((x & (1u64 << kk) != 0) == (q % 2 == 1)) by (bit_vector)
        requires
            q == x >> kk,
            kk < 64,
    ;
    lemma_mul_is_commutative(2, pow2(k) as int);
    lemma2_to64_rest();
    vstd::arithmetic::power2::lemma_pow2_strictly_increases(k, 64);
    assert(q as int == (x as int) / (pow2(k) as int));
    let r = ((x as int) / (pow2(k) as int)) % 2;
    assert((x as nat) % pow2(k + 1) == pow2(k) * r + (x as nat) % pow2(k));
    if q % 2 == 1 {
        assert(r == 1);
        assert(pow2(k) * r == pow2(k)) by (nonlinear_arith)
            requires
                r == 1,
        ;
    } else {
        assert(r == 0);
        assert(pow2(k) * r == 0) by (nonlinear_arith)
            requires
                r == 0,
        ;
    }
}

/// All 64 low bits of a word are the word itself.
pub proof fn lemma_low_bits_all(x: u64)
    ensures
        (x as nat) % pow2(64) == x,
{
    lemma2_to64_rest();
    lemma_small_mod(x as nat, pow2(64));
}

/// Adding the next shifted partial product keeps the running product equal to the low
/// bits of the multiplier times the multiplicand, modulo 2^64.
pub proof fn lemma_partial_product_step(p: nat, k: nat, y: u64, acc: u64)
    requires
        k < 64,
        acc as int == (p * y) % word_modulus(),
    ensures
        wadd(acc, y << (k as u64)) as int == ((p + pow2(k)) * y) % word_modulus(),
{
    lemma_shl_is_mul_mod(y, k);
    let s = y << (k as u64);
    lemma_wrapping_add(acc, s);
    lemma_mul_is_distributive_add(y as int, p as int, pow2(k) as int);
    lemma_mul_is_commutative(y as int, p as int);
    lemma_mul_is_commutative(y as int, (p + pow2(k)) as int);
    lemma_add_mod_noop(p * y, y * pow2(k), word_modulus());
}

} // verus!

verus! {

/// Multiplication modulo 2^64.
pub open spec fn wmul(a: u64, b: u64) -> u64 {
    ((a * b) % word_modulus()) as u64
}

} // verus!
