use vstd::prelude::*;

verus! {

/// First multiplier of the SplitMix64 finalizer.
pub const MIX_MUL_1: u64 = 0xbf58476d1ce4e5b9;

/// Second multiplier of the SplitMix64 finalizer.
pub const MIX_MUL_2: u64 = 0x94d049bb133111eb;

/// `MIX_MUL_1⁻¹ mod 2⁶⁴`.
pub const MIX_MUL_1_INV: u64 = 0x96de1b173f119089;

/// `MIX_MUL_2⁻¹ mod 2⁶⁴`.
pub const MIX_MUL_2_INV: u64 = 0x319642b2d24d8ec3;

/// Multiplication modulo 2⁶⁴.
pub open spec fn mul_mod64(a: u64, b: u64) -> u64 {
    ((a as nat * b as nat) % 0x1_0000_0000_0000_0000nat) as u64
}

/// The xor-shift-multiply finalizer of SplitMix64.
pub open spec fn splitmix64_spec(h: u64) -> u64 {
    let h1 = h ^ (h >> 30u64);
    let h2 = mul_mod64(h1, MIX_MUL_1);
    let h3 = h2 ^ (h2 >> 27u64);
    let h4 = mul_mod64(h3, MIX_MUL_2);
    h4 ^ (h4 >> 31u64)
}

/// Bijective u64→u64 hash (xor-shift-multiply finalizer from SplitMix64).
/// Strong avalanche: a 1-bit input change flips about half of the output
/// bits, so `splitmix64(h + 0) .. splitmix64(h + N)` can serve as separate
/// random streams without a sequential PRNG.
pub fn splitmix64(h: u64) -> (r: u64)
    ensures
        r == splitmix64_spec(h),
{
    let mut h = h;
    h ^= h >> 30;
    h = h.wrapping_mul(MIX_MUL_1);
    h ^= h >> 27;
    h = h.wrapping_mul(MIX_MUL_2);
    h ^= h >> 31;
    h
}

/// Inverse of `x ↦ x ^ (x >> s)` for a shift of at least 22 bits
/// (three terms undo any shift of 22 or more on 64-bit words).
pub open spec fn unxorshift(y: u64, s: u64) -> u64 {
    y ^ (y >> s) ^ (y >> (2 * s))
}

/// The inverse permutation of `splitmix64_spec`.
pub open spec fn splitmix64_inverse(r: u64) -> u64 {
    let h4 = unxorshift(r, 31);
    let h3 = mul_mod64(h4, MIX_MUL_2_INV);
    let h2 = unxorshift(h3, 27);
    let h1 = mul_mod64(h2, MIX_MUL_1_INV);
    unxorshift(h1, 30)
}

proof fn lemma_unxorshift_30(x: u64)
    ensures
        unxorshift(x ^ (x >> 30u64), 30) == x,
        (unxorshift(x, 30) ^ (unxorshift(x, 30) >> 30u64)) == x,
{
    assert((x ^ (x >> 30u64)) ^ ((x ^ (x >> 30u64)) >> 30u64) ^ ((x ^ (x >> 30u64)) >> 60u64) == x)
        by (bit_vector);
    assert(((x ^ (x >> 30u64) ^ (x >> 60u64)) ^ ((x ^ (x >> 30u64) ^ (x >> 60u64)) >> 30u64)) == x)
        by (bit_vector);
}

proof fn lemma_unxorshift_27(x: u64)
    ensures
        unxorshift(x ^ (x >> 27u64), 27) == x,
        (unxorshift(x, 27) ^ (unxorshift(x, 27) >> 27u64)) == x,
{
    assert((x ^ (x >> 27u64)) ^ ((x ^ (x >> 27u64)) >> 27u64) ^ ((x ^ (x >> 27u64)) >> 54u64) == x)
        by (bit_vector);
    assert(((x ^ (x >> 27u64) ^ (x >> 54u64)) ^ ((x ^ (x >> 27u64) ^ (x >> 54u64)) >> 27u64)) == x)
        by (bit_vector);
}

proof fn lemma_unxorshift_31(x: u64)
    ensures
        unxorshift(x ^ (x >> 31u64), 31) == x,
        (unxorshift(x, 31) ^ (unxorshift(x, 31) >> 31u64)) == x,
{
    assert((x ^ (x >> 31u64)) ^ ((x ^ (x >> 31u64)) >> 31u64) ^ ((x ^ (x >> 31u64)) >> 62u64) == x)
        by (bit_vector);
    assert(((x ^ (x >> 31u64) ^ (x >> 62u64)) ^ ((x ^ (x >> 31u64) ^ (x >> 62u64)) >> 31u64)) == x)
        by (bit_vector);
}

/// Multiplication modulo 2⁶⁴ is associative.
pub proof fn lemma_mul_mod64_assoc(x: u64, a: u64, b: u64)
    ensures
        mul_mod64(mul_mod64(x, a), b) == ((x as nat * ((a as nat * b as nat) % 0x1_0000_0000_0000_0000nat))
            % 0x1_0000_0000_0000_0000nat) as u64,
{
    let m: int = 0x1_0000_0000_0000_0000int;
    vstd::arithmetic::div_mod::lemma_mul_mod_noop_left(x as int * a as int, b as int, m);
    vstd::arithmetic::mul::lemma_mul_is_associative(x as int, a as int, b as int);
    vstd::arithmetic::div_mod::lemma_mul_mod_noop_right(x as int, a as int * b as int, m);
}

/// Multiplying by `a` then by `b` modulo 2⁶⁴ is the identity when
/// `a * b ≡ 1 (mod 2⁶⁴)`.
proof fn lemma_mul_mod64_cancel(x: u64, a: u64, b: u64)
    requires
        (a as nat * b as nat) % 0x1_0000_0000_0000_0000nat == 1,
    ensures
        mul_mod64(mul_mod64(x, a), b) == x,
{
    let m: int = 0x1_0000_0000_0000_0000int;
    vstd::arithmetic::div_mod::lemma_mul_mod_noop_left(x as int * a as int, b as int, m);
    vstd::arithmetic::mul::lemma_mul_is_associative(x as int, a as int, b as int);
    vstd::arithmetic::div_mod::lemma_mul_mod_noop_right(x as int, a as int * b as int, m);
    vstd::arithmetic::div_mod::lemma_small_mod(x as nat, m as nat);
}

proof fn lemma_mix_inverses()
    ensures
        (MIX_MUL_1 as nat * MIX_MUL_1_INV as nat) % 0x1_0000_0000_0000_0000nat == 1,
        (MIX_MUL_1_INV as nat * MIX_MUL_1 as nat) % 0x1_0000_0000_0000_0000nat == 1,
        (MIX_MUL_2 as nat * MIX_MUL_2_INV as nat) % 0x1_0000_0000_0000_0000nat == 1,
        (MIX_MUL_2_INV as nat * MIX_MUL_2 as nat) % 0x1_0000_0000_0000_0000nat == 1,
{
    assert((0xbf58476d1ce4e5b9nat * 0x96de1b173f119089nat) % 0x1_0000_0000_0000_0000nat == 1);
    assert((0x96de1b173f119089nat * 0xbf58476d1ce4e5b9nat) % 0x1_0000_0000_0000_0000nat == 1);
    assert((0x94d049bb133111ebnat * 0x319642b2d24d8ec3nat) % 0x1_0000_0000_0000_0000nat == 1);
    assert((0x319642b2d24d8ec3nat * 0x94d049bb133111ebnat) % 0x1_0000_0000_0000_0000nat == 1);
}

/// `splitmix64` is a bijection on `u64`: `splitmix64_inverse` undoes it,
/// and every output word is reached from exactly one input.
pub proof fn lemma_splitmix64_bijective(h: u64, r: u64)
    ensures
        splitmix64_inverse(splitmix64_spec(h)) == h,
        splitmix64_spec(splitmix64_inverse(r)) == r,
{
    lemma_mix_inverses();
    // forward then inverse
    let h1 = h ^ (h >> 30u64);
    let h2 = mul_mod64(h1, MIX_MUL_1);
    let h3 = h2 ^ (h2 >> 27u64);
    let h4 = mul_mod64(h3, MIX_MUL_2);
    lemma_unxorshift_31(h4);
    lemma_mul_mod64_cancel(h3, MIX_MUL_2, MIX_MUL_2_INV);
    lemma_unxorshift_27(h2);
    lemma_mul_mod64_cancel(h1, MIX_MUL_1, MIX_MUL_1_INV);
    lemma_unxorshift_30(h);
    // inverse then forward
    let g4 = unxorshift(r, 31);
    let g3 = mul_mod64(g4, MIX_MUL_2_INV);
    let g2 = unxorshift(g3, 27);
    let g1 = mul_mod64(g2, MIX_MUL_1_INV);
    lemma_unxorshift_30(g1);
    lemma_mul_mod64_cancel(g2, MIX_MUL_1_INV, MIX_MUL_1);
    lemma_unxorshift_27(g3);
    lemma_mul_mod64_cancel(g4, MIX_MUL_2_INV, MIX_MUL_2);
    lemma_unxorshift_31(r);
}

/// Distinct seeds never collide: `splitmix64` is injective.
pub proof fn lemma_splitmix64_injective(a: u64, b: u64)
    requires
        a != b,
    ensures
        splitmix64_spec(a) != splitmix64_spec(b),
{
    lemma_splitmix64_bijective(a, 0);
    lemma_splitmix64_bijective(b, 0);
}

} // verus!
