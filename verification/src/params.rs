//! Parameter calculator: sizes the bit array and picks the probe count from
//! a requested capacity and false-positive rate.
//!
//! The error rate arrives as the IEEE-754 bit pattern of a 64-bit value in
//! (0, 1].  The classic sizing formula `m = ceil(n * ln p / ln(1 / 2^ln 2))`
//! simplifies to `m = ceil(n * (-log2 p) / ln 2)`, and the probe count is
//! `k = round((m / n) * ln 2)`.  Both are computed in fixed point with 32
//! fractional bits — `-log2 p` comes from the exponent of `p` plus 32
//! rounds of mantissa squaring — so the results are deterministic and the
//! whole derivation is proved exact against the spec-level recurrences.

use vstd::prelude::*;
use vstd::arithmetic::power2::pow2;
use vstd::arithmetic::power2::lemma2_to64;
use vstd::arithmetic::power2::lemma2_to64_rest;
use vstd::arithmetic::power2::lemma_pow2_adds;
use vstd::arithmetic::power2::lemma_pow2_pos;
use vstd::arithmetic::power2::lemma_pow2_strictly_increases;
use vstd::arithmetic::div_mod::lemma_fundamental_div_mod;
use vstd::arithmetic::div_mod::lemma_basic_div;
use vstd::arithmetic::div_mod::lemma_div_is_ordered;
use vstd::arithmetic::div_mod::lemma_div_by_multiple;
use vstd::arithmetic::mul::lemma_mul_inequality;

verus! {

/// One in 32-bit fixed point: values carry 32 fractional bits.
pub const Q32: u64 = 0x1_0000_0000;

/// ln 2 in 32-bit fixed point, rounded to nearest.
pub const LN2_Q32: u64 = 0xB172_17F8;

/// The bit patterns of the finite positive 64-bit IEEE-754 values up to and
/// including one: the sign bit clear, not zero, and at most the pattern of
/// one itself (which excludes infinities and NaNs).
pub open spec fn rate_bits_ok(bits: u64) -> bool {
    1 <= bits <= 0x3FF0_0000_0000_0000
}

/// The fractional bits of log2(x / 2^63), for x in [2^63, 2^64), obtained by
/// `fuel` rounds of squaring; `fuel` rounds yield `fuel` result bits.
pub closed spec fn log2_frac(x: nat, fuel: nat) -> nat
    decreases fuel,
{
    if fuel == 0 {
        0
    } else {
        let sq = x * x / pow2(63);
        if sq >= pow2(64) {
            pow2((fuel - 1) as nat) + log2_frac(sq / 2, (fuel - 1) as nat)
        } else {
            log2_frac(sq, (fuel - 1) as nat)
        }
    }
}

/// The mantissa scaled towards [2^52, 2^53) by doubling, at most `fuel`
/// times; 52 doublings reach 2^52 from any positive start.
pub closed spec fn norm_mant_fuel(m: nat, fuel: nat) -> nat
    decreases fuel,
{
    if fuel == 0 || m >= pow2(52) {
        m
    } else {
        norm_mant_fuel(2 * m, (fuel - 1) as nat)
    }
}

/// The mantissa scaled into [2^52, 2^53) by doubling.
pub closed spec fn norm_mant(m: nat) -> nat {
    norm_mant_fuel(m, 52)
}

/// How many doublings `norm_mant` applies, at most `fuel`.
pub closed spec fn norm_shift_fuel(m: nat, fuel: nat) -> nat
    decreases fuel,
{
    if fuel == 0 || m >= pow2(52) {
        0
    } else {
        1 + norm_shift_fuel(2 * m, (fuel - 1) as nat)
    }
}

/// How many doublings `norm_mant` applies.
pub closed spec fn norm_shift(m: nat) -> nat {
    norm_shift_fuel(m, 52)
}

/// -log2 of the value whose bit pattern is `bits`, in 32-bit fixed point.
/// The pattern splits into an exponent and a mantissa; subnormal mantissas
/// are renormalized by doubling.
pub closed spec fn neg_log2_q32(bits: u64) -> nat {
    let raw = bits as nat / pow2(52);
    let frac = bits as nat % pow2(52);
    let mant = if raw > 0 { pow2(52) + frac } else { norm_mant(frac) };
    let a = if raw > 0 { (1023 - raw) as nat } else { 1022 + norm_shift(frac) };
    (a * pow2(32) - log2_frac(mant * pow2(11), 32)) as nat
}

/// The bit-array length before capping: ceil(n * (-log2 p) / ln 2).
pub open spec fn spec_nbits(n: nat, bits: u64) -> nat {
    (n * neg_log2_q32(bits) + (LN2_Q32 - 1) as nat) / (LN2_Q32 as nat)
}

/// The bit-array length, capped at the machine's addressable size.
pub open spec fn spec_nbits_capped(n: nat, bits: u64) -> nat {
    if spec_nbits(n, bits) <= usize::MAX as nat {
        spec_nbits(n, bits)
    } else {
        usize::MAX as nat
    }
}

/// The probe count: round((m / n) * ln 2), written as one floor division.
pub open spec fn spec_iterations(m: nat, n: nat) -> nat {
    (2 * m * (LN2_Q32 as nat) + n * pow2(32)) / (2 * n * pow2(32))
}

/// An empty bit array asks for no probes at all.
pub proof fn lemma_iterations_zero(n: nat)
    requires
        n >= 1,
    ensures
        spec_iterations(0, n) == 0,
{
    lemma2_to64();
    assert(0 < n * pow2(32) < 2 * n * pow2(32)) by (nonlinear_arith)
        requires n >= 1 && pow2(32) > 0;
    lemma_basic_div((n * pow2(32)) as int, (2 * n * pow2(32)) as int);
}

/// Squaring a scaled one leaves it fixed, so its log has no fractional bits.
proof fn lemma_log2_frac_pow63(fuel: nat)
    ensures
        log2_frac(pow2(63), fuel) == 0,
    decreases fuel,
{
    if fuel > 0 {
        lemma2_to64_rest();
        assert(pow2(63) * pow2(63) / pow2(63) == pow2(63)) by {
            lemma_pow2_pos(63);
            lemma_div_by_multiple(pow2(63) as int, pow2(63) as int);
        }
        lemma_log2_frac_pow63((fuel - 1) as nat);
    }
}

/// The fractional bits of log2(x0 / 2^63), by 32 rounds of squaring.
fn log2_frac_exec(x0: u64) -> (l: u64)
    requires
        pow2(63) <= x0 as nat,
    ensures
        l as nat == log2_frac(x0 as nat, 32),
        l < 0x1_0000_0000,
{
    let mut x: u64 = x0;
    let mut l: u64 = 0;
    let mut i: u64 = 0;
    proof {
        lemma2_to64();
        lemma2_to64_rest();
    }
    while i < 32
        invariant
            i <= 32,
            pow2(63) <= x as nat,
            (l as nat) < pow2(i as nat),
            (l as nat) * pow2((32 - i) as nat) + log2_frac(x as nat, (32 - i) as nat)
                == log2_frac(x0 as nat, 32),
        decreases 32 - i,
    {
        proof {
            lemma2_to64();
            lemma2_to64_rest();
            assert((x as u128) * (x as u128) < 0x1_0000_0000_0000_0000_0000_0000_0000_0000)
                by (nonlinear_arith)
                requires x as u128 <= 0xFFFF_FFFF_FFFF_FFFFu128;
            assert((x as u128) * (x as u128) >= 0x4000_0000_0000_0000_0000_0000_0000_0000)
                by (nonlinear_arith)
                requires x as u128 >= 0x8000_0000_0000_0000u128;
        }
        let sq: u128 = ((x as u128) * (x as u128)) / 0x8000_0000_0000_0000;
        proof {
            assert(sq as nat == (x as nat) * (x as nat) / pow2(63));
            assert(pow2((32 - i) as nat) == 2 * pow2((31 - i) as nat)) by {
                lemma_pow2_adds(1, (31 - i) as nat);
            }
            assert(pow2((i + 1) as nat) == 2 * pow2(i as nat)) by {
                lemma_pow2_adds(1, i as nat);
            }
            lemma_pow2_strictly_increases(i as nat, 32);
        }
        let ghost l_old: nat = l as nat;
        let ghost x_old: nat = x as nat;
        if sq >= 0x1_0000_0000_0000_0000 {
            x = (sq / 2) as u64;
            l = 2 * l + 1;
            proof {
                assert((2 * l_old + 1) * pow2((31 - i) as nat)
                    == l_old * (2 * pow2((31 - i) as nat)) + pow2((31 - i) as nat))
                    by (nonlinear_arith);
            }
        } else {
            x = sq as u64;
            l = 2 * l;
            proof {
                assert((2 * l_old) * pow2((31 - i) as nat) == l_old * (2 * pow2((31 - i) as nat)))
                    by (nonlinear_arith);
            }
        }
        i = i + 1;
    }
    proof {
        lemma2_to64();
        assert(log2_frac(x as nat, 0) == 0);
        assert((l as nat) * pow2(0) == l as nat);
    }
    l
}

/// -log2 of the rate whose bit pattern is `bits`, in 32-bit fixed point.
fn neg_log2_fixed(bits: u64) -> (r: u64)
    requires
        rate_bits_ok(bits),
    ensures
        r as nat == neg_log2_q32(bits),
        r as nat <= 1074 * pow2(32),
{
    proof {
        lemma2_to64();
        lemma2_to64_rest();
    }
    let raw: u64 = bits / 0x10_0000_0000_0000;
    let frac: u64 = bits % 0x10_0000_0000_0000;
    proof {
        lemma_div_is_ordered(bits as int, 0x3FF0_0000_0000_0000, 0x10_0000_0000_0000);
        lemma_fundamental_div_mod(bits as int, 0x10_0000_0000_0000);
    }
    let mut mant: u64;
    let a: u64;
    if raw > 0 {
        mant = 0x10_0000_0000_0000 + frac;
        a = 1023 - raw;
    } else {
        mant = frac;
        let mut sh: u64 = 0;
        while mant < 0x10_0000_0000_0000
            invariant
                1 <= mant,
                (mant as nat) < pow2(53),
                sh <= 52,
                pow2(sh as nat) <= mant as nat,
                norm_mant(frac as nat) == norm_mant_fuel(mant as nat, (52 - sh) as nat),
                norm_shift(frac as nat) == sh as nat + norm_shift_fuel(
                    mant as nat,
                    (52 - sh) as nat,
                ),
            decreases 52 - sh,
        {
            proof {
                lemma2_to64();
                lemma2_to64_rest();
                if sh >= 52 {
                    lemma_pow2_strictly_increases(52, sh as nat);
                    assert(false);
                }
                lemma_pow2_adds(1, sh as nat);
            }
            mant = 2 * mant;
            sh = sh + 1;
        }
        proof {
            lemma2_to64_rest();
            assert(norm_mant_fuel(mant as nat, (52 - sh) as nat) == mant as nat);
            assert(norm_shift_fuel(mant as nat, (52 - sh) as nat) == 0);
        }
        a = 1022 + sh;
    }
    let x0: u64 = mant * 0x800;
    proof {
        lemma2_to64();
        lemma2_to64_rest();
        assert(x0 as nat == (mant as nat) * pow2(11));
        assert(pow2(63) <= x0 as nat) by (nonlinear_arith)
            requires
                x0 as nat == (mant as nat) * pow2(11),
                pow2(52) <= mant as nat,
                pow2(11) > 0,
                pow2(63) == pow2(52) * pow2(11);
    }
    let l: u64 = log2_frac_exec(x0);
    proof {
        if a == 0 {
            assert(bits == 0x3FF0_0000_0000_0000);
            assert(mant as nat * pow2(11) == pow2(63));
            lemma_log2_frac_pow63(32);
        }
    }
    a * 0x1_0000_0000 - l
}

/// Bit-array length: `m = ceil(n * (-log2 p) / ln 2)`, capped at the largest
/// addressable size, mirroring a saturating conversion from the real-valued
/// formula.
pub fn nbits(n: usize, p_bits: u64) -> (r: usize)
    requires
        n >= 1,
        rate_bits_ok(p_bits),
    ensures
        r as nat == spec_nbits_capped(n as nat, p_bits),
{
    let nq: u64 = neg_log2_fixed(p_bits);
    proof {
        lemma2_to64();
        assert((n as u128) * (nq as u128) <= 0xFFFF_FFFF_FFFF_FFFFu128 * 0x432_0000_0000)
            by (nonlinear_arith)
            requires
                n as u128 <= 0xFFFF_FFFF_FFFF_FFFFu128,
                nq as u128 <= 0x432_0000_0000u128;
    }
    let num: u128 = (n as u128) * (nq as u128) + (LN2_Q32 as u128 - 1);
    let m128: u128 = num / (LN2_Q32 as u128);
    proof {
        assert(num as nat == (n as nat) * neg_log2_q32(p_bits) + (LN2_Q32 - 1) as nat);
        assert(m128 as nat == spec_nbits(n as nat, p_bits));
    }
    if m128 > (usize::MAX as u128) {
        usize::MAX
    } else {
        m128 as usize
    }
}

/// Number of hash probes per operation: `k = round((m / n) * ln 2)`.
pub fn iterations(m: usize, n: usize) -> (r: usize)
    requires
        n >= 1,
    ensures
        r as nat == spec_iterations(m as nat, n as nat),
        r <= m,
{
    proof {
        lemma2_to64();
        assert(2 * (m as u128) * (LN2_Q32 as u128) <= 0x2_0000_0000_0000_0000 * 0x1_0000_0000)
            by (nonlinear_arith)
            requires m <= 0xFFFF_FFFF_FFFF_FFFFu128;
        assert((n as u128) * (Q32 as u128) <= 0xFFFF_FFFF_FFFF_FFFFu128 * 0x1_0000_0000)
            by (nonlinear_arith)
            requires n <= 0xFFFF_FFFF_FFFF_FFFFu128;
    }
    let num: u128 = 2 * (m as u128) * (LN2_Q32 as u128) + (n as u128) * (Q32 as u128);
    let den: u128 = 2 * (n as u128) * (Q32 as u128);
    proof {
        assert(den > 0) by (nonlinear_arith)
            requires den == 2 * (n as u128) * (Q32 as u128) && n >= 1 && Q32 == 0x1_0000_0000;
    }
    let r128: u128 = num / den;
    proof {
        assert(num < den * ((m as u128) + 1)) by (nonlinear_arith)
            requires
                num == 2 * (m as u128) * (LN2_Q32 as u128) + (n as u128) * (Q32 as u128),
                den == 2 * (n as u128) * (Q32 as u128),
                LN2_Q32 < Q32,
                Q32 == 0x1_0000_0000,
                n >= 1,
                m <= 0xFFFF_FFFF_FFFF_FFFFu128;
        lemma_fundamental_div_mod(num as int, den as int);
        if r128 > m as u128 {
            lemma_mul_inequality((m as u128 + 1) as int, r128 as int, den as int);
        }
        assert(r128 as nat == spec_iterations(m as nat, n as nat)) by {
            assert(num == 2 * (m as nat) * LN2_Q32 + (n as nat) * pow2(32));
            assert(den == 2 * (n as nat) * pow2(32));
        }
    }
    r128 as usize
}

} // verus!
