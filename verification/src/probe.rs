//! Index sequence generator: turns one 128-bit digest into `k` bit
//! positions in `[0, m)`.
//!
//! The digest splits into two 64-bit halves `h_lo` and `h_hi`.  A running
//! accumulator starts at `h_lo` and, for probe `i`, grows by `i * h_hi`;
//! the `i`-th position is the accumulator modulo `m`.  The accumulator is
//! never reset, so position `i` depends on `h_lo + h_hi * (0 + 1 + ... + i)`
//! — a cumulative variant of enhanced double hashing.  The arithmetic is
//! carried out modulo `m` step by step, which yields exactly the positions
//! of the unbounded accumulator.

use vstd::prelude::*;
use vstd::arithmetic::power2::pow2;
use vstd::arithmetic::power2::lemma2_to64_rest;
use vstd::arithmetic::div_mod::lemma_mod_bound;
use vstd::arithmetic::div_mod::lemma_add_mod_noop;
use vstd::arithmetic::div_mod::lemma_add_mod_noop_right;
use vstd::arithmetic::div_mod::lemma_mul_mod_noop;

verus! {

/// The low 64 bits of a digest.
pub open spec fn hash_low(h: u128) -> nat {
    (h as nat) % pow2(64)
}

/// The high 64 bits of a digest.
pub open spec fn hash_high(h: u128) -> nat {
    (h as nat) / pow2(64)
}

/// The sum 0 + 1 + ... + (i - 1).
pub open spec fn tri_below(i: nat) -> nat
    decreases i,
{
    if i == 0 {
        0
    } else {
        tri_below((i - 1) as nat) + (i - 1) as nat
    }
}

/// The i-th probe position for digest `h` in a bit array of length `m`:
/// the running accumulator `h_lo + h_hi * (0 + 1 + ... + i)`, reduced
/// modulo `m`.
pub open spec fn probe_pos(h: u128, m: nat, i: nat) -> nat
    recommends
        m > 0,
{
    (hash_low(h) + hash_high(h) * tri_below(i + 1)) % m
}

/// Whether every one of the first `k` probe positions of `h` is set.
pub open spec fn all_probes_set(bits: Seq<bool>, h: u128, k: nat) -> bool {
    forall|i: nat| i < k ==> bits[probe_pos(h, bits.len(), i) as int]
}

/// The bit array after the first `k` probe positions of `h` are set, one
/// after the other.
pub open spec fn set_probes(bits: Seq<bool>, h: u128, k: nat) -> Seq<bool>
    decreases k,
{
    if k == 0 {
        bits
    } else {
        set_probes(bits, h, (k - 1) as nat).update(
            probe_pos(h, bits.len(), (k - 1) as nat) as int,
            true,
        )
    }
}

/// What `set_probes` holds, position by position: a bit is set afterwards
/// exactly when it was set before or is one of the first `k` probe
/// positions.
pub proof fn lemma_set_probes_spec(bits: Seq<bool>, h: u128, k: nat)
    requires
        k > 0 ==> bits.len() > 0,
    ensures
        set_probes(bits, h, k).len() == bits.len(),
        forall|j: int| #![trigger set_probes(bits, h, k)[j]]
            0 <= j < bits.len() ==> set_probes(bits, h, k)[j] == (bits[j] || exists|i: nat|
                i < k && #[trigger] probe_pos(h, bits.len(), i) == j),
    decreases k,
{
    if k > 0 {
        let kp = (k - 1) as nat;
        lemma_set_probes_spec(bits, h, kp);
        let prev = set_probes(bits, h, kp);
        let cur = set_probes(bits, h, k);
        let p = probe_pos(h, bits.len(), kp) as int;
        lemma_probe_pos_in_range(h, bits.len(), kp);
        assert forall|j: int| 0 <= j < bits.len() implies cur[j] == (bits[j] || exists|i: nat|
            i < k && probe_pos(h, bits.len(), i) == j) by {
            if j == p {
                assert(kp < k && probe_pos(h, bits.len(), kp) == j);
                assert(cur[j]);
            } else {
                assert(cur[j] == prev[j]);
                if exists|i: nat| i < k && probe_pos(h, bits.len(), i) == j {
                    let i0 = choose|i0: nat| i0 < k && probe_pos(h, bits.len(), i0) == j;
                    assert(i0 != kp);
                    assert(i0 < kp && probe_pos(h, bits.len(), i0) == j);
                }
            }
        }
    }
}

/// Probe positions stay inside the bit array.
pub proof fn lemma_probe_pos_in_range(h: u128, m: nat, i: nat)
    requires
        m > 0,
    ensures
        probe_pos(h, m, i) < m,
{
    lemma_mod_bound((hash_low(h) + hash_high(h) * tri_below(i + 1)) as int, m as int);
}

/// One unfolding of the accumulator: reducing after each addition reaches
/// the same position as reducing the unbounded sum once.
pub proof fn lemma_probe_step(h: u128, m: nat, i: nat)
    requires
        m > 0,
    ensures
        ((hash_low(h) + hash_high(h) * tri_below(i)) % m + hash_high(h) * i) % m
            == probe_pos(h, m, i),
{
    let hl = hash_low(h) as int;
    let hh = hash_high(h) as int;
    let t = tri_below(i) as int;
    assert(tri_below(i + 1) == tri_below(i) + i);
    assert(hl + hh * (t + i) == (hl + hh * t) + hh * i) by (nonlinear_arith);
    lemma_add_mod_noop_right((hl + hh * t) % (m as int), hh * i, m as int);
    lemma_add_mod_noop(hl + hh * t, hh * i, m as int);
}

/// Law: every probe position of an item is set right after they are all
/// written, so a successful insert makes the item test as present.
pub proof fn lemma_no_false_negative(bits: Seq<bool>, h: u128, k: nat)
    requires
        k > 0 ==> bits.len() > 0,
    ensures
        all_probes_set(set_probes(bits, h, k), h, k),
    decreases k,
{
    if k > 0 {
        let kp = (k - 1) as nat;
        lemma_no_false_negative(bits, h, kp);
        lemma_set_probes_spec(bits, h, kp);
        let prev = set_probes(bits, h, kp);
        let cur = set_probes(bits, h, k);
        let p = probe_pos(h, bits.len(), kp) as int;
        lemma_probe_pos_in_range(h, bits.len(), kp);
        assert forall|i: nat| i < k implies cur[probe_pos(h, cur.len(), i) as int] by {
            lemma_probe_pos_in_range(h, bits.len(), i);
            if i == kp {
                assert(cur[p]);
            } else {
                assert(prev[probe_pos(h, bits.len(), i) as int]);
            }
        }
    }
}

/// The duplicate flag after one more probe: it stays raised exactly when
/// every probe position examined so far, the new one included, was already
/// set before the insert began.
pub proof fn lemma_seen_step(pre: Seq<bool>, h: u128, i: nat)
    requires
        pre.len() > 0,
    ensures
        (all_probes_set(pre, h, i) && set_probes(pre, h, i)[probe_pos(h, pre.len(), i) as int])
            == all_probes_set(pre, h, i + 1),
{
    let p = probe_pos(h, pre.len(), i) as int;
    lemma_probe_pos_in_range(h, pre.len(), i);
    lemma_set_probes_spec(pre, h, i);
    if all_probes_set(pre, h, i) {
        if set_probes(pre, h, i)[p] {
            if !pre[p] {
                let i2 = choose|i2: nat| i2 < i && probe_pos(h, pre.len(), i2) == p;
                assert(pre[probe_pos(h, pre.len(), i2) as int]);
                assert(false);
            }
            assert forall|i2: nat| i2 < i + 1 implies pre[probe_pos(h, pre.len(), i2) as int] by {
                if i2 < i {
                    assert(pre[probe_pos(h, pre.len(), i2) as int]);
                } else {
                    assert(i2 == i);
                }
            }
        } else {
            assert(!pre[p]);
            if all_probes_set(pre, h, i + 1) {
                assert(pre[probe_pos(h, pre.len(), i) as int]);
                assert(false);
            }
        }
    } else {
        if all_probes_set(pre, h, i + 1) {
            assert forall|i2: nat| i2 < i implies pre[probe_pos(h, pre.len(), i2) as int] by {
                assert(i2 < i + 1);
            }
            assert(false);
        }
    }
}

/// Law: bits are never cleared, so an item that tests as present keeps
/// testing as present in any later state whose bits dominate the earlier
/// ones.
pub proof fn lemma_contains_stable(b1: Seq<bool>, b2: Seq<bool>, h: u128, k: nat)
    requires
        b1.len() == b2.len(),
        forall|j: int| 0 <= j < b1.len() && b1[j] ==> b2[j],
        all_probes_set(b1, h, k),
        k > 0 ==> b1.len() > 0,
    ensures
        all_probes_set(b2, h, k),
{
    assert forall|i: nat| i < k implies b2[probe_pos(h, b2.len(), i) as int] by {
        lemma_probe_pos_in_range(h, b1.len(), i);
        assert(b1[probe_pos(h, b1.len(), i) as int]);
    }
}

/// Law: an insert only turns bits on, never off, and never changes the
/// length of the bit array.
pub proof fn lemma_set_probes_monotone(bits: Seq<bool>, h: u128, k: nat)
    requires
        k > 0 ==> bits.len() > 0,
    ensures
        set_probes(bits, h, k).len() == bits.len(),
        forall|j: int| 0 <= j < bits.len() && bits[j] ==> set_probes(bits, h, k)[j],
{
    lemma_set_probes_spec(bits, h, k);
}

/// Law: an item that tests as present still tests as present after any
/// later insert, whatever item that insert writes.
pub proof fn lemma_contains_after_insert(bits: Seq<bool>, h: u128, h2: u128, k: nat, k2: nat)
    requires
        k > 0 ==> bits.len() > 0,
        k2 > 0 ==> bits.len() > 0,
        all_probes_set(bits, h, k),
    ensures
        all_probes_set(set_probes(bits, h2, k2), h, k),
{
    lemma_set_probes_monotone(bits, h2, k2);
    lemma_contains_stable(bits, set_probes(bits, h2, k2), h, k);
}

/// Splits a digest into its low and high 64-bit halves.
pub(crate) fn split_hash(h: u128) -> (r: (u64, u64))
    ensures
        r.0 as nat == hash_low(h),
        r.1 as nat == hash_high(h),
{
    proof {
        lemma2_to64_rest();
    }
    let lo: u64 = (h % 0x1_0000_0000_0000_0000) as u64;
    let hi: u64 = (h / 0x1_0000_0000_0000_0000) as u64;
    (lo, hi)
}

/// One step of the cumulative recurrence: adds `i * hi` to the accumulator
/// and reduces modulo `m`.
pub(crate) fn next_probe(acc: usize, hi: u64, i: usize, m: usize) -> (r: usize)
    requires
        m > 0,
        acc < m,
    ensures
        r as nat == ((acc as nat) + (hi as nat) * (i as nat)) % (m as nat),
        r < m,
{
    let mm: u128 = m as u128;
    let him: u128 = (hi as u128) % mm;
    let im: u128 = (i as u128) % mm;
    proof {
        assert(him * im < 0x1_0000_0000_0000_0000_0000_0000_0000_0000) by (nonlinear_arith)
            requires
                him < mm,
                im < mm,
                mm <= 0x1_0000_0000_0000_0000u128;
    }
    let pm: u128 = (him * im) % mm;
    let r128: u128 = ((acc as u128) + pm) % mm;
    proof {
        lemma_mul_mod_noop(hi as int, i as int, m as int);
        lemma_add_mod_noop_right(acc as int, (hi as int) * (i as int), m as int);
    }
    r128 as usize
}

} // verus!
