//! The filter: construction, insertion with capacity enforcement and
//! optional duplicate detection, and membership queries.

use vstd::prelude::*;
use crate::params::rate_bits_ok;
use crate::params::spec_nbits_capped;
use crate::params::spec_iterations;
use crate::params::nbits;
use crate::params::iterations;
use crate::params::lemma_iterations_zero;
use crate::store::bits_of;
use crate::store::bitvec_new;
use crate::store::bitvec_get;
use crate::store::bitvec_set;
use crate::hash::murmur3_of;
use crate::hash::murmur3_128;
use crate::probe::hash_low;
use crate::probe::hash_high;
use crate::probe::tri_below;
use crate::probe::probe_pos;
use crate::probe::all_probes_set;
use crate::probe::set_probes;
use crate::probe::split_hash;
use crate::probe::next_probe;
use crate::probe::lemma_probe_pos_in_range;
use crate::probe::lemma_probe_step;
use crate::probe::lemma_seen_step;

verus! {

/// Why an operation was refused: a construction argument out of range, or
/// an insert into a filter that is already full.
#[derive(Clone, Copy, Debug, PartialEq, Eq, Structural)]
pub enum FilterError {
    InvalidArgument,
    CapacityExceeded,
}

/// The filter's abstract state: the bit array, the fixed configuration,
/// and the count of items accepted so far.
pub ghost struct FilterModel {
    pub bits: Seq<bool>,
    pub capacity: nat,
    pub error_rate_bits: u64,
    pub probes: nat,
    pub count: nat,
    pub dup_check: bool,
}

/// A Bloom filter: a fixed-size bit array, a probe count, and bookkeeping.
/// Membership answers have no false negatives; false positives occur at
/// roughly the configured rate once the filter nears capacity.
pub struct BloomFilter {
    capacity: usize,
    bitvec: bit_vec::BitVec,
    error_rate: u64,
    num_of_hashfuncs: usize,
    num_of_elements: usize,
    dup_check: bool,
}

impl View for BloomFilter {
    type V = FilterModel;

    closed spec fn view(&self) -> FilterModel {
        FilterModel {
            bits: bits_of(self.bitvec),
            capacity: self.capacity as nat,
            error_rate_bits: self.error_rate,
            probes: self.num_of_hashfuncs as nat,
            count: self.num_of_elements as nat,
            dup_check: self.dup_check,
        }
    }
}

impl BloomFilter {
    /// Well-formedness: the configuration is valid, the count never
    /// exceeds the capacity, and the bit-array length and probe count are
    /// exactly what the parameter calculator derives from the
    /// configuration.
    pub open spec fn wf(&self) -> bool {
        &&& self@.capacity >= 1
        &&& rate_bits_ok(self@.error_rate_bits)
        &&& self@.count <= self@.capacity
        &&& self@.bits.len() == spec_nbits_capped(self@.capacity, self@.error_rate_bits)
        &&& self@.probes == spec_iterations(self@.bits.len(), self@.capacity)
        &&& (self@.probes > 0 ==> self@.bits.len() > 0)
    }

    /// Builds a filter for `capacity` expected items at the false-positive
    /// rate whose IEEE-754 bit pattern is `error_rate`.  Fails with
    /// `InvalidArgument` exactly when the capacity is zero or the rate is
    /// not in (0, 1].
    pub fn new(capacity: usize, error_rate: u64, dup_check: bool) -> (r: Result<
        BloomFilter,
        FilterError,
    >)
        ensures
            r is Err <==> (capacity == 0 || !rate_bits_ok(error_rate)),
            r is Err ==> r == Err::<BloomFilter, FilterError>(FilterError::InvalidArgument),
            r matches Ok(f) ==> {
                &&& f.wf()
                &&& f@.capacity == capacity
                &&& f@.error_rate_bits == error_rate
                &&& f@.dup_check == dup_check
                &&& f@.count == 0
                &&& f@.bits == Seq::new(
                    spec_nbits_capped(capacity as nat, error_rate),
                    |j: int| false,
                )
            },
    {
        if capacity == 0 {
            return Err(FilterError::InvalidArgument);
        }
        if error_rate < 1 || error_rate > 0x3FF0_0000_0000_0000 {
            return Err(FilterError::InvalidArgument);
        }
        let num_of_bits = nbits(capacity, error_rate);
        let num_of_hashfuncs = iterations(num_of_bits, capacity);
        let bitvec = bitvec_new(num_of_bits);
        proof {
            if num_of_bits == 0 {
                lemma_iterations_zero(capacity as nat);
            }
        }
        Ok(
            BloomFilter {
                bitvec,
                capacity,
                error_rate,
                num_of_hashfuncs,
                num_of_elements: 0,
                dup_check,
            },
        )
    }

    /// Length of the underlying bit array.
    pub fn bitvec_len(&self) -> (r: usize)
        ensures
            r == self@.bits.len(),
    {
        crate::store::bitvec_len(&self.bitvec)
    }

    /// The capacity the filter was dimensioned for.
    pub fn capacity(&self) -> (r: usize)
        ensures
            r == self@.capacity,
    {
        self.capacity
    }

    /// How many items have been accepted as new so far.
    pub fn len(&self) -> (r: usize)
        ensures
            r == self@.count,
    {
        self.num_of_elements
    }

    /// The configured false-positive rate, as its IEEE-754 bit pattern.
    pub fn error_rate(&self) -> (r: u64)
        ensures
            r == self@.error_rate_bits,
    {
        self.error_rate
    }

    /// Whether no item has been accepted yet.
    pub fn is_empty(&self) -> (r: bool)
        ensures
            r == (self@.count == 0),
    {
        self.num_of_elements == 0
    }

    /// Inserts an item.  Fails with `CapacityExceeded`, changing nothing,
    /// exactly when the filter is full.  Otherwise every probe position of
    /// the item is set; with duplicate checking on, an item whose probe
    /// positions were all already set is reported as a duplicate
    /// (`Ok(false)`) and not counted, every other insert is counted and
    /// reported as new (`Ok(true)`).
    pub fn add(&mut self, data: &[u8]) -> (r: Result<bool, FilterError>)
        requires
            old(self).wf(),
            data@.len() <= 0x7FFF_FFFF,
        ensures
            final(self).wf(),
            final(self)@.capacity == old(self)@.capacity,
            final(self)@.error_rate_bits == old(self)@.error_rate_bits,
            final(self)@.probes == old(self)@.probes,
            final(self)@.dup_check == old(self)@.dup_check,
            old(self)@.count == old(self)@.capacity ==> {
                &&& r == Err::<bool, FilterError>(FilterError::CapacityExceeded)
                &&& *final(self) == *old(self)
            },
            old(self)@.count < old(self)@.capacity ==> {
                let h = murmur3_of(data@);
                let k = old(self)@.probes;
                &&& final(self)@.bits == set_probes(old(self)@.bits, h, k)
                &&& (if old(self)@.dup_check && all_probes_set(old(self)@.bits, h, k) {
                    r == Ok::<bool, FilterError>(false) && final(self)@.count == old(self)@.count
                } else {
                    r == Ok::<bool, FilterError>(true) && final(self)@.count == old(
                        self,
                    )@.count + 1
                })
            },
    {
        if self.num_of_elements == self.capacity {
            return Err(FilterError::CapacityExceeded);
        }
        let h = murmur3_128(data);
        let (h_lo, h_hi) = split_hash(h);
        let m = crate::store::bitvec_len(&self.bitvec);
        let k = self.num_of_hashfuncs;
        let ghost pre = bits_of(self.bitvec);
        let mut seen = true;
        let mut acc: usize = 0;
        if k > 0 {
            acc = ((h_lo as u128) % (m as u128)) as usize;
        }
        proof {
            assert(tri_below(0) == 0);
        }
        let mut i: usize = 0;
        while i < k
            invariant
                i <= k,
                k > 0 ==> m > 0,
                m as nat == pre.len(),
                k > 0 ==> acc < m,
                k > 0 ==> acc as nat == (hash_low(h) + hash_high(h) * tri_below(i as nat)) % (
                m as nat),
                h_lo as nat == hash_low(h),
                h_hi as nat == hash_high(h),
                bits_of(self.bitvec) == set_probes(pre, h, i as nat),
                bits_of(self.bitvec).len() == pre.len(),
                self.dup_check ==> seen == all_probes_set(pre, h, i as nat),
                self.num_of_hashfuncs == k,
                self.capacity == old(self).capacity,
                self.num_of_elements == old(self).num_of_elements,
                self.error_rate == old(self).error_rate,
                self.dup_check == old(self).dup_check,
            decreases k - i,
        {
            let pos = next_probe(acc, h_hi, i, m);
            acc = pos;
            proof {
                lemma_probe_step(h, m as nat, i as nat);
                assert(pos as nat == probe_pos(h, m as nat, i as nat));
                lemma_probe_pos_in_range(h, m as nat, i as nat);
            }
            if self.dup_check {
                let b = bitvec_get(&self.bitvec, pos);
                proof {
                    lemma_seen_step(pre, h, i as nat);
                }
                if let Some(bit) = b {
                    if !bit {
                        seen = false;
                    }
                }
            }
            bitvec_set(&mut self.bitvec, pos);
            i = i + 1;
        }
        if self.dup_check && seen {
            return Ok(false);
        }
        self.num_of_elements = self.num_of_elements + 1;
        Ok(true)
    }

    /// Whether the item is probably present: true exactly when every probe
    /// position of the item is set.  Never mutates the filter.
    pub fn contains(&self, data: &[u8]) -> (r: bool)
        requires
            self.wf(),
            data@.len() <= 0x7FFF_FFFF,
        ensures
            r == all_probes_set(self@.bits, murmur3_of(data@), self@.probes),
    {
        let h = murmur3_128(data);
        let (h_lo, h_hi) = split_hash(h);
        let m = crate::store::bitvec_len(&self.bitvec);
        let k = self.num_of_hashfuncs;
        let mut acc: usize = 0;
        if k > 0 {
            acc = ((h_lo as u128) % (m as u128)) as usize;
        }
        proof {
            assert(tri_below(0) == 0);
        }
        let mut i: usize = 0;
        while i < k
            invariant
                i <= k,
                k > 0 ==> m > 0,
                m as nat == self@.bits.len(),
                k > 0 ==> acc < m,
                k > 0 ==> acc as nat == (hash_low(h) + hash_high(h) * tri_below(i as nat)) % (
                m as nat),
                h == murmur3_of(data@),
                h_lo as nat == hash_low(h),
                h_hi as nat == hash_high(h),
                forall|i2: nat| i2 < i as nat ==> self@.bits[probe_pos(h, m as nat, i2) as int],
                self.num_of_hashfuncs == k,
            decreases k - i,
        {
            let pos = next_probe(acc, h_hi, i, m);
            acc = pos;
            proof {
                lemma_probe_step(h, m as nat, i as nat);
                lemma_probe_pos_in_range(h, m as nat, i as nat);
            }
            let b = bitvec_get(&self.bitvec, pos);
            if let Some(bit) = b {
                if !bit {
                    proof {
                        if all_probes_set(self@.bits, h, k as nat) {
                            assert(self@.bits[probe_pos(h, self@.bits.len(), i as nat) as int]);
                            assert(false);
                        }
                    }
                    return false;
                }
            }
            i = i + 1;
        }
        true
    }
}

} // verus!
