//! The histogram itself: configuration, derived bucket geometry, the
//! pre-allocated counter store, and the record/query operations.

use vstd::prelude::*;

verus! {

use vstd::arithmetic::power::pow;
use vstd::arithmetic::power2::pow2;
use crate::arith::{bit_len, bit_len_u64, lemma_bit_len_bounds, lemma_bit_len_le, pow10_u32,
    pow2_u64, sat_add_u64};
use crate::mapping::{lemma_geom_basics, lemma_get_index_in_range, lemma_index_value_in_band,
    spec_get_index, spec_index_value, wf_geom};

/// Construction-time parameters.  `precision` is the number of decimal
/// significant digits the logarithmic region preserves, `max_value` the
/// largest recordable value, `max_memory` an optional byte ceiling for the
/// counter store (`0` means unlimited).
pub struct HistogramConfig {
    pub precision: u32,
    pub max_memory: u32,
    pub max_value: u64,
}

/// Summary counters beside the per-slot counts.
pub struct HistogramCounters {
    pub entries_total: u64,
    pub missed_unknown: u64,
    pub missed_small: u64,
    pub missed_large: u64,
}

/// The counter store: one saturating counter per slot, the summary
/// counters, and the cursor of the restartable bucket enumeration.
pub struct HistogramData {
    pub data: Vec<u64>,
    pub counters: HistogramCounters,
    pub iterator: usize,
}

/// The bucket geometry derived from the configuration, fixed for the
/// histogram's lifetime.
pub struct HistogramProperties {
    pub buckets_inner: u32,
    pub buckets_outer: u32,
    pub buckets_total: u32,
    pub memory_used: u32,
    pub linear_max: u64,
    pub linear_power: u32,
}

pub struct Histogram {
    pub config: HistogramConfig,
    pub data: HistogramData,
    pub properties: HistogramProperties,
}

/// One step of the bucket enumeration: a slot, its representative value
/// and its current count.
pub struct HistogramBucket {
    pub value: u64,
    pub count: u64,
    pub id: u64,
}

/// The only construction-time failure: the configuration needs more
/// counter memory than `max_memory` allows.
#[derive(Clone, Copy, Debug, PartialEq, Eq, Structural)]
pub enum HistogramError {
    MemoryExceeded,
}

/// Sub-buckets per power-of-two band: `10^precision`.
pub open spec fn spec_buckets_inner(c: HistogramConfig) -> int {
    pow(10, c.precision as nat)
}

/// Bit length of `buckets_inner`; the linear region covers that many
/// power-of-two bands.
pub open spec fn spec_linear_power(c: HistogramConfig) -> int {
    bit_len(spec_buckets_inner(c) as nat) as int
}

/// Largest value mapped one-to-one: `2^linear_power - 1`.
pub open spec fn spec_linear_max(c: HistogramConfig) -> int {
    pow2(spec_linear_power(c) as nat) - 1
}

/// Power-of-two bands needed beyond the linear region to reach `max_value`.
pub open spec fn spec_buckets_outer(c: HistogramConfig) -> int {
    if bit_len(c.max_value as nat) > spec_linear_power(c) {
        bit_len(c.max_value as nat) - spec_linear_power(c)
    } else {
        0int
    }
}

/// Total slot count of the counter store.
pub open spec fn spec_buckets_total(c: HistogramConfig) -> int {
    spec_linear_max(c) + spec_buckets_inner(c) * spec_buckets_outer(c)
}

/// Bytes of counter storage: eight per slot.
pub open spec fn spec_memory_used(c: HistogramConfig) -> int {
    spec_buckets_total(c) * 8
}

impl Histogram {
    /// The stored geometry is consistent, the counter store is sized to it,
    /// and the enumeration cursor is within range.
    pub open spec fn wf(&self) -> bool {
        &&& wf_geom(
            self.properties.buckets_inner as int,
            self.properties.linear_power as int,
            self.properties.linear_max as int,
            self.properties.buckets_outer as int,
            self.properties.buckets_total as int,
            self.config.max_value as int,
        )
        &&& self.data.data@.len() == self.properties.buckets_total
        &&& self.data.iterator <= self.properties.buckets_total
        &&& self.properties.buckets_total * 8 <= u32::MAX
    }

    /// The slot index the value `v` maps to.
    pub open spec fn slot_of(&self, v: int) -> int {
        spec_get_index(
            self.properties.buckets_inner as int,
            self.properties.linear_power as int,
            self.properties.linear_max as int,
            v,
        )
    }

    /// The representative value of the slot `i`.
    pub open spec fn value_of_slot(&self, i: int) -> int {
        spec_index_value(
            self.properties.buckets_inner as int,
            self.properties.linear_power as int,
            self.properties.linear_max as int,
            i,
        )
    }

    /// Create a histogram: derive the bucket geometry from the
    /// configuration and pre-allocate the zeroed counter store.  Fails with
    /// `MemoryExceeded` exactly when a non-zero `max_memory` is below the
    /// computed footprint, and allocates nothing in that case.
    pub fn new(config: HistogramConfig) -> (r: Result<Histogram, HistogramError>)
        requires
            config.precision <= 9,
            config.max_value >= 1,
            spec_memory_used(config) <= u32::MAX,
        ensures
            r is Err <==> config.max_memory > 0 && config.max_memory < spec_memory_used(config),
            r is Err ==> r == Err::<Histogram, HistogramError>(HistogramError::MemoryExceeded),
            r matches Ok(h) ==> ({
                &&& h.wf()
                &&& h.config == config
                &&& h.properties.buckets_inner == spec_buckets_inner(config)
                &&& h.properties.linear_power == spec_linear_power(config)
                &&& h.properties.linear_max == spec_linear_max(config)
                &&& h.properties.buckets_outer == spec_buckets_outer(config)
                &&& h.properties.buckets_total == spec_buckets_total(config)
                &&& h.properties.memory_used == spec_memory_used(config)
                &&& h.data.data@.len() == spec_buckets_total(config)
                &&& forall|j: int| 0 <= j < h.data.data@.len() ==> h.data.data@[j] == 0u64
                &&& h.data.counters.entries_total == 0
                &&& h.data.counters.missed_small == 0
                &&& h.data.counters.missed_large == 0
                &&& h.data.counters.missed_unknown == 0
                &&& h.data.iterator == 0
            }),
    {
        let buckets_inner: u32 = pow10_u32(config.precision);
        let linear_power: u32 = bit_len_u64(buckets_inner as u64);
        proof {
            lemma_bit_len_bounds(buckets_inner as nat);
            assert(buckets_inner < pow2(32)) by {
                vstd::arithmetic::power2::lemma2_to64();
            }
            lemma_bit_len_le(buckets_inner as nat, 32);
        }
        let linear_max: u64 = pow2_u64(linear_power) - 1;
        let max_value_power: u32 = bit_len_u64(config.max_value);
        let mut buckets_outer: u32 = 0;
        if max_value_power > linear_power {
            buckets_outer = max_value_power - linear_power;
        }
        proof {
            lemma_geom_basics(
                buckets_inner as int,
                linear_power as int,
                linear_max as int,
                buckets_outer as int,
                linear_max + buckets_inner * buckets_outer,
                config.max_value as int,
            );
        }
        let buckets_total: u32 = buckets_inner * buckets_outer + linear_max as u32;
        let memory_used: u32 = buckets_total * 8;
        if config.max_memory > 0 && config.max_memory < memory_used {
            return Err(HistogramError::MemoryExceeded);
        }
        let mut data: Vec<u64> = Vec::new();
        let mut k: u32 = 0;
        while k < buckets_total
            invariant
                k <= buckets_total,
                data@.len() == k,
                forall|j: int| 0 <= j < k ==> data@[j] == 0u64,
            decreases buckets_total - k,
        {
            data.push(0u64);
            k = k + 1;
        }
        Ok(
            Histogram {
                config,
                data: HistogramData {
                    data,
                    counters: HistogramCounters {
                        entries_total: 0,
                        missed_unknown: 0,
                        missed_small: 0,
                        missed_large: 0,
                    },
                    iterator: 0,
                },
                properties: HistogramProperties {
                    buckets_inner,
                    buckets_outer,
                    buckets_total,
                    memory_used,
                    linear_max,
                    linear_power,
                },
            },
        )
    }

    /// Map an in-range value to its slot index.  Values below `1` have no
    /// slot; every value up to `max_value` maps to a valid slot.
    pub fn get_index(&mut self, value: u64) -> (r: Option<usize>)
        requires
            old(self).wf(),
            value <= old(self).config.max_value,
        ensures
            *final(self) == *old(self),
            value < 1 ==> r is None,
            value >= 1 ==> r == Some(old(self).slot_of(value as int) as usize),
            value >= 1 ==> 0 <= old(self).slot_of(value as int)
                < old(self).properties.buckets_total,
    {
        if value < 1 {
            return None;
        }
        proof {
            lemma_get_index_in_range(
                self.properties.buckets_inner as int,
                self.properties.linear_power as int,
                self.properties.linear_max as int,
                self.properties.buckets_outer as int,
                self.properties.buckets_total as int,
                self.config.max_value as int,
                value as int,
            );
        }
        if value <= self.properties.linear_max {
            return Some((value - 1) as usize);
        }
        proof {
            lemma_bit_len_bounds(value as nat);
        }
        let outer: u32 = bit_len_u64(value) - 1;
        let band_base: u64 = pow2_u64(outer);
        let remain: u64 = value - band_base;
        proof {
            vstd::arithmetic::power2::lemma_pow2_pos(outer as nat);
            assert((self.properties.buckets_inner as u128) * (remain as u128) < 0x1000000000000000000000000u128)
                by (nonlinear_arith)
                requires
                    self.properties.buckets_inner <= 0xffffffffu32,
                    remain <= 0xffffffffffffffffu64,
            ;
            vstd::arithmetic::mul::lemma_mul_nonnegative(
                self.properties.buckets_inner as int,
                remain as int,
            );
            vstd::arithmetic::div_mod::lemma_div_pos_is_pos(
                (self.properties.buckets_inner as int) * (remain as int),
                band_base as int,
            );
        }
        let inner: u64 = (((self.properties.buckets_inner as u128) * (remain as u128)) / (
        band_base as u128)) as u64;
        let index: u64 = self.properties.linear_max + (self.properties.buckets_inner as u64) * ((
        outer - self.properties.linear_power) as u64) + inner;
        Some(index as usize)
    }

    /// The representative value of a slot: exact in the linear region, the
    /// rounded-up band interpolation in the logarithmic region.
    pub fn index_value(&mut self, index: usize) -> (r: u64)
        requires
            old(self).wf(),
            index < old(self).properties.buckets_total,
        ensures
            *final(self) == *old(self),
            r == old(self).value_of_slot(index as int),
            1 <= r,
    {
        proof {
            lemma_geom_basics(
                self.properties.buckets_inner as int,
                self.properties.linear_power as int,
                self.properties.linear_max as int,
                self.properties.buckets_outer as int,
                self.properties.buckets_total as int,
                self.config.max_value as int,
            );
        }
        if (index as u64) < self.properties.linear_max {
            return index as u64 + 1;
        }
        proof {
            lemma_index_value_in_band(
                self.properties.buckets_inner as int,
                self.properties.linear_power as int,
                self.properties.linear_max as int,
                self.properties.buckets_outer as int,
                self.properties.buckets_total as int,
                self.config.max_value as int,
                index as int,
            );
        }
        let log_index: u64 = index as u64 - self.properties.linear_max;
        proof {
            assert(log_index < self.properties.buckets_inner * self.properties.buckets_outer);
            vstd::arithmetic::div_mod::lemma_multiply_divide_lt(
                log_index as int,
                self.properties.buckets_inner as int,
                self.properties.buckets_outer as int,
            );
            vstd::arithmetic::div_mod::lemma_mod_division_less_than_divisor(
                log_index as int,
                self.properties.buckets_inner as int,
            );
            assert(self.config.max_value < pow2(64)) by {
                vstd::arithmetic::power2::lemma2_to64();
            }
            lemma_bit_len_le(self.config.max_value as nat, 64);
        }
        let outer: u32 = (log_index / (self.properties.buckets_inner as u64)) as u32;
        let inner: u64 = log_index % (self.properties.buckets_inner as u64);
        proof {
            // outer + linear_power < bit_len(max_value) <= 64, so the band
            // base fits in a u64.
            assert(outer + self.properties.linear_power <= 63);
            if outer + self.properties.linear_power < 63 {
                vstd::arithmetic::power2::lemma_pow2_strictly_increases(
                    (outer + self.properties.linear_power) as nat,
                    63,
                );
            }
            assert(pow2(63) == 0x8000000000000000) by {
                vstd::arithmetic::power2::lemma2_to64_rest();
            }
        }
        let band_base: u64 = pow2_u64(outer + self.properties.linear_power);
        proof {
            assert((inner as u128) * (band_base as u128) < 0x80000000000000000000000000000000u128)
                by (nonlinear_arith)
                requires
                    inner <= 0xffffffffffffffffu64,
                    band_base <= 0x8000000000000000u64,
            ;
        }
        let num: u128 = (inner as u128) * (band_base as u128);
        let add: u64 = ((num + (self.properties.buckets_inner as u128) - 1) / (
        self.properties.buckets_inner as u128)) as u64;
        band_base + add
    }

    /// Add `count` to the record for `value`.  Every call adds `count` to
    /// `entries_total`; the value is then classified as too small, too
    /// large, or in range, and the matching counter takes the count.  All
    /// counters saturate instead of wrapping.
    pub fn record(&mut self, value: u64, count: u64)
        requires
            old(self).wf(),
        ensures
            final(self).wf(),
            final(self).config == old(self).config,
            final(self).properties == old(self).properties,
            final(self).data.iterator == old(self).data.iterator,
            final(self).data.counters.entries_total == sat_add_u64(
                old(self).data.counters.entries_total as int,
                count as int,
            ),
            final(self).data.counters.missed_unknown == old(self).data.counters.missed_unknown,
            value < 1 ==> ({
                &&& final(self).data.counters.missed_small == sat_add_u64(
                    old(self).data.counters.missed_small as int,
                    count as int,
                )
                &&& final(self).data.counters.missed_large
                    == old(self).data.counters.missed_large
                &&& final(self).data.data == old(self).data.data
            }),
            value > old(self).config.max_value ==> ({
                &&& final(self).data.counters.missed_large == sat_add_u64(
                    old(self).data.counters.missed_large as int,
                    count as int,
                )
                &&& final(self).data.counters.missed_small
                    == old(self).data.counters.missed_small
                &&& final(self).data.data == old(self).data.data
            }),
            1 <= value <= old(self).config.max_value ==> ({
                let slot = old(self).slot_of(value as int);
                &&& final(self).data.data@ == old(self).data.data@.update(
                    slot,
                    sat_add_u64(old(self).data.data@[slot] as int, count as int),
                )
                &&& final(self).data.counters.missed_small
                    == old(self).data.counters.missed_small
                &&& final(self).data.counters.missed_large
                    == old(self).data.counters.missed_large
            }),
    {
        self.data.counters.entries_total = self.data.counters.entries_total.saturating_add(count);
        if value < 1 {
            self.data.counters.missed_small = self.data.counters.missed_small.saturating_add(
                count,
            );
        } else if value > self.config.max_value {
            self.data.counters.missed_large = self.data.counters.missed_large.saturating_add(
                count,
            );
        } else {
            match self.get_index(value) {
                Some(index) => {
                    let current: u64 = self.data.data[index];
                    self.data.data[index] = current.saturating_add(count);
                },
                None => {
                    self.data.counters.missed_unknown =
                        self.data.counters.missed_unknown.saturating_add(count);
                },
            }
        }
    }

    /// Add one to the record for `value`.
    pub fn increment(&mut self, value: u64)
        requires
            old(self).wf(),
        ensures
            final(self).wf(),
            final(self).config == old(self).config,
            final(self).properties == old(self).properties,
            final(self).data.iterator == old(self).data.iterator,
            final(self).data.counters.entries_total == sat_add_u64(
                old(self).data.counters.entries_total as int,
                1,
            ),
            final(self).data.counters.missed_unknown == old(self).data.counters.missed_unknown,
            value < 1 ==> ({
                &&& final(self).data.counters.missed_small == sat_add_u64(
                    old(self).data.counters.missed_small as int,
                    1,
                )
                &&& final(self).data.counters.missed_large
                    == old(self).data.counters.missed_large
                &&& final(self).data.data == old(self).data.data
            }),
            value > old(self).config.max_value ==> ({
                &&& final(self).data.counters.missed_large == sat_add_u64(
                    old(self).data.counters.missed_large as int,
                    1,
                )
                &&& final(self).data.counters.missed_small
                    == old(self).data.counters.missed_small
                &&& final(self).data.data == old(self).data.data
            }),
            1 <= value <= old(self).config.max_value ==> ({
                let slot = old(self).slot_of(value as int);
                &&& final(self).data.data@ == old(self).data.data@.update(
                    slot,
                    sat_add_u64(old(self).data.data@[slot] as int, 1),
                )
                &&& final(self).data.counters.missed_small
                    == old(self).data.counters.missed_small
                &&& final(self).data.counters.missed_large
                    == old(self).data.counters.missed_large
            }),
    {
        self.record(value, 1)
    }

    /// The current count of the slot an in-range value maps to; `None` for
    /// out-of-range values, which have no slot.  The missed counters are
    /// not consulted.
    pub fn get(&mut self, value: u64) -> (r: Option<u64>)
        requires
            old(self).wf(),
        ensures
            *final(self) == *old(self),
            1 <= value <= old(self).config.max_value ==> r == Some(
                old(self).data.data@[old(self).slot_of(value as int)],
            ),
            !(1 <= value <= old(self).config.max_value) ==> r is None,
    {
        if value > self.config.max_value {
            return None;
        }
        match self.get_index(value) {
            Some(index) => Some(self.data.data[index]),
            None => None,
        }
    }

    /// The total number of counts recorded, including out-of-range ones.
    pub fn entries(&mut self) -> (r: u64)
        ensures
            *final(self) == *old(self),
            r == old(self).data.counters.entries_total,
    {
        self.data.counters.entries_total
    }

    /// One step of the restartable bucket enumeration: yield the record of
    /// the slot under the cursor and advance, or signal the end of the
    /// pass and reset the cursor so a new full pass can begin.
    pub fn next_bucket(&mut self) -> (r: Option<HistogramBucket>)
        requires
            old(self).wf(),
        ensures
            final(self).wf(),
            final(self).config == old(self).config,
            final(self).properties == old(self).properties,
            final(self).data.data == old(self).data.data,
            final(self).data.counters == old(self).data.counters,
            old(self).data.iterator < old(self).properties.buckets_total ==> ({
                let cur = old(self).data.iterator as int;
                &&& final(self).data.iterator == cur + 1
                &&& (r matches Some(b) && b.id == cur && b.count == old(self).data.data@[cur]
                    && b.value == old(self).value_of_slot(cur))
            }),
            old(self).data.iterator >= old(self).properties.buckets_total ==> ({
                &&& final(self).data.iterator == 0
                &&& r is None
            }),
    {
        let current: usize = self.data.iterator;
        if current == self.properties.buckets_total as usize {
            self.data.iterator = 0;
            None
        } else {
            self.data.iterator = current + 1;
            let value: u64 = self.index_value(current);
            Some(HistogramBucket { id: current as u64, value, count: self.data.data[current] })
        }
    }
}

} // verus!
