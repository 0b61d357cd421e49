//! The query engine: percentile estimation over the counter store, and the
//! merge protocol built on the restartable bucket enumeration.

use vstd::prelude::*;

verus! {

use crate::arith::{ceil_div, lemma_ceil_div_bounds, sat_add_u64};
use crate::histogram::{Histogram, HistogramProperties};
use crate::mapping::{lemma_slot_roundtrip, spec_get_index, spec_index_value, wf_geom};

/// A whole percentile scale: percentiles are passed in thousandths of a
/// percent, so `50_000` is the median and `99_900` is p99.9.
pub const PERCENT_SCALE: u64 = 100000;

/// Half the percentile scale; queries below the median scan from the
/// bottom of the store, the rest from the top.
pub const HALF_PERCENT_SCALE: u64 = 50000;

/// The count threshold a percentile scan must accumulate, counted from the
/// top of the store: `total - ceil(total * p / scale)` clamped into
/// `[1, total]`.
pub open spec fn spec_need(total: u64, p: u64) -> int {
    let want = ceil_div(total as int * p as int, PERCENT_SCALE as int);
    let capped = if want > total as int {
        total as int
    } else {
        want
    };
    if total - capped == 0 {
        1int
    } else {
        total - capped
    }
}

/// The first slot at or after `i`, scanning up, where the saturating
/// running sum started at `acc` reaches `need`.
pub open spec fn scan_up(data: Seq<u64>, need: int, acc: u64, i: int) -> Option<int>
    decreases data.len() - i
        when 0 <= i <= data.len()
{
    if i >= data.len() {
        None
    } else if sat_add_u64(acc as int, data[i] as int) >= need {
        Some(i)
    } else {
        scan_up(data, need, sat_add_u64(acc as int, data[i] as int), i + 1)
    }
}

/// The first slot at or before `i`, scanning down, where the saturating
/// running sum started at `acc` reaches `need`.
pub open spec fn scan_down(data: Seq<u64>, need: int, acc: u64, i: int) -> Option<int>
    decreases i + 1
        when -1 <= i < data.len()
{
    if i < 0 {
        None
    } else if sat_add_u64(acc as int, data[i] as int) >= need {
        Some(i)
    } else {
        scan_down(data, need, sat_add_u64(acc as int, data[i] as int), i - 1)
    }
}

/// The counter store of the destination after replaying the source slots
/// from `j` on: each source slot's count is re-recorded under its
/// representative value, so it lands in the destination slot that value
/// maps to — unless the value is outside the destination's range.
pub open spec fn spec_merge_data(
    p: HistogramProperties,
    mv: u64,
    op: HistogramProperties,
    dst: Seq<u64>,
    src: Seq<u64>,
    j: int,
) -> Seq<u64>
    decreases src.len() - j
        when 0 <= j <= src.len()
{
    if j >= src.len() {
        dst
    } else {
        let v = spec_index_value(
            op.buckets_inner as int,
            op.linear_power as int,
            op.linear_max as int,
            j,
        );
        let stepped = if 1 <= v <= mv {
            let slot = spec_get_index(
                p.buckets_inner as int,
                p.linear_power as int,
                p.linear_max as int,
                v,
            );
            dst.update(slot, sat_add_u64(dst[slot] as int, src[j] as int))
        } else {
            dst
        };
        spec_merge_data(p, mv, op, stepped, src, j + 1)
    }
}

/// The destination's `entries_total` after replaying the source slots
/// from `j` on: every slot count is added, saturating.
pub open spec fn spec_merge_entries(entries: u64, src: Seq<u64>, j: int) -> u64
    decreases src.len() - j
        when 0 <= j <= src.len()
{
    if j >= src.len() {
        entries
    } else {
        spec_merge_entries(sat_add_u64(entries as int, src[j] as int), src, j + 1)
    }
}

/// The destination's `missed_large` after replaying the source slots from
/// `j` on: counts of slots whose representative value is above the
/// destination's `max_value` end up here.
pub open spec fn spec_merge_missed_large(
    ml: u64,
    mv: u64,
    op: HistogramProperties,
    src: Seq<u64>,
    j: int,
) -> u64
    decreases src.len() - j
        when 0 <= j <= src.len()
{
    if j >= src.len() {
        ml
    } else {
        let v = spec_index_value(
            op.buckets_inner as int,
            op.linear_power as int,
            op.linear_max as int,
            j,
        );
        let stepped = if v > mv {
            sat_add_u64(ml as int, src[j] as int)
        } else {
            ml
        };
        spec_merge_missed_large(stepped, mv, op, src, j + 1)
    }
}

/// At the full-scale percentile the scan threshold is one count from the
/// top, so the query reports the highest non-empty slot.
pub proof fn lemma_need_at_full_scale(total: u64)
    requires
        1 <= total,
    ensures
        spec_need(total, PERCENT_SCALE) == 1,
{
    let t = total as int;
    let s = PERCENT_SCALE as int;
    assert(ceil_div(t * s, s) == t) by {
        assert(t * s + s - 1 == s * t + (s - 1));
        vstd::arithmetic::div_mod::lemma_div_multiples_vanish_fancy(t, s - 1, s);
    }
}

/// At percentile zero the threshold from the top is the whole total, so
/// the upward scan's threshold is zero.
pub proof fn lemma_need_at_zero(total: u64)
    requires
        1 <= total,
    ensures
        spec_need(total, 0) == total,
{
    let s = PERCENT_SCALE as int;
    assert(ceil_div(0, s) == 0) by {
        vstd::arithmetic::div_mod::lemma_basic_div(s - 1, s);
    }
}

/// With a zero threshold the upward scan stops at the very first slot.
pub proof fn lemma_scan_up_zero_threshold(data: Seq<u64>)
    requires
        data.len() >= 1,
    ensures
        scan_up(data, 0, 0, 0) == Some(0int),
{
}

/// With a threshold of one count the downward scan from `i` finds exactly
/// the last non-empty slot at or before `i`, or nothing when all those
/// slots are empty.
pub proof fn lemma_scan_down_finds_last_nonempty(data: Seq<u64>, i: int)
    requires
        -1 <= i < data.len(),
    ensures
        match scan_down(data, 1, 0, i) {
            Some(k) => 0 <= k <= i && data[k] >= 1 && (forall|j: int|
                k < j <= i ==> data[j] == 0),
            None => forall|j: int| 0 <= j <= i ==> data[j] == 0,
        },
    decreases i + 1,
{
    if i < 0 {
    } else if data[i] >= 1 {
    } else {
        lemma_scan_down_finds_last_nonempty(data, i - 1);
    }
}

/// Merging a histogram into one with the same geometry doubles, with
/// saturation, the count of every slot whose representative value is
/// recordable, and moves no count between slots: each slot's
/// representative value maps back to that same slot.  Counts of slots
/// whose representative value exceeds `max_value` go to missed-large and
/// leave their destination slot untouched.
pub proof fn lemma_merge_with_same_geometry_doubles_slots(
    p: HistogramProperties,
    mv: u64,
    dst: Seq<u64>,
    src: Seq<u64>,
    j: int,
)
    requires
        wf_geom(
            p.buckets_inner as int,
            p.linear_power as int,
            p.linear_max as int,
            p.buckets_outer as int,
            p.buckets_total as int,
            mv as int,
        ),
        dst.len() == p.buckets_total,
        src.len() == p.buckets_total,
        0 <= j <= src.len(),
    ensures
        spec_merge_data(p, mv, p, dst, src, j).len() == dst.len(),
        forall|i: int|
            0 <= i < dst.len() ==> #[trigger] spec_merge_data(p, mv, p, dst, src, j)[i] == ({
                let v = spec_index_value(
                    p.buckets_inner as int,
                    p.linear_power as int,
                    p.linear_max as int,
                    i,
                );
                if j <= i && v <= mv {
                    sat_add_u64(dst[i] as int, src[i] as int)
                } else {
                    dst[i]
                }
            }),
    decreases src.len() - j,
{
    if j >= src.len() {
    } else {
        lemma_slot_roundtrip(
            p.buckets_inner as int,
            p.linear_power as int,
            p.linear_max as int,
            p.buckets_outer as int,
            p.buckets_total as int,
            mv as int,
            j,
        );
        let v = spec_index_value(
            p.buckets_inner as int,
            p.linear_power as int,
            p.linear_max as int,
            j,
        );
        let stepped = if 1 <= v <= mv {
            dst.update(j, sat_add_u64(dst[j] as int, src[j] as int))
        } else {
            dst
        };
        assert(spec_merge_data(p, mv, p, dst, src, j) == spec_merge_data(
            p,
            mv,
            p,
            stepped,
            src,
            j + 1,
        ));
        lemma_merge_with_same_geometry_doubles_slots(p, mv, stepped, src, j + 1);
    }
}

impl Histogram {
    /// The value below which the given fraction of recorded counts falls,
    /// as the representative value of the slot where the scan's running
    /// sum meets its threshold.  `percentile` is in thousandths of a
    /// percent.  Returns `None` when nothing was recorded, when
    /// `percentile` is above the scale, or when the scan exhausts the
    /// store without meeting the threshold (possible when out-of-range
    /// values inflated `entries_total` without filling any slot).
    pub fn percentile(&mut self, percentile: u64) -> (r: Option<u64>)
        requires
            old(self).wf(),
        ensures
            *final(self) == *old(self),
            old(self).data.counters.entries_total < 1 ==> r is None,
            percentile > PERCENT_SCALE ==> r is None,
            old(self).data.counters.entries_total >= 1 && percentile <= PERCENT_SCALE ==> ({
                let data = old(self).data.data@;
                let total = old(self).data.counters.entries_total;
                let need = spec_need(total, percentile);
                if percentile < HALF_PERCENT_SCALE {
                    match scan_up(data, total - need, 0, 0) {
                        Some(i) => r matches Some(v) && v == old(self).value_of_slot(i),
                        None => r is None,
                    }
                } else {
                    match scan_down(data, need, 0, data.len() - 1) {
                        Some(i) => r matches Some(v) && v == old(self).value_of_slot(i),
                        None => r is None,
                    }
                }
            }),
    {
        if self.entries() < 1 {
            return None;
        }
        if percentile > PERCENT_SCALE {
            return None;
        }
        let total: u64 = self.data.counters.entries_total;
        proof {
            // ceil(total * p / scale) <= total, so the u64 narrowing below
            // is exact.
            let t = total as int;
            let p = percentile as int;
            let s = PERCENT_SCALE as int;
            lemma_ceil_div_bounds(t * p, s);
            assert(t * p <= t * s) by (nonlinear_arith)
                requires
                    p <= s,
                    t >= 0,
            ;
            assert(ceil_div(t * s, s) == t) by {
                assert(t * s + s - 1 == s * t + (s - 1));
                vstd::arithmetic::div_mod::lemma_div_multiples_vanish_fancy(t, s - 1, s);
            }
            assert(ceil_div(t * p, s) <= ceil_div(t * s, s)) by {
                vstd::arithmetic::div_mod::lemma_div_is_ordered(t * p + s - 1, t * s + s - 1, s);
            }
            assert(ceil_div(t * p, s) >= 0) by {
                vstd::arithmetic::mul::lemma_mul_nonnegative(t, p);
                vstd::arithmetic::div_mod::lemma_div_pos_is_pos(t * p + s - 1, s);
            }
        }
        let mut need: u64 = (((total as u128) * (percentile as u128) + (PERCENT_SCALE as u128
            - 1)) / (PERCENT_SCALE as u128)) as u64;
        if need > total {
            need = total;
        }
        need = total - need;
        if need == 0 {
            need = 1;
        }
        let buckets_total: usize = self.properties.buckets_total as usize;
        if percentile < HALF_PERCENT_SCALE {
            let threshold: u64 = total - need;
            let mut idx: usize = 0;
            let mut have: u64 = 0;
            while idx < buckets_total
                invariant
                    self.wf(),
                    *self == *old(self),
                    buckets_total == self.properties.buckets_total,
                    total == self.data.counters.entries_total,
                    1 <= total,
                    percentile < HALF_PERCENT_SCALE,
                    need == spec_need(total, percentile),
                    threshold == total - need,
                    0 <= idx <= buckets_total,
                    scan_up(self.data.data@, threshold as int, 0, 0) == scan_up(
                        self.data.data@,
                        threshold as int,
                        have,
                        idx as int,
                    ),
                decreases buckets_total - idx,
            {
                let here: u64 = have.saturating_add(self.data.data[idx]);
                if here >= threshold {
                    return Some(self.index_value(idx));
                }
                have = here;
                idx = idx + 1;
            }
            None
        } else {
            let mut remaining: usize = buckets_total;
            let mut have: u64 = 0;
            while remaining > 0
                invariant
                    self.wf(),
                    *self == *old(self),
                    buckets_total == self.properties.buckets_total,
                    total == self.data.counters.entries_total,
                    1 <= total,
                    HALF_PERCENT_SCALE <= percentile <= PERCENT_SCALE,
                    need == spec_need(total, percentile),
                    0 <= remaining <= buckets_total,
                    scan_down(self.data.data@, need as int, 0, buckets_total - 1) == scan_down(
                        self.data.data@,
                        need as int,
                        have,
                        remaining - 1,
                    ),
                decreases remaining,
            {
                let idx: usize = remaining - 1;
                let here: u64 = have.saturating_add(self.data.data[idx]);
                if here >= need {
                    return Some(self.index_value(idx));
                }
                have = here;
                remaining = idx;
            }
            None
        }
    }

    /// Drain the other histogram's bucket enumeration from its current
    /// cursor and re-record every representative value with its count
    /// here.  The other histogram's counts are only read; its cursor is
    /// left reset, so a new full pass over it is possible.  Counts of
    /// slots whose representative value is above this histogram's
    /// `max_value` are taken as missed-large instead.
    pub fn merge(&mut self, other: &mut Histogram)
        requires
            old(self).wf(),
            old(other).wf(),
        ensures
            final(self).wf(),
            final(other).wf(),
            final(self).config == old(self).config,
            final(self).properties == old(self).properties,
            final(self).data.iterator == old(self).data.iterator,
            final(self).data.counters.missed_small == old(self).data.counters.missed_small,
            final(self).data.counters.missed_unknown == old(self).data.counters.missed_unknown,
            final(self).data.data@ == spec_merge_data(
                old(self).properties,
                old(self).config.max_value,
                old(other).properties,
                old(self).data.data@,
                old(other).data.data@,
                old(other).data.iterator as int,
            ),
            final(self).data.counters.entries_total == spec_merge_entries(
                old(self).data.counters.entries_total,
                old(other).data.data@,
                old(other).data.iterator as int,
            ),
            final(self).data.counters.missed_large == spec_merge_missed_large(
                old(self).data.counters.missed_large,
                old(self).config.max_value,
                old(other).properties,
                old(other).data.data@,
                old(other).data.iterator as int,
            ),
            final(other).config == old(other).config,
            final(other).properties == old(other).properties,
            final(other).data.data == old(other).data.data,
            final(other).data.counters == old(other).data.counters,
            final(other).data.iterator == 0,
    {
        let ghost props0 = self.properties;
        let ghost cfg0 = self.config;
        let ghost mv0 = self.config.max_value;
        let ghost dst0 = self.data.data@;
        let ghost it0 = self.data.iterator;
        let ghost e0 = self.data.counters.entries_total;
        let ghost ml0 = self.data.counters.missed_large;
        let ghost ms0 = self.data.counters.missed_small;
        let ghost mu0 = self.data.counters.missed_unknown;
        let ghost oprops0 = other.properties;
        let ghost ocfg0 = other.config;
        let ghost odata0 = other.data.data;
        let ghost ocnt0 = other.data.counters;
        let ghost src0 = other.data.data@;
        let ghost j0 = other.data.iterator as int;
        loop
            invariant_except_break
                self.wf(),
                other.wf(),
                0 <= j0 <= src0.len(),
                src0.len() == oprops0.buckets_total,
                j0 <= other.data.iterator,
                mv0 == cfg0.max_value,
                self.config == cfg0,
                self.properties == props0,
                self.data.iterator == it0,
                self.data.counters.missed_small == ms0,
                self.data.counters.missed_unknown == mu0,
                other.config == ocfg0,
                other.properties == oprops0,
                other.data.data == odata0,
                other.data.data@ == src0,
                other.data.counters == ocnt0,
                spec_merge_data(props0, mv0, oprops0, dst0, src0, j0) == spec_merge_data(
                    props0,
                    mv0,
                    oprops0,
                    self.data.data@,
                    src0,
                    other.data.iterator as int,
                ),
                spec_merge_entries(e0, src0, j0) == spec_merge_entries(
                    self.data.counters.entries_total,
                    src0,
                    other.data.iterator as int,
                ),
                spec_merge_missed_large(ml0, mv0, oprops0, src0, j0) == spec_merge_missed_large(
                    self.data.counters.missed_large,
                    mv0,
                    oprops0,
                    src0,
                    other.data.iterator as int,
                ),
            ensures
                self.wf(),
                other.wf(),
                self.config == cfg0,
                self.properties == props0,
                self.data.iterator == it0,
                self.data.counters.missed_small == ms0,
                self.data.counters.missed_unknown == mu0,
                self.data.data@ == spec_merge_data(props0, mv0, oprops0, dst0, src0, j0),
                self.data.counters.entries_total == spec_merge_entries(e0, src0, j0),
                self.data.counters.missed_large == spec_merge_missed_large(
                    ml0,
                    mv0,
                    oprops0,
                    src0,
                    j0,
                ),
                other.config == ocfg0,
                other.properties == oprops0,
                other.data.data == odata0,
                other.data.counters == ocnt0,
                other.data.iterator == 0,
            decreases other.properties.buckets_total - other.data.iterator,
        {
            let ghost cur = other.data.iterator as int;
            match other.next_bucket() {
                Some(bucket) => {
                    proof {
                        // The representative value of a valid slot is at
                        // least one, so record never takes it as missed-small.
                        lemma_slot_roundtrip(
                            oprops0.buckets_inner as int,
                            oprops0.linear_power as int,
                            oprops0.linear_max as int,
                            oprops0.buckets_outer as int,
                            oprops0.buckets_total as int,
                            ocfg0.max_value as int,
                            cur,
                        );
                    }
                    let ghost data_pre = self.data.data@;
                    let ghost entries_pre = self.data.counters.entries_total;
                    let ghost ml_pre = self.data.counters.missed_large;
                    self.record(bucket.value, bucket.count);
                    proof {
                        let v = spec_index_value(
                            oprops0.buckets_inner as int,
                            oprops0.linear_power as int,
                            oprops0.linear_max as int,
                            cur,
                        );
                        assert(v == bucket.value);
                        assert(spec_merge_data(props0, mv0, oprops0, data_pre, src0, cur)
                            == spec_merge_data(
                            props0,
                            mv0,
                            oprops0,
                            self.data.data@,
                            src0,
                            cur + 1,
                        ));
                        assert(spec_merge_entries(entries_pre, src0, cur) == spec_merge_entries(
                            self.data.counters.entries_total,
                            src0,
                            cur + 1,
                        ));
                        assert(spec_merge_missed_large(ml_pre, mv0, oprops0, src0, cur)
                            == spec_merge_missed_large(
                            self.data.counters.missed_large,
                            mv0,
                            oprops0,
                            src0,
                            cur + 1,
                        ));
                    }
                },
                None => {
                    break ;
                },
            }
        }
    }
}

} // verus!
