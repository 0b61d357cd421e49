use histogram::{Histogram, HistogramConfig, HistogramError};
use histogram::query::PERCENT_SCALE;

fn new_histogram(precision: u32, max_value: u64) -> Histogram {
    Histogram::new(HistogramConfig { max_memory: 0, max_value, precision }).unwrap()
}

#[test]
fn test_linear_region_roundtrip_exact() {
    // precision 1 gives linear_max 15: every value up to 15 maps to slot
    // value - 1 and back, exactly.
    let mut h = new_histogram(1, 100);
    for v in 1u64..=15 {
        let slot = h.get_index(v).unwrap();
        assert_eq!(slot as u64, v - 1);
        assert_eq!(h.index_value(slot), v);
    }
}

#[test]
fn test_log_region_relative_error() {
    // Above the linear region the representative never exceeds the value
    // and is within one part in buckets_inner (here 10) of it, inside the
    // same power-of-two band.
    let mut h = new_histogram(1, 1000);
    for v in 16u64..=1000 {
        let slot = h.get_index(v).unwrap();
        let rep = h.index_value(slot);
        assert!(rep <= v, "value {} slot {} representative {}", v, slot, rep);
        assert!((v - rep) * 10 < v, "value {} representative {}", v, rep);
        let band_base = 1u64 << (63 - v.leading_zeros());
        assert!(band_base <= rep && rep < 2 * band_base);
    }
}

#[test]
fn test_entries_sums_all_counts() {
    // entries() is the saturating sum of every count handed to
    // increment and record, in-range or not.
    let mut h = new_histogram(2, 1000);
    h.increment(5);
    h.increment(0); // too small: still counted
    h.increment(2000); // too large: still counted
    h.record(7, 40);
    h.record(5000, 2); // too large: still counted
    assert_eq!(h.entries(), 45);
}

#[test]
fn test_entries_saturate_at_max() {
    let mut h = new_histogram(1, 10);
    h.record(1, u64::MAX);
    assert_eq!(h.entries(), u64::MAX);
    h.increment(1);
    assert_eq!(h.entries(), u64::MAX);
    // the slot counter saturates too
    assert_eq!(h.get(1), Some(u64::MAX));
}

#[test]
fn test_percentile_doc_values() {
    // Inserting 1..=999 with a pure-linear geometry: the median is 501 and
    // the upper percentiles hit the exact values.
    let mut h = new_histogram(3, 1000000);
    for value in 1u64..1000 {
        h.increment(value);
    }
    assert_eq!(h.percentile(50_000), Some(501));
    assert_eq!(h.percentile(90_000), Some(901));
    assert_eq!(h.percentile(99_000), Some(991));
    assert_eq!(h.percentile(99_900), Some(999));
}

#[test]
fn test_percentile_extremes() {
    // The full-scale percentile reports the maximum inserted value, the
    // zero percentile (approximately) the minimum.
    let mut h = new_histogram(3, 10000);
    for value in 3u64..=500 {
        h.increment(value);
    }
    assert_eq!(h.percentile(PERCENT_SCALE), Some(500));
    assert_eq!(h.percentile(0), Some(1));
}

#[test]
fn test_percentile_none_cases() {
    let mut h = new_histogram(1, 100);
    // nothing recorded
    assert_eq!(h.percentile(50_000), None);
    h.increment(5);
    // percentile above the scale
    assert_eq!(h.percentile(PERCENT_SCALE + 1), None);
    assert_eq!(h.percentile(50_000), Some(5));
}

#[test]
fn test_percentile_exhausted_scan() {
    // Only out-of-range values recorded: entries_total is positive but no
    // slot holds a count, so the scan finds nothing.
    let mut h = new_histogram(1, 10);
    h.increment(0);
    h.increment(11);
    assert_eq!(h.percentile(99_000), None);
    assert_eq!(h.percentile(10_000), None);
}

#[test]
fn test_pure_linear_geometry() {
    // precision 3 with max_value 10: 1000 sub-buckets need a linear region
    // up to 1023, which already covers max_value, so there is no
    // logarithmic region at all.
    let h = new_histogram(3, 10);
    assert_eq!(h.properties.buckets_inner, 1000);
    assert_eq!(h.properties.buckets_outer, 0);
    assert_eq!(h.properties.buckets_total, 1023);
}

#[test]
fn test_memory_bound_rejected() {
    // precision 1, max_value 100: 45 slots of 8 bytes = 360 bytes.
    let r = Histogram::new(HistogramConfig { max_memory: 359, max_value: 100, precision: 1 });
    assert!(matches!(r, Err(HistogramError::MemoryExceeded)));

    let fits = Histogram::new(HistogramConfig { max_memory: 360, max_value: 100, precision: 1 })
        .unwrap();
    assert_eq!(fits.properties.memory_used, 360);

    let unlimited = Histogram::new(HistogramConfig { max_memory: 0, max_value: 100, precision: 1 })
        .unwrap();
    assert_eq!(unlimited.properties.memory_used, 360);
}

#[test]
fn test_merge_moves_counts() {
    let mut a = new_histogram(3, 1000000);
    let mut b = new_histogram(3, 1000000);

    assert_eq!(a.entries(), 0);
    assert_eq!(b.entries(), 0);

    a.increment(1);
    b.increment(2);

    assert_eq!(a.entries(), 1);
    assert_eq!(b.entries(), 1);

    a.merge(&mut b);

    assert_eq!(a.entries(), 2);
    assert_eq!(a.get(1), Some(1));
    assert_eq!(a.get(2), Some(1));

    // the source histogram is only read, and its cursor is left reset
    assert_eq!(b.entries(), 1);
    assert_eq!(b.get(2), Some(1));
    assert_eq!(b.data.iterator, 0);
}

#[test]
fn test_merge_identical_doubles_counts() {
    // Merging a histogram with an identical copy doubles every slot's
    // count without moving any count to a different slot.
    let mut a = new_histogram(1, 63);
    let mut b = new_histogram(1, 63);
    for v in [1u64, 5, 15, 16, 21, 40, 63] {
        a.increment(v);
        a.increment(v);
        b.increment(v);
        b.increment(v);
    }
    a.merge(&mut b);
    for v in [1u64, 5, 15, 16, 21, 40, 63] {
        let slot = b.get_index(v).unwrap();
        let rep = b.index_value(slot);
        assert_eq!(a.get(rep), Some(4), "value {} representative {}", v, rep);
    }
    assert_eq!(a.entries(), 28);
}

#[test]
fn test_merge_wider_range_overflows_to_missed_large() {
    // Merging from a histogram with a wider value range: counts whose
    // representative value exceeds the destination's max_value go to the
    // missed-large counter instead of a slot.
    let mut a = new_histogram(1, 100);
    let mut b = new_histogram(1, 1000);
    b.increment(500);
    let slot = b.get_index(500).unwrap();
    assert_eq!(b.index_value(slot), 487); // within 1/10 of 500, above a's range

    a.merge(&mut b);
    assert_eq!(a.entries(), 1);
    assert_eq!(a.data.counters.missed_large, 1);
    assert_eq!(a.percentile(50_000), None); // no slot holds the count
}

#[test]
fn test_missed_counters_classify() {
    let mut h = new_histogram(1, 10);
    h.increment(0);
    h.record(0, 4);
    h.increment(11);
    h.record(999, 6);
    h.increment(10);
    assert_eq!(h.data.counters.missed_small, 5);
    assert_eq!(h.data.counters.missed_large, 7);
    assert_eq!(h.data.counters.missed_unknown, 0);
    assert_eq!(h.entries(), 13);
    assert_eq!(h.get(10), Some(1));
}

#[test]
fn test_get_out_of_range() {
    let mut h = new_histogram(1, 10);
    assert_eq!(h.get(0), None);
    assert_eq!(h.get(11), None);
    assert_eq!(h.get(10), Some(0));
}

#[test]
fn test_next_bucket_restarts() {
    let mut h = new_histogram(1, 10);
    h.increment(7);
    let total = h.properties.buckets_total as u64;

    let mut seen = 0u64;
    let mut counted = 0u64;
    while let Some(bucket) = h.next_bucket() {
        assert_eq!(bucket.id, seen);
        counted += bucket.count;
        seen += 1;
    }
    assert_eq!(seen, total);
    assert_eq!(counted, 1);

    // the cursor reset: a second full pass yields the same sequence
    let mut second = 0u64;
    while let Some(bucket) = h.next_bucket() {
        assert_eq!(bucket.id, second);
        second += 1;
    }
    assert_eq!(second, total);
}
