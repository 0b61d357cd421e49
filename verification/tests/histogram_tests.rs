use histogram::{Histogram, HistogramConfig};

#[test]
fn test_new_0() {
    // this histogram has only a linear region which runs 1-15

    let h = Histogram::new(HistogramConfig { max_memory: 0, max_value: 10, precision: 1 })
        .unwrap();

    assert_eq!(h.properties.buckets_inner, 10); // 10 ^ precision
    assert_eq!(h.properties.buckets_outer, 0); // max <= 2 * buckets_inner
    assert_eq!(h.properties.buckets_total, 15); // only linear region
}

#[test]
fn test_new_1() {
    // this histogram has linear and log regions

    let h = Histogram::new(HistogramConfig { max_memory: 0, max_value: 31, precision: 1 })
        .unwrap();

    assert_eq!(h.properties.buckets_inner, 10);
    assert_eq!(h.properties.buckets_outer, 1);
    assert_eq!(h.properties.buckets_total, 25);
}

#[test]
fn test_new_2() {
    let h = Histogram::new(HistogramConfig { max_memory: 0, max_value: 32, precision: 1 })
        .unwrap();

    assert_eq!(h.properties.buckets_inner, 10);
    assert_eq!(h.properties.buckets_outer, 2);
    assert_eq!(h.properties.buckets_total, 35);
}

#[test]
fn test_new_3() {
    let h = Histogram::new(HistogramConfig { max_memory: 0, max_value: 10000, precision: 3 })
        .unwrap();

    assert_eq!(h.properties.buckets_inner, 1000);
    assert_eq!(h.properties.buckets_outer, 4);
    assert_eq!(h.properties.buckets_total, 5023);
}

#[test]
fn test_increment_0() {
    let mut h = Histogram::new(HistogramConfig { max_memory: 0, max_value: 10, precision: 3 })
        .unwrap();

    for op in 1u64..1000000 {
        h.increment(1);
        assert_eq!(h.entries(), op);
    }
}

#[test]
fn test_increment_1() {
    let mut h = Histogram::new(HistogramConfig { max_memory: 0, max_value: 10, precision: 3 })
        .unwrap();

    // increment values across the entire range
    // including 0 and > max_value
    for v in 0u64..11 {
        h.increment(v);
        assert_eq!(h.entries(), v + 1);
    }
}

#[test]
fn test_get() {
    let mut h = Histogram::new(HistogramConfig { max_memory: 0, max_value: 10, precision: 1 })
        .unwrap();

    h.increment(1);
    assert_eq!(h.get(1), Some(1));

    h.increment(1);
    assert_eq!(h.get(1), Some(2));

    h.increment(2);
    assert_eq!(h.get(2), Some(1));

    assert_eq!(h.get(3), Some(0));
}

#[test]
fn test_get_index_0() {
    let mut h = Histogram::new(HistogramConfig { max_memory: 0, max_value: 32, precision: 3 })
        .unwrap();

    // all values should index directly to (value - 1)
    // no estimated buckets are needed given the precision and max

    assert_eq!(h.get_index(1), Some(0));
    assert_eq!(h.index_value(0), 1);

    assert_eq!(h.get_index(2), Some(1));
    assert_eq!(h.index_value(1), 2);

    assert_eq!(h.get_index(3), Some(2));
    assert_eq!(h.index_value(2), 3);

    assert_eq!(h.get_index(4), Some(3));
    assert_eq!(h.index_value(3), 4);

    assert_eq!(h.get_index(5), Some(4));
    assert_eq!(h.index_value(4), 5);

    assert_eq!(h.get_index(16), Some(15));
    assert_eq!(h.index_value(15), 16);

    assert_eq!(h.get_index(32), Some(31));
    assert_eq!(h.index_value(31), 32);
}

#[test]
fn test_get_index_1() {
    let mut h = Histogram::new(HistogramConfig { max_memory: 0, max_value: 100, precision: 1 })
        .unwrap();

    assert_eq!(h.get_index(1), Some(0));
    assert_eq!(h.get_index(2), Some(1));
    assert_eq!(h.get_index(15), Some(14));

    // powers of two are 10 apart from value = 16 and up
    assert_eq!(h.get_index(16), Some(15));
    assert_eq!(h.get_index(32), Some(25));
    assert_eq!(h.get_index(64), Some(35));

    // this tests that rounding up within inner bucket works
    assert_eq!(h.get_index(16), Some(15));
    assert_eq!(h.get_index(17), Some(15));
    assert_eq!(h.get_index(18), Some(16));
    assert_eq!(h.get_index(19), Some(16));

    // these values prove roll-up into next outer bucket works
    assert_eq!(h.get_index(62), Some(34));
    assert_eq!(h.get_index(63), Some(34));
    assert_eq!(h.get_index(64), Some(35));

    assert_eq!(h.get_index(65), Some(35));
}

#[test]
fn test_get_index_2() {
    // extensive test from precomputed table
    let mut h = Histogram::new(HistogramConfig { max_memory: 0, max_value: 100, precision: 1 })
        .unwrap();

    let v: Vec<u64> = vec![
        1, 2, 3, 4, 5, 6, 7, 8, 9, 10, 11, 12, 13, 14, 15, 16, 18, 20, 21, 23, 24, 26, 28, 29,
        31, 32, 36, 39, 42, 45, 48, 52, 55, 58, 61, 64, 71, 77, 84, 90, 96, 103, 109, 116, 122,
    ];

    for index in 0usize..45 {
        let got = h.get_index(v[index]).unwrap();
        assert!(got == index, "Value: {} Got: {} Want: {}", v[index], got, index);
    }

    for index in 0usize..45 {
        let got = h.index_value(index);
        assert!(got == v[index], "Index: {} Got: {} Want: {}", index, got, v[index]);
    }
}

#[test]
fn test_get_index_3() {
    // extensive test from precomputed table
    let mut h = Histogram::new(HistogramConfig { max_memory: 0, max_value: 250, precision: 1 })
        .unwrap();

    let v: Vec<u64> = vec![
        1, 2, 3, 4, 5, 6, 7, 8, 9, 10, 11, 12, 13, 14, 15, 16, 18, 20, 21, 23, 24, 26, 28, 29,
        31, 32, 36, 39, 42, 45, 48, 52, 55, 58, 61, 64, 71, 77, 84, 90, 96, 103, 109, 116, 122,
        128, 141, 154, 167, 180, 192, 205, 218, 231, 244,
    ];

    for index in 0usize..55 {
        let got = h.get_index(v[index]).unwrap();
        assert!(got == index, "Value: {} Got: {} Want: {}", v[index], got, index);
    }

    for index in 0usize..55 {
        let got = h.index_value(index);
        assert!(got == v[index], "Index: {} Got: {} Want: {}", index, got, v[index]);
    }
}

#[test]
fn test_index_value_0() {
    let mut h = Histogram::new(HistogramConfig { max_memory: 0, max_value: 100, precision: 1 })
        .unwrap();

    assert_eq!(h.index_value(0), 1);
    assert_eq!(h.index_value(1), 2);
    assert_eq!(h.index_value(14), 15);

    assert_eq!(h.index_value(15), 16);
    assert_eq!(h.index_value(25), 32);
    assert_eq!(h.index_value(35), 64);
}

#[test]
fn test_iterator() {
    let mut h = Histogram::new(HistogramConfig { max_memory: 0, max_value: 100, precision: 1 })
        .unwrap();

    loop {
        match h.next_bucket() {
            Some(bucket) => {
                match h.get_index(bucket.value) {
                    Some(_) => {
                        h.increment(bucket.value);
                    },
                    None => {},
                }
            },
            None => {
                break;
            },
        }
    }
}
