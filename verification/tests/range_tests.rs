use plasma_chamber::error::ErrorKind;
use plasma_chamber::range_manager;
use plasma_chamber::range_manager::RangeManager;
use plasma_chamber::range_processor::RangeProcessor;
use plasma_chamber::range::Range;
use plasma_chamber::range_store::RangeDbMemoryImpl;

#[test]
fn range_manager_test_fail_to_put() {
    let value1 = &b"Alice is owner in block 1"[..];
    let value2 = &b"Alice is owner in block 2"[..];
    let range1 = range_manager::Range::new(0, 100, value1);
    let range2 = range_manager::Range::new(100, 200, value2);
    let partial_ranges = &[range1, range2];
    let affected_ranges = RangeManager::put(partial_ranges, 250, 50, value2);
    assert_eq!(affected_ranges.len(), 0);
}

#[test]
fn range_manager_test_put() {
    let value1 = &b"Alice is owner in block 1"[..];
    let value2 = &b"Alice is owner in block 2"[..];
    let value3 = &b"Alice is owner is block 3"[..];
    let value4 = &b"Bob is owner is block 4"[..];
    let range1 = range_manager::Range::new(0, 100, value1);
    let range2 = range_manager::Range::new(100, 200, value2);
    let range3 = range_manager::Range::new(200, 300, value3);
    let partial_ranges = &[range1, range2, range3];
    let affected_ranges = RangeManager::put(partial_ranges, 50, 250, value4);
    assert_eq!(affected_ranges.len(), 3);
}

#[test]
fn range_processor_test_fail_to_put() {
    let value1 = &b"Alice is owner in block 1"[..];
    let value2 = &b"Alice is owner in block 2"[..];
    let range1 = Range::new(0, 100, value1);
    let range2 = Range::new(100, 200, value2);
    let partial_ranges = &[range1, range2];
    let affected_ranges = RangeProcessor::put(partial_ranges, 250, 50, value2);
    assert_eq!(affected_ranges.len(), 0);
}

#[test]
fn range_processor_test_put() {
    let value1 = &b"Alice is owner in block 1"[..];
    let value2 = &b"Alice is owner in block 2"[..];
    let value3 = &b"Alice is owner is block 3"[..];
    let value4 = &b"Bob is owner is block 4"[..];
    let range1 = Range::new(0, 100, value1);
    let range2 = Range::new(100, 200, value2);
    let range3 = Range::new(200, 300, value3);
    let partial_ranges = &[range1, range2, range3];
    let affected_ranges = RangeProcessor::put(partial_ranges, 50, 250, value4);
    assert_eq!(affected_ranges.len(), 3);
}

#[test]
fn memory_test_get_same_range() {
    let mut db = RangeDbMemoryImpl::open("test");
    assert_eq!(db.put(0, 100, b"Alice is owner").is_ok(), true);
    assert_eq!(db.put(100, 200, b"Bob is owner").is_ok(), true);
    let result1 = db.get(100, 200).unwrap();
    assert_eq!(result1.is_empty(), false);
    assert_eq!(result1[0].get_start(), 100);
    assert_eq!(result1[0].get_value(), b"Bob is owner");
}

#[test]
fn memory_test_get_small_range() {
    let mut db = RangeDbMemoryImpl::open("test");
    assert_eq!(db.put(0, 100, b"Alice is owner").is_ok(), true);
    assert_eq!(db.put(100, 120, b"Bob is owner").is_ok(), true);
    assert_eq!(db.put(120, 180, b"Carol is owner").is_ok(), true);
    let result1 = db.get(20, 50).unwrap();
    assert_eq!(result1.is_empty(), false);
    assert_eq!(result1[0].get_start(), 0);
    assert_eq!(result1[0].get_value(), b"Alice is owner");
    assert_eq!(result1.len(), 1);
}

#[test]
fn memory_test_get_large_range() {
    let mut db = RangeDbMemoryImpl::open("test");
    assert_eq!(db.put(0, 100, b"Alice is owner").is_ok(), true);
    assert_eq!(db.put(100, 120, b"Bob is owner").is_ok(), true);
    assert_eq!(db.put(120, 180, b"Carol is owner").is_ok(), true);
    let result1 = db.get(20, 150).unwrap();
    assert_eq!(result1.is_empty(), false);
    assert_eq!(result1[0].get_start(), 0);
    assert_eq!(result1[0].get_value(), b"Alice is owner");
    assert_eq!(result1.len(), 3);
}

// The coalescing put punches the window out of the overlapped ranges and
// keeps the parts outside it.
#[test]
fn store_put_coalesces_overlaps() {
    let mut db = RangeDbMemoryImpl::open("test");
    assert!(db.put(0, 100, b"A").is_ok());
    assert!(db.put(100, 200, b"B").is_ok());
    assert!(db.put(200, 300, b"C").is_ok());
    assert!(db.put(50, 250, b"D").is_ok());
    let all = db.get(0, 300).unwrap();
    assert_eq!(all.len(), 3);
    assert_eq!(all[0].get_start(), 0);
    assert_eq!(all[0].get_end(), 50);
    assert_eq!(all[0].get_value(), b"A");
    assert_eq!(all[1].get_start(), 50);
    assert_eq!(all[1].get_end(), 250);
    assert_eq!(all[1].get_value(), b"D");
    assert_eq!(all[2].get_start(), 250);
    assert_eq!(all[2].get_end(), 300);
    assert_eq!(all[2].get_value(), b"C");
}

// The scan returns every intersecting range in ascending end order.
#[test]
fn store_get_returns_intersections_in_order() {
    let mut db = RangeDbMemoryImpl::open("test");
    assert!(db.put(0, 100, b"A").is_ok());
    assert!(db.put(100, 120, b"B").is_ok());
    assert!(db.put(120, 180, b"C").is_ok());
    let hit = db.get(20, 150).unwrap();
    assert_eq!(hit.len(), 3);
    assert_eq!(hit[0].get_value(), b"A");
    assert_eq!(hit[1].get_value(), b"B");
    assert_eq!(hit[2].get_value(), b"C");
    let only_first = db.get(20, 50).unwrap();
    assert_eq!(only_first.len(), 1);
    assert_eq!(only_first[0].get_value(), b"A");
}

#[test]
fn store_put_rejects_empty_window() {
    let mut db = RangeDbMemoryImpl::open("test");
    let r = db.put(250, 50, b"X");
    assert!(r.is_err());
    assert_eq!(r.unwrap_err().kind(), ErrorKind::InvalidRange);
    assert!(db.get(0, 300).unwrap().is_empty());
}

#[test]
fn store_del_removes_and_returns() {
    let mut db = RangeDbMemoryImpl::open("test");
    assert!(db.put(0, 100, b"A").is_ok());
    assert!(db.put(100, 200, b"B").is_ok());
    let removed = db.del(50, 150).unwrap();
    assert_eq!(removed.len(), 2);
    assert_eq!(removed[0].get_value(), b"A");
    assert_eq!(removed[1].get_value(), b"B");
    assert!(db.get(0, 200).unwrap().is_empty());
}

#[test]
fn range_intersect_is_strict() {
    let r = Range::new(10, 20, b"v");
    assert!(r.validate());
    assert!(r.intersect(15, 30));
    assert!(!r.intersect(20, 30));
    assert!(!r.intersect(0, 10));
    assert!(!Range::new(10, 10, b"v").validate());
}

// Whatever sequence of puts is applied, the store never holds two
// overlapping ranges, and the covered keyspace is the union of the put
// windows.
#[test]
fn store_stays_disjoint_after_many_puts() {
    let mut db = RangeDbMemoryImpl::open("test");
    let windows: [(u64, u64); 6] = [(0, 100), (50, 150), (10, 20), (140, 260), (0, 5), (255, 256)];
    for (i, (s, e)) in windows.iter().enumerate() {
        assert!(db.put(*s, *e, &[i as u8]).is_ok());
    }
    let all = db.get(0, u64::MAX).unwrap();
    for w in all.windows(2) {
        assert!(w[0].get_end() <= w[1].get_start());
    }
    for k in 0..300u64 {
        let covered = !db.get(k, k + 1).unwrap().is_empty();
        let expected = windows.iter().any(|(s, e)| *s <= k && k < *e);
        assert_eq!(covered, expected, "key {}", k);
    }
}
