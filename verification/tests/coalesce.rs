use xrebalance::coalesce::{should_emit, Coalescer, InformObs};

#[test]
fn first_observation_emits() {
    assert!(should_emit(None, 5, 1000, true));
    assert!(should_emit(None, 5, 1000, false));
}

#[test]
fn bucket_change_emits() {
    let prior = InformObs {
        bucket: 5,
        tightest_msat: 1000,
    };
    assert!(should_emit(Some(&prior), 6, 1000, true));
    // A clock stepping backwards still lands on != bucket.
    assert!(should_emit(Some(&prior), 4, 1000, false));
}

#[test]
fn same_bucket_lower_bound_tightens_upward() {
    let prior = InformObs {
        bucket: 5,
        tightest_msat: 1000,
    };
    assert!(should_emit(Some(&prior), 5, 1001, true));
    assert!(!should_emit(Some(&prior), 5, 1000, true));
    assert!(!should_emit(Some(&prior), 5, 999, true));
}

#[test]
fn same_bucket_upper_bound_tightens_downward() {
    let prior = InformObs {
        bucket: 5,
        tightest_msat: 1000,
    };
    assert!(should_emit(Some(&prior), 5, 999, false));
    assert!(!should_emit(Some(&prior), 5, 1000, false));
    assert!(!should_emit(Some(&prior), 5, 1001, false));
}

#[test]
fn unrecorded_check_does_not_suppress() {
    let mut co = Coalescer::new(6 * 60 * 60);
    assert!(co.check("k", 100, 1000, true).is_some());
    // The write was rejected (no record): the retry still emits.
    let bucket = co.check("k", 100, 1000, true).unwrap();
    co.record("k", bucket, 1000);
    assert!(co.check("k", 100, 1000, true).is_none());
    assert!(co.check("k", 100, 1001, true).is_some());
}

#[test]
fn keep_alive_re_emits_each_bucket() {
    let mut co = Coalescer::new(12); // 1s buckets
    let b = co.check("k", 10, 1000, true).unwrap();
    co.record("k", b, 1000);
    assert!(co.check("k", 10, 1000, true).is_none());
    assert!(co.check("k", 11, 1000, true).is_some());
}

#[test]
fn set_aging_changes_bucket_width() {
    let mut co = Coalescer::new(12); // 1s buckets
    let b = co.check("k", 100, 1000, true).unwrap();
    co.record("k", b, 1000);
    assert!(co.check("k", 100, 1000, true).is_none());
    // The same instant lands in a different bucket number under
    // the new width, so the next check re-emits.
    co.set_aging(1200); // 100s buckets
    assert!(co.check("k", 100, 1000, true).is_some());
}

#[test]
fn prune_drops_idle_entries() {
    let mut co = Coalescer::new(12); // 1s buckets
    let b = co.check("old", 0, 1000, true).unwrap();
    co.record("old", b, 1000);
    // Drive the amortised sweep (every 4096 emits) with fresh
    // keys well past the keep window.
    for i in 0..0x1000u64 {
        let key = format!("k{i}");
        if let Some(bk) = co.check(&key, 1000 + i, 1, true) {
            co.record(&key, bk, 1);
        }
    }
    assert!(!co.cache.contains_key("old"));
}

#[test]
fn a_changed_width_re_emits_even_where_bucket_numbers_coincide() {
    let mut co = Coalescer::new(12); // 1s buckets
    let b = co.check("k", 0, 1000, true).unwrap();
    co.record("k", b, 1000);
    co.set_aging(1200); // 100s buckets
    assert_eq!(co.len(), 1);
    assert_eq!(co.check("k", 0, 1000, true), Some(0));
    // Going back does not revive the entry.
    co.set_aging(12);
    assert_eq!(co.check("k", 0, 1000, true), Some(0));
    co.record("k", 0, 1000);
    assert!(co.check("k", 0, 1000, true).is_none());
    // The same width again changes nothing.
    co.set_aging(13);
    assert!(co.check("k", 0, 1000, true).is_none());
}
