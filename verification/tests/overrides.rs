use xrebalance::onion_error::ChanUpdate;
use xrebalance::overrides::Overrides;

fn cu(prop: u32) -> ChanUpdate {
    ChanUpdate {
        enabled: true,
        cltv_expiry_delta: 144,
        htlc_minimum_msat: 1000,
        fee_base_msat: 0,
        fee_proportional_millionths: prop,
        htlc_maximum_msat: 1_000_000,
        inbound_fee: None,
    }
}

#[test]
fn snapshot_returns_young_prunes_expired() {
    let mut o = Overrides::new(100);
    o.record_policy("1x1x1/0", cu(10), 1000);
    o.record_policy("2x2x2/1", cu(20), 1090);
    o.record_disabled_node("02aa", 1000);
    o.record_disabled_node("02bb", 1150);
    o.record_exclusion("3x3x3/0", 1000);
    o.record_exclusion("4x4x4/1", 1100);
    let snap = o.snapshot(1150);
    assert_eq!(
        snap.policies
            .iter()
            .map(|(s, _)| s.as_str())
            .collect::<Vec<_>>(),
        vec!["2x2x2/1"]
    );
    assert_eq!(snap.disabled_nodes, vec!["02bb"]);
    assert_eq!(snap.exclusions, vec!["4x4x4/1"]);
    // The prune is durable, not merely a filtered view.
    assert_eq!(o.counts(), (1, 1, 1));
}

#[test]
fn set_max_age_applies_to_next_snapshot() {
    let mut o = Overrides::new(1000);
    o.record_policy("1x1x1/0", cu(10), 100);
    o.record_exclusion("2x2x2/1", 100);
    let snap = o.snapshot(600);
    assert!(snap.policies.len() == 1 && snap.exclusions.len() == 1);
    o.set_max_age(100);
    let snap = o.snapshot(600);
    assert!(snap.policies.is_empty() && snap.exclusions.is_empty());
}

#[test]
fn is_repeat_matches_young_identical_policy() {
    let mut o = Overrides::new(100);
    o.record_policy("1x1x1/0", cu(10), 1000);
    assert!(o.is_repeat("1x1x1/0", &cu(10), 1050));
    // Different policy: a genuine refresh, not a repeat.
    assert!(!o.is_repeat("1x1x1/0", &cu(11), 1050));
    // Nothing stored for this direction.
    assert!(!o.is_repeat("9x9x9/0", &cu(10), 1050));
    // Stored entry expired: it was not applied to the failing
    // attempt, so an identical return is not evidence of
    // divergence.
    assert!(!o.is_repeat("1x1x1/0", &cu(10), 1101));
}

#[test]
fn is_repeat_ignores_inbound_fee_difference() {
    let mut o = Overrides::new(100);
    o.record_policy("1x1x1/0", cu(10), 1000);
    let mut with_inbound = cu(10);
    with_inbound.inbound_fee = Some((5000, 0));
    assert!(o.is_repeat("1x1x1/0", &with_inbound, 1050));
}

#[test]
fn an_entry_lives_exactly_its_age() {
    let mut o = Overrides::new(100);
    o.record_exclusion("1x1x1/0", 1000);
    assert_eq!(o.snapshot(1100).exclusions, vec!["1x1x1/0"]);
    assert!(o.snapshot(1101).exclusions.is_empty());
    // An entry from the future has not expired.
    o.record_disabled_node("02aa", 5000);
    assert_eq!(o.snapshot(1101).disabled_nodes, vec!["02aa"]);
    assert_eq!(o.max_age(), 100);
}

#[test]
fn recording_again_refreshes() {
    let mut o = Overrides::new(100);
    o.record_policy("1x1x1/0", cu(10), 1000);
    o.record_policy("1x1x1/0", cu(11), 1090);
    let snap = o.snapshot(1150);
    assert_eq!(snap.policies.len(), 1);
    assert_eq!(snap.policies[0].1.fee_proportional_millionths, 11);
}

#[test]
fn snapshots_change_no_later_answer() {
    let mut pruned = Overrides::new(100);
    let mut left = Overrides::new(100);
    for o in [&mut pruned, &mut left] {
        o.record_policy("1x1x1/0", cu(10), 1000);
        o.record_policy("2x2x2/0", cu(20), 1080);
    }
    pruned.snapshot(1120);
    assert_eq!(pruned.counts(), (1, 0, 0));
    assert_eq!(left.counts(), (2, 0, 0));
    for at in [1120, 1180, 1181] {
        for (scidd, prop) in [("1x1x1/0", 10), ("2x2x2/0", 20)] {
            assert_eq!(
                pruned.is_repeat(scidd, &cu(prop), at),
                left.is_repeat(scidd, &cu(prop), at)
            );
        }
    }
    assert_eq!(
        pruned.snapshot(1180).policies.len(),
        left.snapshot(1180).policies.len()
    );
}
