use xrebalance::chan_spec::ChanSpec;
use xrebalance::request::{default_label, FeeBudget, RequestError, XRebalanceParams};

fn spec(scid: &str) -> ChanSpec {
    ChanSpec {
        scid: scid.to_owned(),
        max_msat: None,
    }
}

fn params() -> XRebalanceParams {
    XRebalanceParams {
        sources: vec![spec("1x1x1")],
        destinations: vec![spec("2x2x2")],
        amount_msat: 1_000_000,
        maxfee_ppm: Some(300),
        maxfee_msat: None,
        label: None,
        dryrun: None,
        maxparts: None,
        maxrounds: None,
        part_wait: None,
        verbose: None,
    }
}

#[test]
fn a_plain_request_passes() {
    assert_eq!(params().validate(), Ok(FeeBudget::Ppm(300)));
    let mut p = params();
    p.maxfee_ppm = None;
    p.maxfee_msat = Some(7);
    assert_eq!(p.validate(), Ok(FeeBudget::Msat(7)));
    assert_eq!(p.fee_budget(), Some(FeeBudget::Msat(7)));
}

#[test]
fn each_rule_has_its_refusal() {
    let refused = |edit: fn(&mut XRebalanceParams)| {
        let mut p = params();
        edit(&mut p);
        p.validate().unwrap_err()
    };
    let e = refused(|p| p.maxfee_msat = Some(1));
    assert_eq!(e, RequestError::BudgetForm);
    assert_eq!(
        e.message(),
        "exactly one of maxfee_ppm or maxfee_msat is required"
    );
    assert_eq!(refused(|p| p.maxfee_ppm = None), RequestError::BudgetForm);
    let e = refused(|p| p.sources.clear());
    assert_eq!(e, RequestError::NoChannels);
    assert_eq!(
        e.message(),
        "sources and destinations must each name at least one channel"
    );
    assert_eq!(refused(|p| p.destinations.clear()), RequestError::NoChannels);
    let e = refused(|p| p.sources.push(spec("1x1x1")));
    assert_eq!(e, RequestError::DuplicateSource("1x1x1".into()));
    assert_eq!(e.message(), "duplicate source 1x1x1");
    let e = refused(|p| p.destinations.push(spec("2x2x2")));
    assert_eq!(e, RequestError::DuplicateDestination("2x2x2".into()));
    assert_eq!(e.message(), "duplicate destination 2x2x2");
    let e = refused(|p| p.maxparts = Some(0));
    assert_eq!(e, RequestError::ZeroMaxparts);
    assert_eq!(e.message(), "maxparts must be at least 1");
    let e = refused(|p| p.maxrounds = Some(0));
    assert_eq!(e, RequestError::ZeroMaxrounds);
    assert_eq!(e.message(), "maxrounds must be at least 1");
    let e = refused(|p| p.amount_msat = 0);
    assert_eq!(e, RequestError::ZeroAmount);
    assert_eq!(e.message(), "amount_msat must be positive");
    // The rules are tried in order.
    let e = refused(|p| {
        p.maxparts = Some(0);
        p.amount_msat = 0;
        p.sources.clear();
    });
    assert_eq!(e, RequestError::NoChannels);
}

#[test]
fn a_channel_may_be_source_and_destination() {
    let mut p = params();
    p.destinations.push(spec("1x1x1"));
    assert!(p.validate().is_ok());
}

#[test]
fn labels_default_to_eight_hex_digits() {
    assert_eq!(default_label(0), "00000000");
    assert_eq!(default_label(0xdead_beef), "deadbeef");
    assert_eq!(default_label(0xab), "000000ab");
    let mut p = params();
    p.fill_label();
    let drawn = p.label.clone().unwrap();
    assert_eq!(drawn.len(), 8);
    assert!(drawn.chars().all(|c| c.is_ascii_hexdigit()));
    p.fill_label();
    assert_eq!(p.label, Some(drawn));
    p.label = Some("mine".into());
    p.fill_label();
    assert_eq!(p.label.as_deref(), Some("mine"));
}

#[test]
fn drawn_labels_differ() {
    let draw = || {
        let mut p = params();
        p.fill_label();
        p.label.unwrap()
    };
    let first = draw();
    assert!((0..8).any(|_| draw() != first));
}

#[test]
fn budgets_are_shown_in_both_forms() {
    assert_eq!(params().budget_forms(), Some((300, 300)));
    let mut p = params();
    p.maxfee_ppm = None;
    assert_eq!(p.budget_forms(), None);
    p.maxfee_msat = Some(2_500);
    assert_eq!(p.budget_forms(), Some((2_500, 2_500)));
    p.amount_msat = 3;
    assert_eq!(p.budget_forms(), Some((2_500, 833_333_333)));
    p.amount_msat = 1;
    p.maxfee_msat = Some(u64::MAX);
    assert_eq!(p.budget_forms(), Some((u64::MAX, u64::MAX)));
    p.amount_msat = u64::MAX;
    p.maxfee_msat = None;
    p.maxfee_ppm = Some(u64::MAX);
    assert_eq!(p.budget_forms(), Some((u64::MAX, 1_000_000)));
}

#[test]
fn options_fill_what_the_request_leaves_out() {
    let mut p = params();
    assert_eq!(p.rounds_max(50), 50);
    assert_eq!(p.rounds_max(0), 1);
    assert_eq!(p.wait_secs(30), 30);
    assert!(!p.is_dryrun() && !p.is_verbose());
    p.maxrounds = Some(3);
    p.part_wait = Some(0);
    p.dryrun = Some(true);
    p.verbose = Some(true);
    assert_eq!(p.rounds_max(50), 3);
    assert_eq!(p.wait_secs(30), 0);
    assert!(p.is_dryrun() && p.is_verbose());
    p.dryrun = Some(false);
    assert!(!p.is_dryrun());
}

#[test]
fn budgets_allow_by_form() {
    assert_eq!(FeeBudget::Msat(7).allow(u64::MAX), Some(7));
    assert_eq!(FeeBudget::Ppm(300).allow(1_000_000_000), Some(300_000));
    assert_eq!(FeeBudget::Ppm(300).allow(3_333), Some(0));
    assert_eq!(FeeBudget::Ppm(1_000_000).allow(u64::MAX), Some(u64::MAX));
    assert_eq!(FeeBudget::Ppm(1_000_001).allow(u64::MAX), None);
    assert!(FeeBudget::Ppm(999).allow(10_000) <= FeeBudget::Ppm(999).allow(20_000));
}
