use serde_json::Value;
use xrebalance::chan_spec::ChanSpec;
use xrebalance::exec::{prepare, Part, Totals, WaitReply};
use xrebalance::json::Json;
use xrebalance::request::XRebalanceParams;
use xrebalance::rounds::{Drawn, Ledger, RoundAsk, StopReason};
use xrebalance::table::Table;

fn to_json(v: &Value) -> Json {
    match v {
        Value::Null => Json::Null,
        Value::Bool(b) => Json::Bool(*b),
        Value::Number(n) => match (n.as_u64(), n.as_i64()) {
            (Some(u), _) => Json::Uint(u),
            (None, Some(i)) => Json::Int(i),
            _ => Json::Real(n.to_string()),
        },
        Value::String(s) => Json::Str(s.clone()),
        Value::Array(a) => Json::Array(a.iter().map(to_json).collect()),
        Value::Object(m) => {
            Json::Object(m.iter().map(|(k, v)| (k.clone(), to_json(v))).collect())
        }
    }
}

fn json(text: &str) -> Json {
    to_json(&serde_json::from_str::<Value>(text).unwrap())
}

fn totals(delivered: u64, fee: u64, pending: u64, pending_fee: u64) -> Totals {
    Totals {
        delivered_msat: delivered,
        fee_msat: fee,
        pending_msat: pending,
        pending_fee_msat: pending_fee,
    }
}

#[test]
fn rounds_ask_for_the_remainder() {
    let mut l = Ledger::new(1_000, Some(50), 10);
    assert_eq!(
        l.begin(1),
        Ok(RoundAsk {
            amount_msat: 1_000,
            maxfee_msat: Some(50)
        })
    );
    assert_eq!(l.finish(&totals(300, 10, 200, 5), false, None, true), None);
    // What is in flight counts as committed, its fee as reserved.
    assert_eq!(l.remaining_msat(), 500);
    assert_eq!(
        l.begin(1),
        Ok(RoundAsk {
            amount_msat: 500,
            maxfee_msat: Some(35)
        })
    );
    assert_eq!(l.finish(&totals(500, 35, 0, 0), false, None, true), None);
    assert_eq!(l.begin(1), Err(StopReason::FullyCommitted));
    assert_eq!((l.delivered_msat, l.fee_msat), (800, 45));
    assert_eq!((l.pending_msat, l.pending_fee_msat), (200, 5));
    assert_eq!(l.round, 2);
}

#[test]
fn a_remainder_below_the_floor_ends_the_rounds() {
    let mut l = Ledger::new(2_000_000, None, 10);
    l.begin(1_000_000).unwrap();
    l.finish(&totals(1_500_000, 0, 0, 0), false, None, true);
    let stop = l.begin(1_000_000).unwrap_err();
    assert_eq!(stop, StopReason::BelowFloor(500_000));
    assert_eq!(
        stop.message(),
        "remaining 500_000msat below the fragment floor"
    );
    // Without a floor any remainder is worth a round.
    assert!(l.begin(0).is_ok());
    // The first round runs whatever the floor.
    assert!(Ledger::new(5, None, 1).begin(1_000_000).is_ok());
}

#[test]
fn every_way_to_end_has_its_reason() {
    let mut l = Ledger::new(1_000, None, 2);
    l.begin(1).unwrap();
    assert_eq!(l.planning_failed("x"), None);
    assert_eq!(l.execution_failed("x"), None);
    assert_eq!(
        l.finish(&totals(0, 0, 0, 0), false, None, false),
        Some(StopReason::Stalled)
    );
    // Learning something, or having something in flight, is progress.
    assert_eq!(l.finish(&totals(0, 0, 0, 0), false, None, true), None);
    assert_eq!(l.finish(&totals(0, 0, 1, 0), false, None, false), None);
    let dry = l.finish(&totals(0, 0, 0, 0), true, Some("dry"), true);
    assert_eq!(dry.unwrap().message(), "no further routes: dry");
    let dry = l.finish(&totals(0, 0, 0, 0), true, None, true);
    assert_eq!(
        dry.unwrap().message(),
        "no further routes: planner returned none"
    );
    l.begin(1).unwrap();
    assert_eq!(
        l.planning_failed("boom").unwrap().message(),
        "round 2 planning failed: boom"
    );
    assert_eq!(
        l.execution_failed("boom").unwrap().message(),
        "round 2 execution failed: boom"
    );
    let last = l.finish(&totals(1, 0, 0, 0), false, None, true).unwrap();
    assert_eq!(last, StopReason::RoundLimit);
    assert_eq!(last.message(), "round limit");
    assert_eq!(l.begin(1), Err(StopReason::RoundLimit));
    assert_eq!(
        StopReason::Stalled.message(),
        "stalled: a round moved nothing and learned nothing"
    );
    assert_eq!(
        StopReason::FullyCommitted.message(),
        "amount fully committed"
    );
}

#[test]
fn totals_that_do_not_fit_are_noticed() {
    let mut l = Ledger::new(u64::MAX, None, 5);
    l.begin(1).unwrap();
    assert!(l.can_add(&totals(u64::MAX, 0, 0, 0)));
    l.finish(&totals(u64::MAX, 0, 0, 0), false, None, true);
    assert!(!l.can_add(&totals(1, 0, 0, 0)));
    assert!(l.can_add(&totals(0, 1, 1, 1)));
}

#[test]
fn overspending_leaves_nothing() {
    let mut l = Ledger::new(100, Some(5), 5);
    l.begin(1).unwrap();
    l.finish(&totals(99, 9, 0, 0), false, None, true);
    assert_eq!(
        l.begin(1),
        Ok(RoundAsk {
            amount_msat: 1,
            maxfee_msat: Some(0)
        })
    );
}

fn part(from: &str, to: &str, sent: u64, delivered: u64) -> Part {
    let route = json(&format!(
        r#"{{"path": [
            {{"short_channel_id_dir": "{from}", "amount_in_msat": {sent}, "amount_out_msat": {sent}}},
            {{"short_channel_id_dir": "{to}", "amount_out_msat": {delivered}}}]}}"#
    ));
    prepare(&route, &Table::new(), 0, String::new()).unwrap().part
}

fn spec(scid: &str, max_msat: Option<u64>) -> ChanSpec {
    ChanSpec {
        scid: scid.to_owned(),
        max_msat,
    }
}

fn params() -> XRebalanceParams {
    XRebalanceParams {
        sources: vec![spec("1x1x1", Some(1_000)), spec("2x2x2", None)],
        destinations: vec![spec("3x3x3", Some(900))],
        amount_msat: 5_000,
        maxfee_ppm: None,
        maxfee_msat: Some(70),
        label: Some("run7".into()),
        dryrun: None,
        maxparts: Some(4),
        maxrounds: None,
        part_wait: None,
        verbose: Some(true),
    }
}

#[test]
fn caps_are_drawn_down_across_rounds() {
    let ask = RoundAsk {
        amount_msat: 4_000,
        maxfee_msat: Some(60),
    };
    let mut drawn = Drawn::new();
    let first = drawn.round_params(&params(), &ask);
    assert_eq!(first.sources, params().sources);
    assert_eq!((first.amount_msat, first.maxfee_msat), (4_000, Some(60)));

    let mut paid = part("1x1x1/0", "3x3x3/1", 310, 300);
    paid.after_wait(&WaitReply::Paid);
    let mut lost = part("1x1x1/0", "3x3x3/1", 500, 490);
    lost.not_sent("x");
    let pending = part("1x1x1/0", "3x3x3/1", 206, 200);
    drawn.commit(&[paid, lost, pending]);
    let next = drawn.round_params(&params(), &ask);
    // The source gave what crossed it, fees and all; the destination
    // got what was delivered; the failed part counts for neither.
    assert_eq!(
        next.sources,
        vec![spec("1x1x1", Some(484)), spec("2x2x2", None)]
    );
    assert_eq!(next.destinations, vec![spec("3x3x3", Some(400))]);
    assert_eq!(next.label.as_deref(), Some("run7"));
    assert_eq!((next.maxparts, next.verbose), (Some(4), Some(true)));

    drawn.commit(&[part("1x1x1/0", "3x3x3/1", 600, 500)]);
    let last = drawn.round_params(&params(), &ask);
    assert_eq!(last.sources[0].max_msat, Some(0));
    assert_eq!(last.destinations[0].max_msat, Some(0));
}

#[test]
fn a_rate_is_kept_as_given() {
    let mut p = params();
    p.maxfee_msat = None;
    p.maxfee_ppm = Some(300);
    let ask = RoundAsk {
        amount_msat: 10,
        maxfee_msat: None,
    };
    let r = Drawn::new().round_params(&p, &ask);
    assert_eq!((r.maxfee_msat, r.maxfee_ppm), (None, Some(300)));
}
