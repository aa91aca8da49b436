use serde_json::Value;
use xrebalance::chan_spec::ChanSpec;
use xrebalance::exec::{prepare, Part, WaitReply};
use xrebalance::json::Json;
use xrebalance::plan::{PlanResult, Pruned};
use xrebalance::request::{FeeBudget, XRebalanceParams};
use xrebalance::rounds::StopReason;
use xrebalance::run::RequestRun;
use xrebalance::table::Table;

fn to_json(v: &Value) -> Json {
    match v {
        Value::Null => Json::Null,
        Value::Bool(b) => Json::Bool(*b),
        Value::Number(n) => match (n.as_u64(), n.as_i64()) {
            (Some(u), _) => Json::Uint(u),
            (None, Some(i)) => Json::Int(i),
            _ => Json::Real(n.to_string()),
        },
        Value::String(s) => Json::Str(s.clone()),
        Value::Array(a) => Json::Array(a.iter().map(to_json).collect()),
        Value::Object(m) => {
            Json::Object(m.iter().map(|(k, v)| (k.clone(), to_json(v))).collect())
        }
    }
}

fn json(text: &str) -> Json {
    to_json(&serde_json::from_str::<Value>(text).unwrap())
}

fn route(sent: u64, delivered: u64) -> Json {
    json(&format!(
        r#"{{"path": [
            {{"short_channel_id_dir": "1x1x1/0", "amount_in_msat": {sent},
              "amount_out_msat": {sent}}},
            {{"short_channel_id_dir": "3x3x3/1", "amount_in_msat": {sent},
              "amount_out_msat": {delivered}}}]}}"#
    ))
}

fn part(sent: u64, delivered: u64) -> Part {
    prepare(&route(sent, delivered), &Table::new(), 0, "aa".to_owned())
        .unwrap()
        .part
}

fn paid(sent: u64, delivered: u64) -> Part {
    let mut p = part(sent, delivered);
    p.after_wait(&WaitReply::Paid);
    p
}

fn params(maxfee_msat: Option<u64>, maxrounds: Option<u32>) -> XRebalanceParams {
    XRebalanceParams {
        sources: vec![ChanSpec {
            scid: "1x1x1".to_owned(),
            max_msat: Some(900),
        }],
        destinations: vec![ChanSpec {
            scid: "3x3x3".to_owned(),
            max_msat: None,
        }],
        amount_msat: 1_000,
        maxfee_ppm: match maxfee_msat {
            None => Some(50_000),
            Some(_) => None,
        },
        maxfee_msat,
        label: None,
        dryrun: None,
        maxparts: None,
        maxrounds,
        part_wait: None,
        verbose: Some(true),
    }
}

fn plan(routes: Vec<Json>) -> PlanResult {
    PlanResult {
        effective_amount_msat: 1_000,
        maxfee_msat: 50,
        delivered_msat: 0,
        fee_msat: 0,
        routes,
        onion_scids: Table::new(),
        detail: None,
        pruned: Pruned {
            long: 0,
            rates: Vec::new(),
            rate_msat: 0,
        },
    }
}

#[test]
fn rounds_draw_down_amount_pot_and_caps() {
    let p = params(Some(50), None);
    let mut run = RequestRun::new(&p, FeeBudget::Msat(50), 10);
    let (first, budget) = run.begin(&p, 1).unwrap();
    assert_eq!((first.amount_msat, budget), (1_000, FeeBudget::Msat(50)));
    assert_eq!(first.sources[0].max_msat, Some(900));
    // 300 settles at 10, and 200 stays in flight with 5 reserved.
    let end = run.finish(
        &first,
        &plan(vec![route(310, 300)]),
        vec![paid(310, 300), part(205, 200)],
        false,
    );
    assert_eq!(end, Some(None));
    let (second, budget) = run.begin(&p, 1).unwrap();
    assert_eq!((second.amount_msat, budget), (500, FeeBudget::Msat(35)));
    assert_eq!(second.maxfee_msat, Some(35));
    assert_eq!(second.sources[0].max_msat, Some(900 - 310 - 205));
    assert_eq!(second.destinations[0].max_msat, None);
}

#[test]
fn a_rate_stays_a_rate() {
    let p = params(None, None);
    let mut run = RequestRun::new(&p, FeeBudget::Ppm(50_000), 10);
    let (first, budget) = run.begin(&p, 1).unwrap();
    assert_eq!(budget, FeeBudget::Ppm(50_000));
    let end = run.finish(&first, &plan(vec![route(310, 300)]), vec![paid(310, 300)], false);
    assert_eq!(end, Some(None));
    assert_eq!(run.begin(&p, 1).unwrap().1, FeeBudget::Ppm(50_000));
}

#[test]
fn a_request_of_one_round_gets_the_rounds_response() {
    let p = params(Some(50), Some(1));
    let mut run = RequestRun::new(&p, FeeBudget::Msat(50), 10);
    let (first, _) = run.begin(&p, 1).unwrap();
    let end = run.finish(&first, &plan(vec![route(310, 300)]), vec![paid(310, 300)], false);
    assert_eq!(end, Some(Some(StopReason::RoundLimit)));
    let v = run.respond(&p, &StopReason::RoundLimit).unwrap();
    assert_eq!(v.uint_at("delivered_msat"), Some(300));
    assert!(v.items_at("parts").is_some());
    assert!(v.get("summary").is_none());
}

#[test]
fn a_request_of_no_round_gets_none() {
    let p = params(Some(50), Some(1));
    let run = RequestRun::new(&p, FeeBudget::Msat(50), 10);
    assert!(run.respond(&p, &StopReason::RoundLimit).is_none());
}

#[test]
fn a_request_of_several_rounds_is_summed_up() {
    let p = params(Some(50), None);
    let mut run = RequestRun::new(&p, FeeBudget::Msat(50), 10);
    let (first, _) = run.begin(&p, 1).unwrap();
    run.finish(&first, &plan(vec![route(310, 300)]), vec![paid(310, 300)], true);
    let (second, _) = run.begin(&p, 1).unwrap();
    let end = run.finish(&second, &plan(Vec::new()), Vec::new(), false);
    let stop = end.unwrap().unwrap();
    assert_eq!(stop, StopReason::NoRoutes(None));
    let v = run.respond(&p, &stop).unwrap();
    assert_eq!(v.uint_at("rounds_run"), Some(2));
    assert_eq!(v.uint_at("delivered_msat"), Some(300));
    assert_eq!(v.uint_at("fee_msat"), Some(10));
    assert_eq!(
        v.text_at("stop_reason"),
        Some("no further routes: planner returned none")
    );
    assert_eq!(v.items_at("rounds").unwrap().len(), 2);
}

#[test]
fn a_round_without_movement_or_lesson_stalls() {
    let p = params(Some(50), None);
    let mut run = RequestRun::new(&p, FeeBudget::Msat(50), 10);
    let (first, _) = run.begin(&p, 1).unwrap();
    let mut failed = part(310, 300);
    failed.not_sent("no");
    let end = run.finish(&first, &plan(vec![route(310, 300)]), vec![failed], false);
    assert_eq!(end, Some(Some(StopReason::Stalled)));
}

#[test]
fn totals_past_the_range_are_refused() {
    let p = params(Some(50), None);
    let mut run = RequestRun::new(&p, FeeBudget::Msat(50), 10);
    let (first, _) = run.begin(&p, 1).unwrap();
    let huge = u64::MAX;
    assert!(run
        .finish(&first, &plan(vec![route(huge, huge)]), vec![paid(huge, huge)], true)
        .is_some());
    assert!(run
        .finish(&first, &plan(vec![route(1, 1)]), vec![paid(1, 1)], true)
        .is_none());
    assert_eq!(run.ledger.delivered_msat, huge);
}

#[test]
fn whatever_settles_is_paid_for_within_the_rate() {
    // 50_000 ppm: 15 on 300, 10 on 200.
    let p = params(None, None);
    let mut run = RequestRun::new(&p, FeeBudget::Ppm(50_000), 10);
    let (first, _) = run.begin(&p, 1).unwrap();
    let mut cheap = part(301, 300);
    cheap.not_sent("no");
    run.finish(
        &first,
        &plan(vec![route(301, 300)]),
        vec![cheap, paid(210, 200)],
        true,
    );
    assert_eq!((run.ledger.fee_msat, run.ledger.delivered_msat), (10, 200));
    assert!(run.ledger.fee_msat * 1_000_000 <= 50_000 * run.ledger.delivered_msat);
}
