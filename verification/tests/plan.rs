use serde_json::Value;
use xrebalance::chan_spec::ChanSpec;
use xrebalance::channels::{dir, scidd_of, usable_channels};
use xrebalance::json::Json;
use xrebalance::layer::{split_layer, FAKE_US_IN, PERSISTENT_LAYER};
use xrebalance::overrides::Overrides;
use xrebalance::plan::{
    check_channels, describe_infeasible, fee_ppm, infeasible, nothing_moves, part_within_length,
    part_within_rate, rate_summary, route_query, settle, size, size_request, Ladder, PlanError,
    Sizing,
};
use xrebalance::request::FeeBudget;
use xrebalance::table::Table;

fn to_json(v: &Value) -> Json {
    match v {
        Value::Null => Json::Null,
        Value::Bool(b) => Json::Bool(*b),
        Value::Number(n) => match (n.as_u64(), n.as_i64()) {
            (Some(u), _) => Json::Uint(u),
            (None, Some(i)) => Json::Int(i),
            _ => Json::Real(n.to_string()),
        },
        Value::String(s) => Json::Str(s.clone()),
        Value::Array(a) => Json::Array(a.iter().map(to_json).collect()),
        Value::Object(m) => {
            Json::Object(m.iter().map(|(k, v)| (k.clone(), to_json(v))).collect())
        }
    }
}

fn json(text: &str) -> Json {
    to_json(&serde_json::from_str::<Value>(text).unwrap())
}

fn spec(scid: &str, max_msat: Option<u64>) -> ChanSpec {
    ChanSpec {
        scid: scid.to_owned(),
        max_msat,
    }
}

// 230_502msat on 50_000_000msat = 4610.04ppm, truncated.
#[test]
fn fee_ppm_truncates() {
    assert_eq!(fee_ppm(230_502, 50_000_000), Some(4610));
}

#[test]
fn fee_ppm_none_until_delivery() {
    assert_eq!(fee_ppm(0, 0), None);
}

// Budget 100msat on 1_000_000msat = 100ppm; a part delivering
// 100_000msat may charge at most 10msat.
#[test]
fn at_the_rate_is_within() {
    assert!(part_within_rate(10, 100_000, 100, 1_000_000));
}

#[test]
fn over_the_rate_is_pruned() {
    assert!(!part_within_rate(11, 100_000, 100, 1_000_000));
}

#[test]
fn zero_fee_is_within() {
    assert!(part_within_rate(0, 100_000, 0, 1_000_000));
}

#[test]
fn fee_without_delivery_is_pruned() {
    assert!(!part_within_rate(1, 0, 100, 1_000_000));
}

#[test]
fn at_the_hop_cap_is_within() {
    assert!(part_within_length(20));
}

// 25 hops crashed lightningd on 2026-07-24; anything over the
// cap must be pruned, never sent.
#[test]
fn overlong_route_is_pruned() {
    assert!(!part_within_length(21));
}

#[test]
fn no_overflow_at_extremes() {
    assert!(part_within_rate(u64::MAX, u64::MAX, u64::MAX, u64::MAX));
    assert!(!part_within_rate(u64::MAX, 1, 1, u64::MAX));
}

#[test]
fn fee_ppm_keeps_the_low_bits() {
    assert_eq!(
        fee_ppm(u64::MAX, 1),
        Some((u128::from(u64::MAX) * 1_000_000) as u64)
    );
}

const CHANNELS: &str = r#"{"channels": [
    {"state": "CHANNELD_NORMAL", "short_channel_id": "1x1x1", "peer_id": "02aa",
     "spendable_msat": 1000000, "receivable_msat": 5,
     "updates": {"remote": {"htlc_minimum_msat": 1, "htlc_maximum_msat": 990000,
                            "fee_base_msat": 10, "fee_proportional_millionths": 20,
                            "cltv_expiry_delta": 30}}},
    {"state": "CHANNELD_NORMAL", "short_channel_id": "2x2x2", "peer_id": "03bb",
     "spendable_msat": 7, "receivable_msat": 2000000, "private": true,
     "alias": {"local": "8x8x8", "remote": "9x9x9"},
     "updates": {"remote": {"htlc_minimum_msat": 50000, "htlc_maximum_msat": 1500000,
                            "fee_base_msat": 11, "fee_proportional_millionths": 21,
                            "cltv_expiry_delta": 31}}},
    {"state": "CHANNELD_NORMAL", "short_channel_id": "3x3x3", "peer_id": "03cc",
     "spendable_msat": 500, "receivable_msat": 600},
    {"state": "ONCHAIN", "short_channel_id": "4x4x4", "peer_id": "03dd",
     "spendable_msat": 1, "receivable_msat": 1}
]}"#;

#[test]
fn unknown_channels_are_refused_first() {
    let lpc = json(CHANNELS);
    let chans = usable_channels(&lpc);
    assert_eq!(chans.len(), 3);
    let ok = [spec("1x1x1", None)];
    let closed = [spec("4x4x4", None)];
    let quiet = [spec("3x3x3", None)];
    let e = check_channels(&closed, &quiet, &chans).unwrap_err();
    assert_eq!(e, PlanError::UnknownChannel("4x4x4".into()));
    assert_eq!(
        e.message(),
        "unknown channel 4x4x4: not ours, or not in CHANNELD_NORMAL"
    );
    let e = check_channels(&ok, &quiet, &chans).unwrap_err();
    assert_eq!(e, PlanError::NoRemoteUpdate("3x3x3".into()));
    assert_eq!(
        e.message(),
        "destination 3x3x3: peer's channel_update not yet seen; cannot mirror its policy"
    );
    // A source needs no update from its peer.
    assert_eq!(check_channels(&quiet, &ok, &chans), Ok(()));
}

#[test]
fn sizing_clamps_to_both_sides() {
    let lpc = json(CHANNELS);
    let chans = usable_channels(&lpc);
    let src = [spec("1x1x1", None), spec("3x3x3", Some(400))];
    let dst = [spec("2x2x2", Some(900_000))];
    let s = size_request(u64::MAX, FeeBudget::Msat(400), &src, &dst, &chans).unwrap();
    assert_eq!(
        s,
        Sizing {
            src_movable: 1_000_000,
            dst_bound: 900_000,
            amount_msat: 900_000,
            maxfee_msat: 400,
        }
    );
    let s = size_request(800_000, FeeBudget::Ppm(1_000), &src, &dst, &chans).unwrap();
    // 1_000_400 * 1_000_000 / 1_001_000 = 999_400.59...
    assert_eq!(s.src_movable, 999_400);
    assert_eq!(s.amount_msat, 800_000);
    assert_eq!(s.maxfee_msat, 800);
}

#[test]
fn fee_headroom_is_set_aside() {
    for ppm in [0, 1, 300, 1_000_000, u64::MAX] {
        for bound in [1, 999, 1_000_000, u64::MAX] {
            let s = size(u64::MAX, FeeBudget::Ppm(ppm), bound, u64::MAX);
            assert!(s.amount_msat as u128 + s.maxfee_msat as u128 <= bound as u128);
        }
    }
    let s = size(u64::MAX, FeeBudget::Msat(100), 1_000, u64::MAX);
    assert_eq!((s.amount_msat, s.maxfee_msat), (900, 100));
    let s = size(u64::MAX, FeeBudget::Msat(100), 99, u64::MAX);
    assert_eq!((s.amount_msat, s.maxfee_msat), (0, 100));
}

#[test]
fn nothing_to_move_says_which_side() {
    let sizing = |src_movable, dst_bound| Sizing {
        src_movable,
        dst_bound,
        amount_msat: 0,
        maxfee_msat: 3,
    };
    let detail = |s: Sizing| nothing_moves(&s).unwrap().detail.unwrap();
    assert_eq!(
        detail(sizing(0, 0)),
        "nothing can move: the sources (after fee headroom) and destinations leave nothing \
         within their limits"
    );
    assert_eq!(
        detail(sizing(0, 1)),
        "nothing can move: the sources (after fee headroom) leave nothing within their limits"
    );
    assert_eq!(
        detail(sizing(1, 0)),
        "nothing can move: the destinations leave nothing within their limits"
    );
    let p = nothing_moves(&sizing(0, 0)).unwrap();
    assert_eq!((p.effective_amount_msat, p.maxfee_msat), (0, 3));
    let some = Sizing {
        amount_msat: 1,
        ..sizing(1, 1)
    };
    assert!(nothing_moves(&some).is_none());
}

#[test]
fn the_ladder_descends_on_205_only() {
    let no_route = "getroutes: Error code 205: nothing usable";
    let mut l = Ladder::start(1_000_001, FeeBudget::Ppm(100_000)).unwrap();
    let mut seen = vec![(l.rung_msat, l.maxfee_msat)];
    while l.descend(no_route) {
        seen.push((l.rung_msat, l.maxfee_msat));
    }
    assert_eq!(
        seen,
        vec![
            (1_000_001, 100_000),
            (750_000, 75_000),
            (500_000, 50_000),
            (250_000, 25_000),
            (125_000, 12_500),
        ]
    );
    assert!(l.descended);
    let mut l = Ladder::start(1_000_000, FeeBudget::Msat(77)).unwrap();
    assert!(!l.descend("getroutes: Error code 206: too expensive"));
    assert!(!l.descended);
    assert_eq!(l.rung_msat, 1_000_000);
    assert!(l.descend(no_route));
    // An absolute budget stands as given at every rung.
    assert_eq!((l.rung_msat, l.maxfee_msat), (750_000, 77));
}

#[test]
fn the_ladder_stops_where_amounts_run_out() {
    let no_route = "Error code 205";
    let rungs = |amount: u64| {
        let mut l = Ladder::start(amount, FeeBudget::Msat(0)).unwrap();
        let mut out = vec![l.rung_msat];
        while l.descend(no_route) {
            out.push(l.rung_msat);
        }
        out
    };
    assert_eq!(rungs(1), vec![1]);
    assert_eq!(rungs(2), vec![2, 1]);
    assert_eq!(rungs(3), vec![3, 2, 1]);
    assert_eq!(rungs(8), vec![8, 6, 4, 2, 1]);
    assert_eq!(rungs(u64::MAX)[1], (u128::from(u64::MAX) * 3 / 4) as u64);
    assert!(Ladder::start(0, FeeBudget::Msat(0)).is_none());
    assert!(Ladder::start(u64::MAX, FeeBudget::Ppm(1_000_001)).is_none());
}

#[test]
fn the_query_lists_the_split_layer_last() {
    let l = Ladder::start(1_000, FeeBudget::Msat(5)).unwrap();
    let q = route_query(&l, "02ee", "xrebalance-req-1-2-3", 40, Some(7));
    assert_eq!(q.source, "02ee");
    assert_eq!(q.destination, FAKE_US_IN);
    assert_eq!(
        q.layers,
        vec!["auto.localchans", PERSISTENT_LAYER, "xrebalance-req-1-2-3"]
    );
    assert_eq!((q.amount_msat, q.maxfee_msat), (1_000, 5));
    assert_eq!((q.final_cltv, q.maxparts), (40, Some(7)));
}

#[test]
fn infeasible_hides_the_request_layer() {
    let split = "xrebalance-req-1-2-3";
    let raw = "getroutes: Error code 205: We could not find a usable set of paths. layer \
               xrebalance-req-1-2-3 disables it";
    assert_eq!(
        describe_infeasible(raw, split, false),
        "no usable route from the sources to the destinations at this amount and budget \
         (getroutes 205)"
    );
    assert_eq!(
        describe_infeasible(raw, split, true),
        "no usable route from the sources to the destinations at this amount and budget, nor at \
         smaller amounts (getroutes 205)"
    );
    let other = "getroutes: Error code -32601: Unknown command 'getroutes'";
    assert_eq!(describe_infeasible(other, split, false), other);
    // No code, and a second code that ends the first's text.
    assert_eq!(
        describe_infeasible("odd xrebalance-req-1-2-3", split, false),
        "no usable route from the sources to the destinations at this amount and budget"
    );
    assert_eq!(
        describe_infeasible("Error code 1Error code 2: xrebalance-req-1-2-3", split, false),
        "no usable route from the sources to the destinations at this amount and budget \
         (getroutes 1)"
    );
    let s = Sizing {
        src_movable: 9,
        dst_bound: 9,
        amount_msat: 9,
        maxfee_msat: 2,
    };
    let p = infeasible(&s, other, split, false, Table::new());
    assert_eq!((p.effective_amount_msat, p.maxfee_msat), (9, 2));
    assert_eq!(p.detail.as_deref(), Some(other));
    assert!(p.routes.is_empty());
}

fn hop(scidd: &str, to: &str, amount_in: u64, amount_out: u64) -> String {
    format!(
        r#"{{"short_channel_id_dir": "{scidd}", "node_id_out": "{to}",
            "amount_in_msat": {amount_in}, "amount_out_msat": {amount_out}, "cltv_out": 40}}"#
    )
}

fn route(hops: &[String]) -> String {
    format!(
        r#"{{"probability_ppm": 5, "path": [{}]}}"#,
        hops.join(", ")
    )
}

fn unsplit() -> Table<String> {
    let mut t = Table::new();
    t.insert("16000000x1x0/1", "2x2x2/1".to_owned());
    t
}

fn solve(routes: &[String], amount: u64, maxfee: u64) -> Result<xrebalance::plan::PlanResult, PlanError> {
    let solved = json(&format!(r#"{{"routes": [{}]}}"#, routes.join(", ")));
    settle(solved, "02ee", &unsplit(), Table::new(), amount, maxfee)
}

#[test]
fn final_hops_are_translated() {
    let good = route(&[
        hop("1x1x1/0", "02aa", 1_010, 1_010),
        hop("5x5x5/0", "03bb", 1_010, 1_005),
        hop("16000000x1x0/1", FAKE_US_IN, 1_005, 1_000),
    ]);
    let p = solve(&[good], 100_000, 1_000).unwrap();
    assert_eq!((p.delivered_msat, p.fee_msat), (1_000, 10));
    assert_eq!((p.effective_amount_msat, p.maxfee_msat), (100_000, 1_000));
    assert!(p.detail.is_none());
    let r = &p.routes[0];
    assert_eq!(r.uint_at("probability_ppm"), Some(5));
    let path = r.items_at("path").unwrap();
    assert_eq!(path.len(), 3);
    assert_eq!(path[0].text_at("short_channel_id_dir"), Some("1x1x1/0"));
    assert_eq!(path[1].text_at("node_id_out"), Some("03bb"));
    assert_eq!(path[2].text_at("short_channel_id_dir"), Some("2x2x2/1"));
    assert_eq!(path[2].text_at("node_id_out"), Some("02ee"));
    assert_eq!(path[2].uint_at("amount_out_msat"), Some(1_000));
    assert_eq!(path[2].uint_at("cltv_out"), Some(40));
}

#[test]
fn expensive_and_long_parts_are_pruned() {
    let cheap = route(&[hop("16000000x1x0/1", FAKE_US_IN, 1_010, 1_000)]);
    let dear = route(&[hop("16000000x1x0/1", FAKE_US_IN, 1_011, 1_000)]);
    let dust = route(&[hop("16000000x1x0/1", FAKE_US_IN, 1, 0)]);
    let long = route(&vec![hop("5x5x5/0", "03bb", 1, 1); 21]);
    let p = solve(
        &[dear.clone(), cheap, long.clone(), dust.clone()],
        100_000,
        1_000,
    )
    .unwrap();
    assert_eq!(p.routes.len(), 1);
    assert_eq!((p.delivered_msat, p.fee_msat), (1_000, 10));
    assert_eq!(p.pruned.long, 1);
    assert_eq!(p.pruned.rates, vec![11_000, 0]);
    assert_eq!(p.pruned.rate_msat, 1_000);
    assert!(p.detail.is_none());

    let p = solve(&[dear.clone(), dear.clone()], 100_000, 1_000).unwrap();
    assert!(p.routes.is_empty());
    assert_eq!(
        p.detail.as_deref(),
        Some("all 2 planned parts exceeded the fee rate cap")
    );
    let p = solve(&[dear.clone(), long, dear], 100_000, 1_000).unwrap();
    assert_eq!(
        p.detail.as_deref(),
        Some("all 3 planned parts pruned: 1 over 20 hops, 2 over the fee rate cap")
    );
    let p = solve(&[], 100_000, 1_000).unwrap();
    assert!(p.detail.is_none() && p.routes.is_empty());
}

#[test]
fn unusable_solves_are_refused() {
    let fault = |r: String| solve(&[r], 100_000, 1_000).map(|_| ()).unwrap_err();
    assert_eq!(fault("{}".into()), PlanError::NoPath);
    assert_eq!(fault("{}".into()).message(), "getroutes: route without path");
    assert_eq!(fault(r#"{"path": []}"#.into()), PlanError::EmptyPath);
    assert_eq!(PlanError::EmptyPath.message(), "empty path");
    let e = fault(route(&[hop("16000000x1x0/1", "03bb", 1, 1)]));
    assert_eq!(e, PlanError::NotAtSplit);
    assert_eq!(
        e.message(),
        "getroutes: route does not end at the split node"
    );
    let e = fault(format!(r#"{{"path": [{{"node_id_out": "{FAKE_US_IN}"}}]}}"#));
    assert_eq!(e, PlanError::NoFinalScid);
    assert_eq!(e.message(), "final hop without scid");
    let e = fault(route(&[hop("16000000x9x0/1", FAKE_US_IN, 1, 1)]));
    assert_eq!(e, PlanError::UnknownMirror("16000000x9x0/1".into()));
    assert_eq!(e.message(), "final hop over unknown mirror 16000000x9x0/1");
    // More delivered than planned for, at the rate: over the budget.
    let big = route(&[hop("16000000x1x0/1", FAKE_US_IN, 202_000, 200_000)]);
    let e = fault(big);
    assert_eq!(
        e,
        PlanError::OverBudget {
            fee_msat: 2_000,
            maxfee_msat: 1_000
        }
    );
    assert_eq!(
        e.message(),
        "planned fee 2000msat exceeds budget 1000msat"
    );
    let huge = route(&[hop("16000000x1x0/1", FAKE_US_IN, u64::MAX, u64::MAX)]);
    let e = solve(&[huge.clone(), huge], 1, 1).map(|_| ()).unwrap_err();
    assert_eq!(e, PlanError::TotalsOverflow);
    assert_eq!(e.message(), "planned amounts overflow");
}

#[test]
fn rate_summary_is_min_median_max() {
    assert_eq!(rate_summary(&[]), None);
    assert_eq!(rate_summary(&[5]), Some((5, 5, 5)));
    assert_eq!(rate_summary(&[9, 1, 4, 7]), Some((1, 4, 9)));
}

#[test]
fn a_planned_round_trip_comes_home() {
    let lpc = json(CHANNELS);
    let chans = usable_channels(&lpc);
    let us = "02ee";
    let split = split_layer(
        us,
        &chans,
        &[spec("1x1x1", None)],
        &[spec("2x2x2", None)],
        &Overrides::new(100).snapshot(0),
        0,
    );
    let mirror = scidd_of("16000000x1x0", dir("03bb", FAKE_US_IN));
    let solved = json(&format!(
        r#"{{"routes": [{}]}}"#,
        route(&[hop(&mirror, FAKE_US_IN, 10, 10)])
    ));
    let p = settle(solved, us, &split.unsplit, split.onion_scids, 10, 0).unwrap();
    let home = scidd_of("2x2x2", dir("03bb", us));
    let path = p.routes[0].items_at("path").unwrap();
    assert_eq!(
        path[0].text_at("short_channel_id_dir"),
        Some(home.as_str())
    );
    assert_eq!(p.onion_scids.get(&home).map(String::as_str), Some("9x9x9"));
}

#[test]
fn a_rate_follows_the_rungs_and_a_pot_does_not() {
    let mut rate = Ladder::start(1_000_000, FeeBudget::Ppm(300)).unwrap();
    let mut pot = Ladder::start(1_000_000, FeeBudget::Msat(300)).unwrap();
    assert_eq!((rate.maxfee_msat, pot.maxfee_msat), (300, 300));
    assert!(rate.descend("Error code 205: no") && pot.descend("Error code 205: no"));
    assert_eq!((rate.rung_msat, rate.maxfee_msat), (750_000, 225));
    assert_eq!((pot.rung_msat, pot.maxfee_msat), (750_000, 300));
    assert!(!pot.descend("Error code 206: too dear"));
    assert_eq!(pot.rung_msat, 750_000);
}

#[test]
fn a_large_ask_drains_the_sources() {
    let s = size(u64::MAX, FeeBudget::Ppm(1_000_000), 1_000, 5_000);
    assert_eq!((s.amount_msat, s.maxfee_msat), (500, 500));
    let s = size(u64::MAX, FeeBudget::Msat(100), 1_000, 700);
    assert_eq!((s.amount_msat, s.maxfee_msat), (700, 100));
}
