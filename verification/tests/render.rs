use serde_json::Value;
use xrebalance::claims::HtlcDecision;
use xrebalance::config::{
    Settings, DEFAULT_CONSTRAINT_AGE, DEFAULT_FINAL_CLTV, DEFAULT_MAX_ROUNDS, DEFAULT_MIN_PART,
    DEFAULT_OVERRIDE_AGE, DEFAULT_PART_WAIT,
};
use xrebalance::exec::{prepare, Part, PartStatus, WaitReply};
use xrebalance::json::Json;
use xrebalance::layer::LayerOp;
use xrebalance::onion_error::ChanUpdate;
use xrebalance::plan::{PlanResult, Pruned, RouteQuery};
use xrebalance::render::{
    dryrun_response, htlc_response, layer_call, notification, render, request_response,
    sendpay_call, stats_response, Holdings,
};
use xrebalance::request::XRebalanceParams;
use xrebalance::rounds::Ledger;
use xrebalance::stats::layer_stats;
use xrebalance::table::Table;

fn to_json(v: &Value) -> Json {
    match v {
        Value::Null => Json::Null,
        Value::Bool(b) => Json::Bool(*b),
        Value::Number(n) => match (n.as_u64(), n.as_i64()) {
            (Some(u), _) => Json::Uint(u),
            (None, Some(i)) => Json::Int(i),
            _ => Json::Real(n.to_string()),
        },
        Value::String(s) => Json::Str(s.clone()),
        Value::Array(a) => Json::Array(a.iter().map(to_json).collect()),
        Value::Object(m) => {
            Json::Object(m.iter().map(|(k, v)| (k.clone(), to_json(v))).collect())
        }
    }
}

fn to_value(v: &Json) -> Value {
    match v {
        Json::Null => Value::Null,
        Json::Bool(b) => Value::from(*b),
        Json::Uint(n) => Value::from(*n),
        Json::Int(n) => Value::from(*n),
        Json::Real(s) => serde_json::from_str(s).unwrap(),
        Json::Str(s) => Value::from(s.as_str()),
        Json::Array(a) => Value::Array(a.iter().map(to_value).collect()),
        Json::Object(m) => Value::Object(
            m.iter()
                .map(|(k, v)| (k.clone(), to_value(v)))
                .collect::<serde_json::Map<_, _>>(),
        ),
    }
}

fn value(text: &str) -> Value {
    serde_json::from_str(text).unwrap()
}

fn json(text: &str) -> Json {
    to_json(&value(text))
}

const ROUTE: &str = r#"{"path": [
    {"short_channel_id_dir": "1x1x1/0", "node_id_out": "02aa",
     "amount_in_msat": 1030, "amount_out_msat": 1030, "cltv_out": 90},
    {"short_channel_id_dir": "2x2x2/1", "node_id_out": "03bb",
     "amount_in_msat": 1030, "amount_out_msat": 1010, "cltv_out": 60},
    {"short_channel_id_dir": "3x3x3/1", "node_id_out": "02ee",
     "amount_in_msat": 1010, "amount_out_msat": 1000, "cltv_out": 40}]}"#;

fn aliases() -> Table<String> {
    let mut t = Table::new();
    t.insert("3x3x3/1", "9x9x9".to_owned());
    t
}

fn part(index: usize) -> Part {
    let route = json(ROUTE);
    prepare(&route, &aliases(), index, "aa11".to_owned()).unwrap().part
}

fn params(verbose: Option<bool>) -> XRebalanceParams {
    XRebalanceParams {
        sources: Vec::new(),
        destinations: Vec::new(),
        amount_msat: 5000,
        maxfee_ppm: None,
        maxfee_msat: Some(100),
        label: Some("lbl".to_owned()),
        dryrun: None,
        maxparts: None,
        maxrounds: None,
        part_wait: None,
        verbose,
    }
}

fn plan(routes: Vec<Json>) -> PlanResult {
    PlanResult {
        effective_amount_msat: 4000,
        maxfee_msat: 100,
        delivered_msat: 1000,
        fee_msat: 30,
        routes,
        onion_scids: Table::new(),
        detail: None,
        pruned: Pruned {
            long: 0,
            rates: Vec::new(),
            rate_msat: 0,
        },
    }
}

#[test]
fn a_pending_part_shows_nothing_delivered() {
    assert_eq!(
        to_value(&part(0).json()),
        value(
            r#"{"part_index": 1, "payment_hash": "aa11", "status": "pending",
                "first_hop": "1x1x1/0", "return_hop": "3x3x3/1",
                "planned_msat": 1000, "delivered_msat": 0, "sent_msat": 1030,
                "fee_msat": 0, "detail": null}"#
        )
    );
}

#[test]
fn a_notification_is_the_part_and_the_label() {
    let mut p = part(4);
    p.after_wait(&WaitReply::Paid);
    assert_eq!(p.status, PartStatus::Complete);
    assert_eq!(
        to_value(&notification(&p, &Some("lbl".to_owned()))),
        value(
            r#"{"part_index": 5, "payment_hash": "aa11", "status": "complete",
                "first_hop": "1x1x1/0", "return_hop": "3x3x3/1",
                "planned_msat": 1000, "delivered_msat": 1000, "sent_msat": 1030,
                "fee_msat": 30, "detail": null, "label": "lbl"}"#
        )
    );
    assert_eq!(to_value(&notification(&p, &None))["label"], Value::Null);
}

#[test]
fn a_dryrun_shows_the_plan() {
    assert_eq!(
        to_value(&dryrun_response(&params(None), &plan(vec![json(ROUTE)]))),
        Value::Object(serde_json::Map::from_iter(vec![
            ("status".to_owned(), Value::from("planned")),
            ("label".to_owned(), Value::from("lbl")),
            ("dryrun".to_owned(), Value::from(true)),
            ("amount_msat".to_owned(), Value::from(5000)),
            ("effective_amount_msat".to_owned(), Value::from(4000)),
            ("maxfee_msat".to_owned(), Value::from(100)),
            ("delivered_msat".to_owned(), Value::from(1000)),
            ("fee_msat".to_owned(), Value::from(30)),
            ("fee_ppm".to_owned(), Value::from(30_000)),
            ("routes".to_owned(), Value::Array(vec![value(ROUTE)])),
            ("detail".to_owned(), Value::Null),
        ]))
    );
    let mut nothing = plan(Vec::new());
    nothing.delivered_msat = 0;
    nothing.detail = Some("why".to_owned());
    let shown = to_value(&dryrun_response(&params(None), &nothing));
    assert_eq!(shown["fee_ppm"], Value::Null);
    assert_eq!(shown["detail"], Value::from("why"));
}

#[test]
fn a_round_sums_its_parts() {
    let mut paid = part(0);
    paid.after_wait(&WaitReply::Paid);
    let (totals, shown) = render(&params(None), &plan(Vec::new()), &[paid, part(1)]).unwrap();
    assert_eq!((totals.delivered_msat, totals.fee_msat), (1000, 30));
    assert_eq!((totals.pending_msat, totals.pending_fee_msat), (1000, 30));
    let shown = to_value(&shown);
    assert_eq!(shown["status"], Value::from("executed"));
    assert_eq!(shown["planned_msat"], Value::from(1000));
    assert_eq!(shown["planned_fee_msat"], Value::from(30));
    assert_eq!(shown["delivered_msat"], Value::from(1000));
    assert_eq!(shown["fee_msat"], Value::from(30));
    assert_eq!(shown["pending_msat"], Value::from(1000));
    assert_eq!(shown["parts"].as_array().unwrap().len(), 2);
    assert_eq!(shown["parts"][1]["part_index"], Value::from(2));
    assert_eq!(shown["parts"][1]["status"], Value::from("pending"));
}

#[test]
fn a_round_whose_totals_overflow_is_not_rendered() {
    let mut a = part(0);
    a.planned_msat = u64::MAX;
    let mut b = part(1);
    b.planned_msat = 1;
    assert!(render(&params(None), &plan(Vec::new()), &[a, b]).is_none());
}

#[test]
fn a_request_that_moved_nothing_names_the_closest_miss() {
    let mut far = part(0);
    far.not_sent("no");
    let mut near = part(1);
    near.after_wait(&WaitReply::Failed {
        code: Some(204),
        message: "failed".to_owned(),
        data: Some(xrebalance::exec::FailData {
            value: json(r#"{"erring_index": 2, "erring_channel": "2x2x2", "erring_direction": 1}"#),
            text: "{}".to_owned(),
        }),
    });
    let ledger = Ledger::new(5000, Some(100), 3);
    let shown = to_value(&request_response(
        &params(None),
        &ledger,
        &[far, near],
        vec![Json::Null, Json::Null],
        "round limit",
    ));
    assert_eq!(
        shown["summary"]["closest_miss"]["part_index"],
        Value::from(2)
    );
    assert_eq!(shown["summary"]["rounds"], Value::from(2));
    assert_eq!(shown["summary"]["parts"], Value::from(2));
    assert_eq!(shown["summary"]["failed"], Value::from(2));
    assert_eq!(shown["summary"]["complete"], Value::from(0));
    assert_eq!(shown["rounds_run"], Value::from(2));
    assert_eq!(shown["stop_reason"], Value::from("round limit"));
    assert_eq!(shown["fee_ppm"], Value::Null);
    assert!(shown.get("rounds").is_none());
}

#[test]
fn rounds_are_shown_where_asked_for() {
    let mut ledger = Ledger::new(5000, Some(100), 3);
    ledger.delivered_msat = 2000;
    ledger.fee_msat = 1;
    ledger.pending_msat = 7;
    let mut failed = part(0);
    failed.not_sent("no");
    let shown = to_value(&request_response(
        &params(Some(true)),
        &ledger,
        &[failed],
        vec![json(r#"{"a": 1}"#)],
        "done",
    ));
    assert_eq!(shown["rounds"], value(r#"[{"a": 1}]"#));
    assert_eq!(shown["delivered_msat"], Value::from(2000));
    assert_eq!(shown["fee_ppm"], Value::from(500));
    assert_eq!(shown["pending_msat"], Value::from(7));
    assert!(shown["summary"].get("closest_miss").is_none());
    let quiet = request_response(&params(Some(false)), &ledger, &[], Vec::new(), "done");
    assert!(to_value(&quiet).get("rounds").is_none());
}

#[test]
fn the_hook_is_answered() {
    assert_eq!(
        to_value(&htlc_response(&HtlcDecision::Continue)),
        value(r#"{"result": "continue"}"#)
    );
    assert_eq!(
        to_value(&htlc_response(&HtlcDecision::Resolve {
            payment_key: "ff".to_owned()
        })),
        value(r#"{"result": "resolve", "payment_key": "ff"}"#)
    );
}

#[test]
fn stats_show_options_stores_and_layer() {
    let settings = Settings {
        constraint_age: DEFAULT_CONSTRAINT_AGE as u64,
        override_age: DEFAULT_OVERRIDE_AGE as u64,
        part_wait_secs: DEFAULT_PART_WAIT as u64,
        min_part_msat: DEFAULT_MIN_PART as u64,
        max_rounds: DEFAULT_MAX_ROUNDS as u64,
        final_cltv: DEFAULT_FINAL_CLTV as u64,
    };
    let held = Holdings {
        override_age: 3600,
        claims: 1,
        coalescer_entries: 2,
        policies: 3,
        disabled_nodes: 4,
        exclusions: 5,
    };
    let shown = to_value(&stats_response("1.2", &settings, &held, &None));
    assert_eq!(
        shown,
        value(
            r#"{"version": "1.2",
                "options": {"constraint_age": 21600, "override_age": 3600, "part_wait": 30,
                            "min_part_msat": 1000000, "max_rounds": 50, "final_cltv": 40},
                "claims": 1, "coalescer_entries": 2,
                "overrides": {"channel_updates": 3, "disabled_nodes": 4, "exclusions": 5},
                "layer": {"exists": false}}"#
        )
    );
    let layer = layer_stats(&json(
        r#"{"layers": [{"constraints": [
            {"short_channel_id_dir": "1x1x1/0", "minimum_msat": 5, "timestamp": 7}]}]}"#,
    ));
    let shown = to_value(&stats_response("1.2", &settings, &held, &layer));
    assert_eq!(
        shown["layer"],
        value(
            r#"{"exists": true, "constraints": 1, "constraint_minimums": 1,
                "constraint_maximums": 0, "constraint_scidds": 1, "dirs_with_max": 0,
                "dirs_with_min": 1, "depth_min": 1, "depth_median": 1, "depth_p90": 1,
                "depth_max": 1, "oldest_constraint": 7, "newest_constraint": 7,
                "channel_updates": 0, "disabled_nodes": 0, "created_channels": 0,
                "biases": 0}"#
        )
    );
}

#[test]
fn layer_writes_become_calls() {
    let max = Json::Uint(9000);
    let calls = [
        (
            LayerOp::CreateChannel {
                source: "02aa".to_owned(),
                destination: "02ff".to_owned(),
                scid: "16000000x1x0".to_owned(),
                capacity_msat: 77,
            },
            "askrene-create-channel",
            r#"{"layer": "l", "source": "02aa", "destination": "02ff",
                "short_channel_id": "16000000x1x0", "capacity_msat": 77}"#,
        ),
        (
            LayerOp::CopyPolicy {
                scidd: "16000000x1x0/0".to_owned(),
                htlc_minimum_msat: 10,
                htlc_maximum_msat: Some(&max),
                fee_base_msat: None,
                fee_proportional_millionths: None,
                cltv_expiry_delta: None,
            },
            "askrene-update-channel",
            r#"{"layer": "l", "short_channel_id_dir": "16000000x1x0/0", "enabled": true,
                "htlc_minimum_msat": 10, "htlc_maximum_msat": 9000, "fee_base_msat": null,
                "fee_proportional_millionths": null, "cltv_expiry_delta": null}"#,
        ),
        (
            LayerOp::SetPolicy {
                scidd: "1x1x1/0".to_owned(),
                policy: ChanUpdate {
                    enabled: true,
                    cltv_expiry_delta: 34,
                    htlc_minimum_msat: 1,
                    htlc_maximum_msat: 2,
                    fee_base_msat: 3,
                    fee_proportional_millionths: 4,
                    inbound_fee: None,
                },
            },
            "askrene-update-channel",
            r#"{"layer": "l", "short_channel_id_dir": "1x1x1/0", "enabled": true,
                "htlc_minimum_msat": 1, "htlc_maximum_msat": 2, "fee_base_msat": 3,
                "fee_proportional_millionths": 4, "cltv_expiry_delta": 34}"#,
        ),
        (
            LayerOp::Disable {
                scidd: "1x1x1/0".to_owned(),
            },
            "askrene-update-channel",
            r#"{"layer": "l", "short_channel_id_dir": "1x1x1/0", "enabled": false}"#,
        ),
        (
            LayerOp::DisableNode {
                node: "02aa".to_owned(),
            },
            "askrene-disable-node",
            r#"{"layer": "l", "node": "02aa"}"#,
        ),
        (
            LayerOp::Inform {
                scidd: "1x1x1/0".to_owned(),
                amount_msat: 5,
                constrained: false,
            },
            "askrene-inform-channel",
            r#"{"layer": "l", "short_channel_id_dir": "1x1x1/0", "amount_msat": 5,
                "inform": "unconstrained"}"#,
        ),
        (
            LayerOp::Inform {
                scidd: "1x1x1/0".to_owned(),
                amount_msat: 1,
                constrained: true,
            },
            "askrene-inform-channel",
            r#"{"layer": "l", "short_channel_id_dir": "1x1x1/0", "amount_msat": 1,
                "inform": "constrained"}"#,
        ),
    ];
    for (op, method, args) in &calls {
        let (m, a) = layer_call(op, "l");
        assert_eq!(m, *method);
        assert_eq!(to_value(&a), value(args));
    }
}

#[test]
fn a_query_names_maxparts_only_where_given() {
    let mut q = RouteQuery {
        source: "02ee".to_owned(),
        destination: "02ff".to_owned(),
        amount_msat: 10,
        layers: vec!["a".to_owned(), "b".to_owned()],
        maxfee_msat: 1,
        final_cltv: 40,
        maxparts: None,
    };
    assert_eq!(
        to_value(&q.json()),
        value(
            r#"{"source": "02ee", "destination": "02ff", "amount_msat": 10,
                "layers": ["a", "b"], "maxfee_msat": 1, "final_cltv": 40}"#
        )
    );
    q.maxparts = Some(3);
    assert_eq!(to_value(&q.json())["maxparts"], Value::from(3));
}

#[test]
fn sendpay_names_the_alias_and_the_delivered_amount() {
    let route = json(ROUTE);
    let prepared = prepare(&route, &aliases(), 0, "aa11".to_owned()).unwrap();
    let shown = to_value(&sendpay_call(
        &prepared.part,
        &prepared.route,
        "xrebalance/lbl",
        "5ec",
    ));
    assert_eq!(
        shown["route"][2],
        value(
            r#"{"id": "02ee", "channel": "9x9x9", "direction": 1, "amount_msat": 1000,
                "delay": 40, "style": "tlv"}"#
        )
    );
    assert_eq!(shown["route"].as_array().unwrap().len(), 3);
    assert_eq!(shown["payment_hash"], Value::from("aa11"));
    assert_eq!(shown["label"], Value::from("xrebalance/lbl"));
    assert_eq!(shown["payment_secret"], Value::from("5ec"));
    assert_eq!(shown["amount_msat"], Value::from(1000));
}
