use serde_json::Value;
use xrebalance::exec::{
    closest_miss, erring_hop, hop_to_sendpay, payment_label, prepare, Aftermath, FailData, Feedback,
    Part, PartStatus, RouteError, Totals, WaitReply,
};
use xrebalance::json::Json;
use xrebalance::table::Table;

fn to_json(v: &Value) -> Json {
    match v {
        Value::Null => Json::Null,
        Value::Bool(b) => Json::Bool(*b),
        Value::Number(n) => match (n.as_u64(), n.as_i64()) {
            (Some(u), _) => Json::Uint(u),
            (None, Some(i)) => Json::Int(i),
            _ => Json::Real(n.to_string()),
        },
        Value::String(s) => Json::Str(s.clone()),
        Value::Array(a) => Json::Array(a.iter().map(to_json).collect()),
        Value::Object(m) => {
            Json::Object(m.iter().map(|(k, v)| (k.clone(), to_json(v))).collect())
        }
    }
}

fn json(text: &str) -> Json {
    to_json(&serde_json::from_str::<Value>(text).unwrap())
}

fn aliases() -> Table<String> {
    let mut t = Table::new();
    t.insert("3x3x3/1", "9x9x9".to_owned());
    t
}

const ROUTE: &str = r#"{"path": [
    {"short_channel_id_dir": "1x1x1/0", "node_id_out": "02aa",
     "amount_in_msat": 1030, "amount_out_msat": 1030, "cltv_out": 90},
    {"short_channel_id_dir": "2x2x2/1", "node_id_out": "03bb",
     "amount_in_msat": 1030, "amount_out_msat": 1010, "cltv_out": 60},
    {"short_channel_id_dir": "3x3x3/1", "node_id_out": "02ee",
     "amount_in_msat": 1010, "amount_out_msat": 1000, "cltv_out": 40}]}"#;

fn part() -> Part {
    let route = json(ROUTE);
    prepare(&route, &aliases(), 0, "aa11".to_owned()).unwrap().part
}

#[test]
fn a_hop_names_the_alias_in_the_onion() {
    let hop = json(
        r#"{"short_channel_id_dir": "3x3x3/1", "node_id_out": "02ee",
            "amount_out_msat": 1000, "cltv_out": 40}"#,
    );
    let h = hop_to_sendpay(&hop, &aliases()).unwrap();
    assert_eq!(h.channel, "9x9x9");
    assert_eq!(h.direction, 1);
    assert!(matches!(h.id, Some(Json::Str(s)) if s == "02ee"));
    assert!(matches!(h.amount_msat, Some(Json::Uint(1000))));
    assert!(matches!(h.delay, Some(Json::Uint(40))));
    let plain = json(r#"{"short_channel_id_dir": "3x3x3/0"}"#);
    let h = hop_to_sendpay(&plain, &aliases()).unwrap();
    assert_eq!((h.channel.as_str(), h.direction), ("3x3x3", 0));
    assert!(h.id.is_none() && h.delay.is_none());
}

#[test]
fn hops_that_cannot_be_sent_are_refused() {
    let refused = |text: &str| hop_to_sendpay(&json(text), &aliases()).map(|_| ()).unwrap_err();
    assert_eq!(refused("{}"), RouteError::NoScidd);
    assert_eq!(
        refused("{}").message(),
        "hop without short_channel_id_dir"
    );
    let e = refused(r#"{"short_channel_id_dir": "1x1x1"}"#);
    assert_eq!(e, RouteError::Malformed("1x1x1".into()));
    assert_eq!(e.message(), "malformed scidd 1x1x1");
    let e = refused(r#"{"short_channel_id_dir": "1x1x1/x"}"#);
    assert_eq!(e, RouteError::BadDirection("1x1x1/x".into()));
    assert_eq!(e.message(), "invalid direction in scidd 1x1x1/x");
    let route_refused = |text: &str| {
        prepare(&json(text), &aliases(), 0, String::new())
            .map(|_| ())
            .unwrap_err()
    };
    assert_eq!(route_refused("{}"), RouteError::NoPath);
    assert_eq!(RouteError::NoPath.message(), "route without path");
    assert_eq!(route_refused(r#"{"path": []}"#), RouteError::EmptyPath);
    assert_eq!(RouteError::EmptyPath.message(), "empty path");
    assert_eq!(route_refused(r#"{"path": [{}]}"#), RouteError::NoScidd);
}

#[test]
fn a_route_becomes_a_part() {
    let route = json(ROUTE);
    let p = prepare(&route, &aliases(), 4, "aa11".to_owned()).unwrap();
    let part = &p.part;
    assert_eq!(part.part_index, 5);
    assert_eq!(part.payment_hash, "aa11");
    assert_eq!(part.first_hop, "1x1x1/0");
    assert_eq!(part.return_hop, "3x3x3/1");
    assert_eq!((part.planned_msat, part.planned_sent_msat), (1000, 1030));
    assert_eq!(part.status, PartStatus::Pending);
    let ours: Vec<bool> = part.hops.iter().map(|h| h.ours).collect();
    assert_eq!(ours, vec![true, false, true]);
    assert_eq!(part.hops[1].scidd, "2x2x2/1");
    assert_eq!(part.hops[1].onion_scid, "2x2x2");
    assert_eq!(part.hops[1].amount_msat, 1010);
    assert_eq!(part.hops[2].onion_scid, "9x9x9");
    let channels: Vec<&str> = p.route.iter().map(|h| h.channel.as_str()).collect();
    assert_eq!(channels, vec!["1x1x1", "2x2x2", "9x9x9"]);
}

#[test]
fn erring_channels_match_by_alias_too() {
    let p = part();
    let at = |text: &str| erring_hop(&p.hops, &json(text));
    assert_eq!(at(r#"{"erring_channel": "2x2x2", "erring_direction": 1}"#), Some(1));
    assert_eq!(at(r#"{"erring_channel": "9x9x9", "erring_direction": 1}"#), Some(2));
    // A scid named in the onion is enough.
    assert_eq!(at(r#"{"erring_channel": "2x2x2", "erring_direction": 0}"#), Some(1));
    assert_eq!(at(r#"{"erring_channel": "3x3x3", "erring_direction": 1}"#), Some(2));
    assert_eq!(at(r#"{"erring_channel": "3x3x3", "erring_direction": 0}"#), None);
    assert_eq!(at(r#"{"erring_channel": "2x2x2"}"#), None);
    assert_eq!(at("{}"), None);
}

fn failed(code: Option<i32>, data: Option<&str>) -> WaitReply {
    WaitReply::Failed {
        code,
        message: "boom".into(),
        data: data.map(|d| FailData {
            value: json(d),
            text: d.to_owned(),
        }),
    }
}

#[test]
fn waiting_settles_fails_or_leaves_pending() {
    let mut p = part();
    assert!(p.after_wait(&WaitReply::Paid).notify);
    assert_eq!(p.status, PartStatus::Complete);
    assert_eq!((p.delivered_msat(), p.fee_msat()), (1000, 30));
    assert_eq!(p.status.as_str(), "complete");

    let mut p = part();
    assert!(!p.after_wait(&failed(Some(200), None)).notify);
    assert_eq!(p.status, PartStatus::Pending);
    assert!(p.detail.is_none());
    assert_eq!((p.delivered_msat(), p.fee_msat()), (0, 0));

    let mut p = part();
    assert!(!p.after_wait(&WaitReply::Lost("no socket".into())).notify);
    assert_eq!(p.status, PartStatus::Pending);
    assert_eq!(p.detail.as_deref(), Some("wait failed: no socket"));

    let mut p = part();
    let data = r#"{"erring_channel":"2x2x2","erring_direction":1}"#;
    assert!(p.after_wait(&failed(Some(204), Some(data))).notify);
    assert_eq!(p.status, PartStatus::Failed);
    assert_eq!(
        p.detail.as_deref(),
        Some(r#"boom data={"erring_channel":"2x2x2","erring_direction":1}"#)
    );
    assert_eq!(p.stopped_at, Some(1));
    let mut p = part();
    assert!(p.after_wait(&failed(None, None)).notify);
    assert_eq!(p.detail.as_deref(), Some("boom"));
    assert_eq!(p.stopped_at, None);
}

#[test]
fn watching_has_no_timeout() {
    let mut p = part();
    assert!(p.after_watch(&failed(Some(200), None)).notify);
    assert_eq!(p.status, PartStatus::Failed);
    let mut p = part();
    assert!(p.after_watch(&WaitReply::Paid).notify);
    assert_eq!(p.status, PartStatus::Complete);
    let mut p = part();
    assert!(!p.after_watch(&WaitReply::Lost("gone".into())).notify);
    assert_eq!(p.status, PartStatus::Pending);
    assert!(p.detail.is_none());
}

#[test]
fn unsent_and_detached_parts_say_so() {
    let mut p = part();
    assert!(p.detach());
    assert_eq!(
        p.detail.as_deref(),
        Some("in flight; result follows via notification")
    );
    let mut p = part();
    p.after_wait(&WaitReply::Lost("x".into()));
    assert!(p.detach());
    assert_eq!(p.detail.as_deref(), Some("wait failed: x"));
    let mut p = part();
    p.not_sent("no such channel");
    assert_eq!(p.status, PartStatus::Failed);
    assert_eq!(p.detail.as_deref(), Some("sendpay: no such channel"));
    assert!(!p.detach());
}

#[test]
fn totals_split_by_status() {
    let mut paid = part();
    paid.after_wait(&WaitReply::Paid);
    let mut lost = part();
    lost.after_wait(&failed(None, None));
    let parts = [paid, lost, part(), part()];
    assert_eq!(
        Totals::of(&parts),
        Some(Totals {
            delivered_msat: 1000,
            fee_msat: 30,
            pending_msat: 2000,
            pending_fee_msat: 60,
        })
    );
    let mut big = part();
    big.planned_msat = u64::MAX;
    assert_eq!(Totals::of(&[big.clone(), part()]), None);
    assert!(Totals::of(&[big]).is_some());
}

#[test]
fn the_closest_miss_has_the_fewest_hops_left() {
    let at = |chan: &str, dir: u64| {
        let mut p = part();
        let d = format!(r#"{{"erring_channel":"{chan}","erring_direction":{dir}}}"#);
        p.after_wait(&failed(None, Some(&d)));
        p
    };
    let mut paid = part();
    paid.after_wait(&WaitReply::Paid);
    assert_eq!(closest_miss(&[]), None);
    assert_eq!(closest_miss(&[paid.clone(), part()]), None);
    let mut unknown = part();
    unknown.after_wait(&failed(None, None));
    assert_eq!(closest_miss(&[paid.clone(), unknown.clone()]), Some(1));
    let parts = [
        unknown,
        at("2x2x2", 1),
        paid,
        at("9x9x9", 1),
        at("3x3x3", 1),
    ];
    assert_eq!(closest_miss(&parts), Some(3));
    assert_eq!(closest_miss(&parts[..3]), Some(1));
}

#[test]
fn payments_carry_the_label() {
    assert_eq!(payment_label(&Some("run7".into())), "xrebalance/run7");
    assert_eq!(payment_label(&None), "xrebalance/unlabeled");
}

#[test]
fn every_terminal_state_is_broadcast_once() {
    let nothing = Aftermath {
        notify: false,
        drop_claim: false,
        feedback: Feedback::Nothing,
    };
    let settled = Aftermath {
        notify: true,
        drop_claim: false,
        feedback: Feedback::Success,
    };
    let dropped = Aftermath {
        notify: true,
        drop_claim: true,
        feedback: Feedback::Nothing,
    };
    let taught = Aftermath {
        feedback: Feedback::Failure,
        ..dropped
    };
    assert_eq!(part().after_wait(&WaitReply::Paid), settled);
    assert_eq!(part().after_watch(&WaitReply::Paid), settled);
    assert_eq!(part().after_wait(&failed(Some(200), Some("{}"))), nothing);
    assert_eq!(part().after_watch(&failed(Some(200), Some("{}"))), taught);
    assert_eq!(part().after_wait(&failed(Some(204), Some("{}"))), taught);
    assert_eq!(part().after_wait(&failed(Some(204), None)), dropped);
    assert_eq!(part().after_wait(&WaitReply::Lost(String::new())), nothing);
    assert_eq!(part().after_watch(&WaitReply::Lost(String::new())), nothing);
    assert_eq!(part().not_sent("x"), dropped);
    let mut p = part();
    p.after_wait(&WaitReply::Paid);
    assert!(!p.detach());
}

#[test]
fn parts_commit_at_most_what_was_planned() {
    let mut paid = part();
    paid.after_wait(&WaitReply::Paid);
    let mut lost = part();
    lost.not_sent("x");
    let parts = [paid, lost, part()];
    let t = Totals::of(&parts).unwrap();
    let planned: u64 = parts.iter().map(|p| p.planned_msat).sum();
    assert!(t.delivered_msat + t.pending_msat <= planned);
    assert_eq!(t.delivered_msat + t.pending_msat, 2000);
}
