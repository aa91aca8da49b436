use serde_json::Value;
use xrebalance::exec::PartHop;
use xrebalance::feedback::{
    failure_feedback, gossip_policy, inform_key, learn, liquidity_write, success_feedback, Lesson,
};
use xrebalance::json::Json;
use xrebalance::layer::LayerOp;
use xrebalance::onion_error::ChanUpdate;
use xrebalance::overrides::Overrides;

fn to_json(v: &Value) -> Json {
    match v {
        Value::Null => Json::Null,
        Value::Bool(b) => Json::Bool(*b),
        Value::Number(n) => match (n.as_u64(), n.as_i64()) {
            (Some(u), _) => Json::Uint(u),
            (None, Some(i)) => Json::Int(i),
            _ => Json::Real(n.to_string()),
        },
        Value::String(s) => Json::Str(s.clone()),
        Value::Array(a) => Json::Array(a.iter().map(to_json).collect()),
        Value::Object(m) => {
            Json::Object(m.iter().map(|(k, v)| (k.clone(), to_json(v))).collect())
        }
    }
}

fn json(text: &str) -> Json {
    to_json(&serde_json::from_str::<Value>(text).unwrap())
}

fn hops() -> Vec<PartHop> {
    [
        ("1x1x1/0", "1x1x1", 1_100, true),
        ("2x2x2/1", "2x2x2", 1_060, false),
        ("3x3x3/0", "3x3x3", 1_030, false),
        ("4x4x4/1", "9x9x9", 1_000, true),
    ]
    .iter()
    .map(|(scidd, onion, amount, ours)| PartHop {
        scidd: scidd.to_string(),
        onion_scid: onion.to_string(),
        amount_msat: *amount,
        ours: *ours,
    })
    .collect()
}

/// A failure payload with a channel_update of the given base fee.
fn raw_message(failcode: u16, header: usize, base: u32, htlc_max: u64) -> String {
    let mut m = failcode.to_be_bytes().to_vec();
    m.extend(vec![0u8; header]);
    m.extend(136u16.to_be_bytes());
    m.extend(vec![0u8; 120]);
    m.extend(base.to_be_bytes());
    m.extend(0u32.to_be_bytes());
    m.extend(htlc_max.to_be_bytes());
    hex::encode(m)
}

fn data(failcode: u64, chan: &str, dir: u64, raw: &str) -> Json {
    json(&format!(
        r#"{{"failcode": {failcode}, "erring_channel": "{chan}", "erring_direction": {dir},
             "erring_node": "02bb", "raw_message": "{raw}"}}"#
    ))
}

fn short(lessons: &[Lesson]) -> Vec<String> {
    lessons
        .iter()
        .map(|l| match l {
            Lesson::Liquidity {
                scidd,
                amount_msat,
                constrained,
            } => format!("{scidd} {} {amount_msat}", if *constrained { "<" } else { ">=" }),
            Lesson::Policy { scidd, policy } => {
                format!("{scidd} base {}", policy.fee_base_msat)
            }
            Lesson::Exclude { scidd } => format!("{scidd} out"),
            Lesson::DisableNode { node } => format!("{node} off"),
        })
        .collect()
}

fn failure(d: &Json) -> Vec<String> {
    let store = Overrides::new(100);
    short(&failure_feedback(&hops(), d, Some("02ee"), &store, None, 50))
}

#[test]
fn success_proves_every_network_hop() {
    assert_eq!(
        short(&success_feedback(&hops())),
        vec!["2x2x2/1 >= 1060", "3x3x3/0 >= 1030"]
    );
    assert!(success_feedback(&[]).is_empty());
}

#[test]
fn liquidity_failures_bound_the_erring_hop() {
    assert_eq!(
        failure(&data(0x1007, "3x3x3", 0, "")),
        vec!["2x2x2/1 >= 1060", "3x3x3/0 < 1030"]
    );
    assert_eq!(failure(&data(0x1007, "2x2x2", 1, "")), vec!["2x2x2/1 < 1060"]);
    // Our own return hop, named by its alias: only what came before.
    assert_eq!(
        failure(&data(0x1007, "9x9x9", 1, "")),
        vec!["2x2x2/1 >= 1060", "3x3x3/0 >= 1030"]
    );
    assert!(failure(&data(0x1007, "8x8x8", 1, "")).is_empty());
}

#[test]
fn stale_gossip_is_overridden() {
    for (failcode, header) in [(0x100b, 8), (0x100d, 4), (0x100e, 0)] {
        let raw = raw_message(failcode, header, 777, 9);
        let d = data(failcode as u64, "3x3x3", 0, &raw);
        assert_eq!(failure(&d), vec!["3x3x3/0 base 777"]);
    }
    // Nothing to read: nothing learned.
    assert!(failure(&data(0x100d, "3x3x3", 0, "zz")).is_empty());
    assert!(failure(&data(0x100d, "3x3x3", 0, &raw_message(0x100d, 4, 0, 0))).is_empty());
}

fn policy(base: u32, htlc_max: u64) -> ChanUpdate {
    ChanUpdate {
        enabled: true,
        cltv_expiry_delta: 0,
        htlc_minimum_msat: 0,
        fee_base_msat: base,
        fee_proportional_millionths: 0,
        htlc_maximum_msat: htlc_max,
        inbound_fee: None,
    }
}

#[test]
fn a_repeated_policy_excludes_the_channel() {
    let raw = raw_message(0x100d, 4, 777, 9);
    let d = data(0x100d, "3x3x3", 0, &raw);
    let mut store = Overrides::new(100);
    let gossip = Some(policy(777, 9));
    assert_eq!(
        short(&failure_feedback(&hops(), &d, None, &store, gossip, 50)),
        vec!["3x3x3/0 out"]
    );
    let gossip = Some(policy(778, 9));
    assert_eq!(
        short(&failure_feedback(&hops(), &d, None, &store, gossip, 50)),
        vec!["3x3x3/0 base 777"]
    );
    store.record_policy("3x3x3/0", policy(777, 9), 40);
    assert_eq!(
        short(&failure_feedback(&hops(), &d, None, &store, None, 50)),
        vec!["3x3x3/0 out"]
    );
    // The stored policy has expired.
    assert_eq!(
        short(&failure_feedback(&hops(), &d, None, &store, None, 141)),
        vec!["3x3x3/0 base 777"]
    );
}

#[test]
fn a_vanished_channel_is_excluded() {
    assert_eq!(failure(&data(0x400a, "3x3x3", 0, "")), vec!["3x3x3/0 out"]);
    // Our own return channel no less.
    assert_eq!(failure(&data(0x400a, "9x9x9", 1, "")), vec!["4x4x4/1 out"]);
}

#[test]
fn insufficient_fees_are_attributed() {
    // The route allocated 1060 - 1030 = 30 at the erring node.
    let covered = raw_message(0x100c, 8, 30, 9);
    assert_eq!(
        failure(&data(0x100c, "3x3x3", 0, &covered)),
        vec!["2x2x2/1 out"]
    );
    let stale = raw_message(0x100c, 8, 31, 9);
    assert_eq!(
        failure(&data(0x100c, "3x3x3", 0, &stale)),
        vec!["3x3x3/0 base 31"]
    );
    // Blanked: both candidates.
    let blank = raw_message(0x100c, 8, 0, 0);
    assert_eq!(
        failure(&data(0x100c, "3x3x3", 0, &blank)),
        vec!["2x2x2/1 out", "3x3x3/0 out"]
    );
    assert_eq!(
        failure(&data(0x100c, "3x3x3", 0, "100c00000000000000000000")),
        vec!["2x2x2/1 out", "3x3x3/0 out"]
    );
    // Our own first hop is the incoming channel where our peer surcharges.
    assert_eq!(
        failure(&data(0x100c, "2x2x2", 1, &blank)),
        vec!["1x1x1/0 out", "2x2x2/1 out"]
    );
    assert_eq!(
        failure(&data(0x100c, "2x2x2", 1, &raw_message(0x100c, 8, 1, 9))),
        vec!["1x1x1/0 out"]
    );
    // Our return hop is the outgoing channel of the last forwarder.
    assert_eq!(
        failure(&data(0x100c, "9x9x9", 1, &raw_message(0x100c, 8, 31, 9))),
        vec!["4x4x4/1 base 31"]
    );
}

#[test]
fn node_failures_disable_the_node() {
    for failcode in [0x2002, 0x6002, 0x6003] {
        assert_eq!(failure(&data(failcode, "3x3x3", 0, "")), vec!["02bb off"]);
    }
    let d = data(0x2002, "3x3x3", 0, "");
    let store = Overrides::new(100);
    let learned = |us| short(&failure_feedback(&hops(), &d, us, &store, None, 50));
    // Never our own node, nor any while we do not know who we are.
    assert!(learned(Some("02bb")).is_empty());
    assert!(learned(None).is_empty());
}

#[test]
fn other_failures_teach_nothing() {
    for failcode in [0x400f, 0x4008, 0x1014] {
        assert!(failure(&data(failcode, "3x3x3", 0, "")).is_empty());
    }
    assert!(failure(&json("{}")).is_empty());
}

#[test]
fn lessons_reach_the_store() {
    let mut store = Overrides::new(100);
    let excluded = Lesson::Exclude {
        scidd: "1x1x1/0".into(),
    };
    assert!(learn(&mut store, &excluded, 10));
    let off = Lesson::DisableNode {
        node: "02aa".into(),
    };
    assert!(learn(&mut store, &off, 10));
    let priced = Lesson::Policy {
        scidd: "2x2x2/1".into(),
        policy: policy(5, 6),
    };
    assert!(learn(&mut store, &priced, 10));
    let carried = Lesson::Liquidity {
        scidd: "3x3x3/0".into(),
        amount_msat: 1,
        constrained: false,
    };
    assert!(!learn(&mut store, &carried, 10));
    assert_eq!(store.counts(), (1, 1, 1));
    assert!(store.is_repeat("2x2x2/1", &policy(5, 6), 20));
}

#[test]
fn gossip_is_read_per_direction() {
    let listed = json(
        r#"{"channels": [
            {"short_channel_id": "3x3x3", "direction": 1, "active": true, "delay": 1,
             "htlc_minimum_msat": 1, "base_fee_millisatoshi": 1, "fee_per_millionth": 1,
             "htlc_maximum_msat": 1},
            {"short_channel_id": "3x3x3", "direction": 0, "active": false, "delay": 34,
             "htlc_minimum_msat": 1000, "base_fee_millisatoshi": 2, "fee_per_millionth": 3,
             "htlc_maximum_msat": 4}]}"#,
    );
    let p = gossip_policy(&listed, "3x3x3/0").unwrap();
    assert!(!p.enabled);
    assert_eq!(p.cltv_expiry_delta, 34);
    assert_eq!((p.htlc_minimum_msat, p.htlc_maximum_msat), (1000, 4));
    assert_eq!((p.fee_base_msat, p.fee_proportional_millionths), (2, 3));
    assert!(gossip_policy(&listed, "3x3x3/1").unwrap().enabled);
    assert!(gossip_policy(&listed, "4x4x4/0").is_none());
    assert!(gossip_policy(&json("{}"), "3x3x3/0").is_none());
}

#[test]
fn inform_keys_tell_the_kinds_apart() {
    assert_eq!(inform_key("1x1x1/0", true), "1x1x1/0|constrained");
    assert_eq!(inform_key("1x1x1/0", false), "1x1x1/0|unconstrained");
}

#[test]
fn liquidity_becomes_a_write_and_nothing_else_does() {
    for constrained in [false, true] {
        let w = liquidity_write(&Lesson::Liquidity {
            scidd: "1x1x1/0".into(),
            amount_msat: 9,
            constrained,
        })
        .unwrap();
        assert_eq!(w.key, inform_key("1x1x1/0", constrained));
        assert_eq!((w.is_lower_bound, w.amount_msat), (!constrained, 9));
        assert!(matches!(
            w.op,
            LayerOp::Inform { scidd, amount_msat: 9, constrained: c }
                if scidd == "1x1x1/0" && c == constrained
        ));
    }
    assert!(liquidity_write(&Lesson::Exclude {
        scidd: "1x1x1/0".into()
    })
    .is_none());
}
