use serde_json::Value;
use xrebalance::chan_spec::ChanSpec;
use xrebalance::channels::{dir, scidd_of, usable_channels};
use xrebalance::json::Json;
use xrebalance::layer::{
    age_cutoff, override_ops, persistent_layer_exists, split_layer, split_layer_name, LayerOp,
    FAKE_US_IN, PERSISTENT_LAYER,
};
use xrebalance::onion_error::ChanUpdate;
use xrebalance::overrides::{Overrides, Snapshot};

fn to_json(v: &Value) -> Json {
    match v {
        Value::Null => Json::Null,
        Value::Bool(b) => Json::Bool(*b),
        Value::Number(n) => match (n.as_u64(), n.as_i64()) {
            (Some(u), _) => Json::Uint(u),
            (None, Some(i)) => Json::Int(i),
            _ => Json::Real(n.to_string()),
        },
        Value::String(s) => Json::Str(s.clone()),
        Value::Array(a) => Json::Array(a.iter().map(to_json).collect()),
        Value::Object(m) => {
            Json::Object(m.iter().map(|(k, v)| (k.clone(), to_json(v))).collect())
        }
    }
}

fn json(text: &str) -> Json {
    to_json(&serde_json::from_str::<Value>(text).unwrap())
}

fn spec(scid: &str, max_msat: Option<u64>) -> ChanSpec {
    ChanSpec {
        scid: scid.to_owned(),
        max_msat,
    }
}

fn nothing() -> Snapshot {
    Overrides::new(100).snapshot(0)
}

const US: &str = "02ee";

const CHANNELS: &str = r#"{"channels": [
    {"state": "CHANNELD_NORMAL", "short_channel_id": "1x1x1", "peer_id": "02aa",
     "spendable_msat": 1000000, "receivable_msat": 5},
    {"state": "CHANNELD_NORMAL", "short_channel_id": "2x2x2", "peer_id": "03bb",
     "spendable_msat": 7, "receivable_msat": 2000000, "private": true,
     "alias": {"local": "8x8x8", "remote": "9x9x9"},
     "updates": {"remote": {"htlc_minimum_msat": 50000, "htlc_maximum_msat": 1500000,
                            "fee_base_msat": 11, "fee_proportional_millionths": 21}}},
    {"state": "CHANNELD_NORMAL", "short_channel_id": "3x3x3", "peer_id": "02cc",
     "spendable_msat": 500, "receivable_msat": 600, "alias": {"remote": "7x7x7"}},
    {"state": "CHANNELD_NORMAL", "peer_id": "02dd"},
    {"state": "AWAITING_UNILATERAL", "short_channel_id": "4x4x4", "peer_id": "02dd"}
]}"#;

#[test]
fn only_normal_named_channels_are_usable() {
    let lpc = json(CHANNELS);
    let chans = usable_channels(&lpc);
    assert_eq!(chans.len(), 3);
    assert!(chans.get("4x4x4").is_none());
    let two = chans.get("2x2x2").unwrap();
    assert_eq!(two.peer_id, "03bb");
    assert_eq!((two.spendable_msat, two.receivable_msat), (7, 2_000_000));
    assert_eq!(two.onion_scid.as_deref(), Some("9x9x9"));
    assert_eq!(
        two.remote_update.unwrap().uint_at("fee_base_msat"),
        Some(11)
    );
    // An announced channel is named by its own scid in the onion.
    assert!(chans.get("3x3x3").unwrap().onion_scid.is_none());
    assert!(chans.get("3x3x3").unwrap().remote_update.is_none());
    assert_eq!(usable_channels(&json("{}")).len(), 0);
}

#[test]
fn directions_follow_the_lesser_id() {
    assert_eq!(dir("02aa", "03bb"), 0);
    assert_eq!(dir("03bb", "02aa"), 1);
    assert_eq!(scidd_of("1x1x1", dir("02aa", US)), "1x1x1/0");
    assert_eq!(scidd_of("1x1x1", dir(US, "02aa")), "1x1x1/1");
}

#[test]
fn destinations_are_mirrored() {
    let lpc = json(CHANNELS);
    let chans = usable_channels(&lpc);
    let split = split_layer(
        US,
        &chans,
        &[spec("1x1x1", None)],
        &[spec("2x2x2", Some(1_600_000))],
        &nothing(),
        1_000,
    );
    let mirror = scidd_of("16000000x1x0", dir("03bb", FAKE_US_IN));
    match &split.ops[0] {
        LayerOp::CreateChannel {
            source,
            destination,
            scid,
            capacity_msat,
        } => {
            assert_eq!(source, "03bb");
            assert_eq!(destination, FAKE_US_IN);
            assert_eq!(scid, "16000000x1x0");
            // The cap binds below what the channel can receive.
            assert_eq!(*capacity_msat, 1_600_000);
        }
        other => panic!("{other:?}"),
    }
    match &split.ops[1] {
        LayerOp::CopyPolicy {
            scidd,
            htlc_minimum_msat,
            htlc_maximum_msat,
            fee_base_msat,
            fee_proportional_millionths,
            cltv_expiry_delta,
        } => {
            assert_eq!(*scidd, mirror);
            assert_eq!(*htlc_minimum_msat, 50_000);
            assert!(matches!(htlc_maximum_msat, Some(Json::Uint(1_500_000))));
            assert!(matches!(fee_base_msat, Some(Json::Uint(11))));
            assert!(matches!(fee_proportional_millionths, Some(Json::Uint(21))));
            assert!(cltv_expiry_delta.is_none());
        }
        other => panic!("{other:?}"),
    }
    // What is known is bounded by the peer's htlc maximum.
    for (op, amount, bound) in [(2, 1_500_000, false), (3, 1_500_001, true)] {
        match &split.ops[op] {
            LayerOp::Inform {
                scidd,
                amount_msat,
                constrained,
            } => {
                assert_eq!(*scidd, mirror);
                assert_eq!((*amount_msat, *constrained), (amount, bound));
            }
            other => panic!("{other:?}"),
        }
    }
    let home = scidd_of("2x2x2", dir("03bb", US));
    assert_eq!(split.unsplit.get(&mirror), Some(&home));
    assert_eq!(split.onion_scids.get(&home).map(String::as_str), Some("9x9x9"));
}

#[test]
fn the_fragment_floor_raises_the_minimum() {
    let lpc = json(CHANNELS);
    let chans = usable_channels(&lpc);
    let split = split_layer(US, &chans, &[], &[spec("2x2x2", Some(0))], &nothing(), 1_000_000);
    match &split.ops[1] {
        LayerOp::CopyPolicy {
            htlc_minimum_msat, ..
        } => assert_eq!(*htlc_minimum_msat, 1_000_000),
        other => panic!("{other:?}"),
    }
    // A cap of 0 leaves nothing known to fit: one bound, at 1msat.
    match &split.ops[2] {
        LayerOp::Inform {
            amount_msat,
            constrained,
            ..
        } => assert_eq!((*amount_msat, *constrained), (1, true)),
        other => panic!("{other:?}"),
    }
    assert!(matches!(&split.ops[3], LayerOp::Disable { .. }));
}

fn masks(sources: &[ChanSpec]) -> Vec<(String, Option<u64>)> {
    let lpc = json(CHANNELS);
    let chans = usable_channels(&lpc);
    split_layer(US, &chans, sources, &[], &nothing(), 0)
        .ops
        .iter()
        .map(|op| match op {
            LayerOp::Disable { scidd } => (scidd.clone(), None),
            LayerOp::Inform {
                scidd,
                amount_msat,
                constrained: true,
            } => (scidd.clone(), Some(*amount_msat)),
            other => panic!("{other:?}"),
        })
        .collect()
}

#[test]
fn masks_close_everything_but_the_sources() {
    let m = masks(&[spec("1x1x1", Some(999)), spec("3x3x3", Some(500))]);
    for (scid, peer) in [("1x1x1", "02aa"), ("2x2x2", "03bb"), ("3x3x3", "02cc")] {
        assert!(m.contains(&(scidd_of(scid, dir(peer, US)), None)));
    }
    // The unnamed channel's outbound side is closed.
    assert!(m.contains(&(scidd_of("2x2x2", dir(US, "03bb")), None)));
    // A binding cap is a bound just above it; one that does not bind is
    // no write.
    assert!(m.contains(&(scidd_of("1x1x1", dir(US, "02aa")), Some(1_000))));
    assert_eq!(m.len(), 5);
    let m = masks(&[spec("1x1x1", None), spec("2x2x2", Some(0)), spec("3x3x3", None)]);
    assert!(m.contains(&(scidd_of("2x2x2", dir(US, "03bb")), Some(1))));
    assert_eq!(m.len(), 4);
}

#[test]
fn mirrors_of_two_destinations_differ() {
    let text = CHANNELS.replace(
        r#""spendable_msat": 500, "receivable_msat": 600,"#,
        r#""receivable_msat": 600, "updates": {"remote": {}},"#,
    );
    let lpc = json(&text);
    let chans = usable_channels(&lpc);
    let split = split_layer(
        US,
        &chans,
        &[],
        &[spec("3x3x3", None), spec("2x2x2", None)],
        &nothing(),
        0,
    );
    let first = scidd_of("16000000x1x0", dir("02cc", FAKE_US_IN));
    let second = scidd_of("16000000x2x0", dir("03bb", FAKE_US_IN));
    assert_ne!(first, second);
    assert_eq!(
        split.unsplit.get(&first),
        Some(&scidd_of("3x3x3", dir("02cc", US)))
    );
    assert_eq!(
        split.unsplit.get(&second),
        Some(&scidd_of("2x2x2", dir("03bb", US)))
    );
    assert_eq!(split.unsplit.len(), 2);
}

#[test]
fn overrides_become_writes() {
    let policy = ChanUpdate {
        enabled: true,
        cltv_expiry_delta: 1,
        htlc_minimum_msat: 2,
        fee_base_msat: 3,
        fee_proportional_millionths: 4,
        htlc_maximum_msat: 5,
        inbound_fee: None,
    };
    let mut o = Overrides::new(100);
    o.record_exclusion("3x3x3/1", 10);
    o.record_disabled_node("02aa", 10);
    o.record_policy("1x1x1/0", policy, 10);
    let ops = override_ops(&o.snapshot(20));
    assert_eq!(ops.len(), 3);
    match &ops[0] {
        LayerOp::SetPolicy { scidd, policy: p } => {
            assert_eq!(scidd, "1x1x1/0");
            assert!(p.same_policy(&policy));
        }
        other => panic!("{other:?}"),
    }
    assert!(matches!(&ops[1], LayerOp::DisableNode { node } if node == "02aa"));
    assert!(matches!(
        &ops[2],
        LayerOp::Inform { scidd, amount_msat: 1, constrained: true } if scidd == "3x3x3/1"
    ));
}

#[test]
fn layer_names_are_per_request() {
    assert_eq!(split_layer_name(255, 42, 7), "xrebalance-req-ff-42-7");
    let names = [
        split_layer_name(1, 2, 3),
        split_layer_name(2, 2, 3),
        split_layer_name(1, 3, 3),
        split_layer_name(1, 2, 4),
        split_layer_name(1, 23, 0),
        split_layer_name(0x12, 3, 0),
    ];
    for (i, a) in names.iter().enumerate() {
        assert_ne!(a, PERSISTENT_LAYER);
        for b in &names[i + 1..] {
            assert_ne!(a, b);
        }
    }
}

#[test]
fn the_persistent_layer_is_found_by_name() {
    assert!(persistent_layer_exists(&json(
        r#"{"layers": [{"layer": "xpay"}, {"layer": "xrebalance"}]}"#
    )));
    assert!(!persistent_layer_exists(&json(
        r#"{"layers": [{"layer": "xrebalance-req-1-2-3"}, {}]}"#
    )));
    assert!(!persistent_layer_exists(&json("{}")));
}

#[test]
fn the_age_cutoff_never_wraps() {
    assert_eq!(age_cutoff(1_000, 100), 900);
    assert_eq!(age_cutoff(1_000, 1_001), 0);
}

#[test]
fn what_was_learned_of_a_return_direction_reaches_its_mirror() {
    let lpc = json(CHANNELS);
    let chans = usable_channels(&lpc);
    let home = scidd_of("2x2x2", dir("03bb", US));
    let mirror = scidd_of("16000000x1x0", dir("03bb", FAKE_US_IN));
    let mut o = Overrides::new(100);
    o.record_exclusion(&home, 10);
    o.record_policy(
        &home,
        ChanUpdate {
            enabled: true,
            cltv_expiry_delta: 1,
            htlc_minimum_msat: 2,
            fee_base_msat: 3,
            fee_proportional_millionths: 4,
            htlc_maximum_msat: 5,
            inbound_fee: None,
        },
        10,
    );
    let to = [spec("2x2x2", None)];
    let split = split_layer(US, &chans, &[], &to, &o.snapshot(20), 1_000);
    // Behind the mirror's own four writes; the floor stays.
    assert!(matches!(
        &split.ops[4],
        LayerOp::SetPolicy { scidd, policy }
            if *scidd == mirror
                && (policy.htlc_minimum_msat, policy.fee_base_msat) == (1_000, 3)
    ));
    assert!(matches!(
        &split.ops[5],
        LayerOp::Inform { scidd, amount_msat: 1, constrained: true } if *scidd == mirror
    ));
    // Once it has expired, it does not.
    let split = split_layer(US, &chans, &[], &to, &o.snapshot(111), 1_000);
    assert!(matches!(&split.ops[4], LayerOp::Disable { .. }));
}
