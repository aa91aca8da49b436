use serde_json::Value;
use sha2::{Digest, Sha256};
use xrebalance::claims::{Claims, HtlcDecision};
use xrebalance::exec::{launch, launch_with};
use xrebalance::json::Json;
use xrebalance::table::Table;

fn to_json(v: &Value) -> Json {
    match v {
        Value::Null => Json::Null,
        Value::Bool(b) => Json::Bool(*b),
        Value::Number(n) => match (n.as_u64(), n.as_i64()) {
            (Some(u), _) => Json::Uint(u),
            (None, Some(i)) => Json::Int(i),
            _ => Json::Real(n.to_string()),
        },
        Value::String(s) => Json::Str(s.clone()),
        Value::Array(a) => Json::Array(a.iter().map(to_json).collect()),
        Value::Object(m) => {
            Json::Object(m.iter().map(|(k, v)| (k.clone(), to_json(v))).collect())
        }
    }
}

fn json(text: &str) -> Json {
    to_json(&serde_json::from_str::<Value>(text).unwrap())
}

fn htlc(hash: &str, secret: &str, amount: u64) -> Json {
    json(&format!(
        r#"{{"htlc": {{"payment_hash": "{hash}", "amount_msat": {amount}}},
             "onion": {{"payment_secret": "{secret}"}}}}"#
    ))
}

#[test]
fn a_registered_part_is_claimed_once() {
    let mut claims = Claims::new();
    let r = claims.register(&[0u8; 32], &[0xabu8; 32], 1_000, 5);
    // The SHA-256 of 32 zero bytes.
    assert_eq!(
        r.payment_hash,
        "66687aadf862bd776c8fc18b8e9f8e20089714856ee233b3902a591d0d5f2925"
    );
    assert_eq!(r.payment_secret, "ab".repeat(32));
    assert_eq!(claims.len(), 1);
    let v = htlc(&r.payment_hash, &r.payment_secret, 1_000);
    assert_eq!(
        claims.htlc_accepted(&v),
        HtlcDecision::Resolve {
            payment_key: "00".repeat(32)
        }
    );
    assert_eq!(claims.len(), 0);
    assert_eq!(claims.htlc_accepted(&v), HtlcDecision::Continue);
}

#[test]
fn strangers_are_passed_on_and_cost_nothing() {
    let mut claims = Claims::new();
    let a = claims.register(&[1u8; 32], &[2u8; 32], 1_000, 5);
    let b = claims.register(&[3u8; 32], &[4u8; 32], 1_000, 5);
    for v in [
        json("{}"),
        json(r#"{"htlc": {}}"#),
        htlc("00", &a.payment_secret, 1_000),
        htlc(&a.payment_hash, &b.payment_secret, 1_000),
        htlc(&a.payment_hash, "", 1_000),
        // Short: one msat less than the part delivers.
        htlc(&a.payment_hash, &a.payment_secret, 999),
        json(&format!(
            r#"{{"htlc": {{"payment_hash": "{}"}}}}"#,
            a.payment_hash
        )),
    ] {
        assert_eq!(claims.htlc_accepted(&v), HtlcDecision::Continue);
    }
    assert_eq!(claims.len(), 2);
    let v = htlc(&a.payment_hash, &a.payment_secret, 1_001);
    assert!(matches!(
        claims.htlc_accepted(&v),
        HtlcDecision::Resolve { .. }
    ));
    let v = htlc(&b.payment_hash, &b.payment_secret, 1_000);
    assert!(matches!(
        claims.htlc_accepted(&v),
        HtlcDecision::Resolve { payment_key } if payment_key == "03".repeat(32)
    ));
}

const ROUTE: &str = r#"{"path": [
    {"short_channel_id_dir": "1x1x1/0", "node_id_out": "02aa",
     "amount_in_msat": 1010, "amount_out_msat": 1010},
    {"short_channel_id_dir": "3x3x3/1", "node_id_out": "02ee", "amount_out_msat": 1000}]}"#;

#[test]
fn launched_parts_are_independent() {
    let mut claims = Claims::new();
    let route = json(ROUTE);
    let none = Table::new();
    let a = launch(&mut claims, &route, &none, 0, 7).unwrap();
    let b = launch(&mut claims, &route, &none, 1, 7).unwrap();
    assert_ne!(a.part.payment_hash, b.part.payment_hash);
    assert_ne!(a.payment_secret, b.payment_secret);
    assert_eq!(a.part.payment_hash.len(), 64);
    assert_eq!(a.payment_secret.len(), 64);
    assert_eq!((a.part.part_index, b.part.part_index), (1, 2));
    assert_eq!(a.route.len(), 2);
    assert_eq!(claims.len(), 2);
    // The claim is for what the part delivers.
    let short = htlc(&a.part.payment_hash, &a.payment_secret, 999);
    assert_eq!(claims.htlc_accepted(&short), HtlcDecision::Continue);
    let whole = htlc(&a.part.payment_hash, &a.payment_secret, 1000);
    match claims.htlc_accepted(&whole) {
        HtlcDecision::Resolve { payment_key } => {
            assert_eq!(payment_key.len(), 64);
            let preimage = hex::decode(payment_key).unwrap();
            assert_eq!(hex::encode(Sha256::digest(preimage)), a.part.payment_hash);
        }
        HtlcDecision::Continue => panic!("not claimed"),
    }
    assert_eq!(claims.len(), 1);
}

#[test]
fn a_route_that_cannot_be_sent_registers_nothing() {
    let mut claims = Claims::new();
    assert!(launch(&mut claims, &json(r#"{"path": [{}]}"#), &Table::new(), 0, 7).is_err());
    assert_eq!(claims.len(), 0);
}

#[test]
fn a_given_preimage_is_registered_under_its_hash() {
    let mut claims = Claims::new();
    let route = json(ROUTE);
    let none = Table::new();
    let p = launch_with(&mut claims, &route, &none, 2, &[0u8; 32], &[1u8; 32], 7).unwrap();
    assert_eq!(
        p.part.payment_hash,
        "66687aadf862bd776c8fc18b8e9f8e20089714856ee233b3902a591d0d5f2925"
    );
    assert_eq!(p.payment_secret, "01".repeat(32));
    assert_eq!(p.part.part_index, 3);
    assert_eq!((p.part.planned_msat, p.part.planned_sent_msat), (1000, 1010));
}

#[test]
fn dropped_and_stale_claims_are_gone() {
    let mut claims = Claims::new();
    let a = claims.register(&[1u8; 32], &[2u8; 32], 10, 100);
    let b = claims.register(&[3u8; 32], &[4u8; 32], 10, 101);
    claims.prune(100 + 86_400);
    assert_eq!(claims.len(), 2);
    claims.prune(101 + 86_400);
    assert_eq!(claims.len(), 1);
    assert_eq!(
        claims.htlc_accepted(&htlc(&a.payment_hash, &a.payment_secret, 10)),
        HtlcDecision::Continue
    );
    claims.drop_claim("unknown");
    assert_eq!(claims.len(), 1);
    claims.drop_claim(&b.payment_hash);
    assert_eq!(claims.len(), 0);
}
