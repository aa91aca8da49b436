use serde_json::Value;
use xrebalance::chan_spec::{find_duplicate, parse_limit, ChanSpec, SpecError};
use xrebalance::json::Json;

fn to_json(v: &Value) -> Json {
    match v {
        Value::Null => Json::Null,
        Value::Bool(b) => Json::Bool(*b),
        Value::Number(n) => match (n.as_u64(), n.as_i64()) {
            (Some(u), _) => Json::Uint(u),
            (None, Some(i)) => Json::Int(i),
            _ => Json::Real(n.to_string()),
        },
        Value::String(s) => Json::Str(s.clone()),
        Value::Array(a) => Json::Array(a.iter().map(to_json).collect()),
        Value::Object(m) => {
            Json::Object(m.iter().map(|(k, v)| (k.clone(), to_json(v))).collect())
        }
    }
}

fn json(text: &str) -> Json {
    to_json(&serde_json::from_str::<Value>(text).unwrap())
}

fn parse(text: &str) -> Result<ChanSpec, String> {
    ChanSpec::from_value(&json(text)).map_err(|e| e.message())
}

fn spec(scid: &str, max_msat: Option<u64>) -> ChanSpec {
    ChanSpec {
        scid: scid.to_owned(),
        max_msat,
    }
}

#[test]
fn bare_scid_has_no_cap() {
    assert_eq!(parse(r#""845123x1x0""#), Ok(spec("845123x1x0", None)));
}

#[test]
fn colon_limit_is_msat() {
    assert_eq!(
        parse(r#""845123x1x0:250000""#),
        Ok(spec("845123x1x0", Some(250_000)))
    );
}

#[test]
fn msat_and_sat_suffixes() {
    assert_eq!(
        parse(r#""845123x1x0:250000msat""#),
        Ok(spec("845123x1x0", Some(250_000)))
    );
    assert_eq!(
        parse(r#""845123x1x0:250sat""#),
        Ok(spec("845123x1x0", Some(250_000)))
    );
}

#[test]
fn zero_cap_is_allowed() {
    // An explicit 0 excludes the channel from this request;
    // mechanical callers produce it at band edges.
    assert_eq!(parse(r#""845123x1x0:0""#), Ok(spec("845123x1x0", Some(0))));
}

#[test]
fn object_form() {
    assert_eq!(
        parse(r#"{"scid": "845123x1x0", "max_msat": 250000}"#),
        Ok(spec("845123x1x0", Some(250_000)))
    );
    assert_eq!(
        parse(r#"{"scid": "845123x1x0"}"#),
        Ok(spec("845123x1x0", None))
    );
}

#[test]
fn bad_strings_are_rejected() {
    for bad in [
        r#""845123x1x0:""#,        // empty limit
        r#"":100000""#,            // empty scid
        r#""845123x1x0:1:2""#,     // two colons
        r#""845123x1x0:12.5sat""#, // fractional
        r#""845123x1x0:-1""#,      // negative
        r#""845123x1x0:sat""#,     // no digits
        r#""845123x1x0:99btc""#,   // unsupported unit
    ] {
        assert!(parse(bad).is_err(), "accepted {bad}");
    }
}

#[test]
fn bad_objects_are_rejected() {
    for bad in [
        r#"{"max_msat": 1}"#,                          // no scid
        r#"{"scid": "845123x1x0", "max_sat": 1}"#,     // typo field
        r#"{"scid": "845123x1x0", "max_msat": -5}"#,   // negative
        r#"{"scid": "845123x1x0", "max_msat": "1x"}"#, // non-numeric
        r#"42"#,                                       // wrong type
    ] {
        assert!(parse(bad).is_err(), "accepted {bad}");
    }
}

#[test]
fn overflow_limits_are_rejected() {
    assert!(parse(r#""845123x1x0:18446744073709551615sat""#).is_err());
    assert_eq!(
        parse(r#""845123x1x0:18446744073709551615msat""#),
        Ok(spec("845123x1x0", Some(u64::MAX)))
    );
}

#[test]
fn capped_takes_the_smaller() {
    assert_eq!(spec("s", None).capped(7), 7);
    assert_eq!(spec("s", Some(5)).capped(7), 5);
    assert_eq!(spec("s", Some(9)).capped(7), 7);
    assert_eq!(spec("s", Some(0)).capped(7), 0);
}

#[test]
fn duplicates_are_found() {
    let specs = [spec("a", None), spec("b", Some(1)), spec("a", Some(2))];
    assert_eq!(find_duplicate(&specs), Some("a"));
    assert_eq!(find_duplicate(&specs[..2]), None);
    assert_eq!(find_duplicate(&[]), None);
}

#[test]
fn each_refusal_says_what_is_wrong() {
    let refused = |text: &str| ChanSpec::from_value(&json(text)).unwrap_err();
    assert_eq!(refused(r#"":1""#), SpecError::MissingScid(":1".into()));
    assert_eq!(refused(r#"":1""#).message(), "\":1\": missing scid before ':'");
    assert_eq!(refused(r#""a:""#), SpecError::MissingLimit("a:".into()));
    assert_eq!(refused(r#""a:""#).message(), "\"a:\": missing limit after ':'");
    assert_eq!(refused(r#""a:1:2""#), SpecError::ExtraColon("a:1:2".into()));
    assert_eq!(refused(r#""a:1:2""#).message(), "\"a:1:2\": more than one ':'");
    assert_eq!(refused(r#""a:x""#), SpecError::InvalidLimit("x".into()));
    assert_eq!(refused(r#""a:x""#).message(), "invalid limit \"x\"");
    let big = "18446744073709551616sat";
    assert_eq!(parse_limit(big), Err(SpecError::InvalidLimit(big.into())));
    let over = "18446744073709552sat";
    assert_eq!(parse_limit(over), Err(SpecError::LimitOverflow(over.into())));
    assert_eq!(
        parse_limit(over).unwrap_err().message(),
        "limit \"18446744073709552sat\" overflows msat"
    );
    assert_eq!(
        refused(r#"{"scid": "a", "max": 1}"#).message(),
        "unknown field \"max\" (expected scid, max_msat)"
    );
    assert_eq!(
        refused(r#"{"max_msat": 1}"#).message(),
        "channel object needs a \"scid\" string"
    );
    assert_eq!(
        refused(r#"{"scid": "a", "max_msat": 1.5}"#).message(),
        "a: max_msat must be a non-negative integer"
    );
    assert_eq!(refused("[]"), SpecError::WrongType);
    assert_eq!(
        refused("[]").message(),
        "each channel is a string \"scid[:limit]\" or an object {\"scid\": ..., \"max_msat\": ...}"
    );
}

#[test]
fn a_null_cap_is_no_cap() {
    assert_eq!(
        parse(r#"{"scid": "a", "max_msat": null}"#),
        Ok(spec("a", None))
    );
}

#[test]
fn spellings_agree() {
    let digits = parse(r#""845123x1x0:7000""#);
    assert_eq!(parse(r#""845123x1x0:7000msat""#), digits);
    assert_eq!(parse(r#""845123x1x0:7sat""#), digits);
    assert_eq!(
        parse(r#"{"scid": "845123x1x0", "max_msat": 7000}"#),
        digits
    );
    assert_eq!(parse_limit("+7"), Ok(7));
}
