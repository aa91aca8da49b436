use serde_json::Value;
use xrebalance::config::{
    change, read_change, startup, stores, ConfigError, OptionKey, Settings, StartupValues,
    DEFAULT_CONSTRAINT_AGE, DEFAULT_FINAL_CLTV, DEFAULT_MAX_ROUNDS, DEFAULT_MIN_PART,
    DEFAULT_OVERRIDE_AGE, DEFAULT_PART_WAIT,
};
use xrebalance::json::Json;

fn to_json(v: &Value) -> Json {
    match v {
        Value::Null => Json::Null,
        Value::Bool(b) => Json::Bool(*b),
        Value::Number(n) => match (n.as_u64(), n.as_i64()) {
            (Some(u), _) => Json::Uint(u),
            (None, Some(i)) => Json::Int(i),
            _ => Json::Real(n.to_string()),
        },
        Value::String(s) => Json::Str(s.clone()),
        Value::Array(a) => Json::Array(a.iter().map(to_json).collect()),
        Value::Object(m) => {
            Json::Object(m.iter().map(|(k, v)| (k.clone(), to_json(v))).collect())
        }
    }
}

fn json(text: &str) -> Json {
    to_json(&serde_json::from_str::<Value>(text).unwrap())
}

fn defaults() -> StartupValues {
    StartupValues {
        constraint_age: DEFAULT_CONSTRAINT_AGE,
        override_age: DEFAULT_OVERRIDE_AGE,
        part_wait: DEFAULT_PART_WAIT,
        min_part: DEFAULT_MIN_PART,
        max_rounds: DEFAULT_MAX_ROUNDS,
        final_cltv: DEFAULT_FINAL_CLTV,
    }
}

#[test]
fn the_defaults_start() {
    assert_eq!(
        startup(&defaults()),
        Ok(Settings {
            constraint_age: 21_600,
            override_age: 60 * 60,
            part_wait_secs: 30,
            min_part_msat: 1_000_000,
            max_rounds: 50,
            final_cltv: 40,
        })
    );
}

#[test]
fn bad_startup_values_are_refused() {
    let refused = |edit: fn(&mut StartupValues)| {
        let mut s = defaults();
        edit(&mut s);
        startup(&s).unwrap_err().message()
    };
    assert_eq!(
        refused(|s| s.constraint_age = -1),
        "xrebalance-constraint-age must be positive"
    );
    assert_eq!(
        refused(|s| s.override_age = -1),
        "xrebalance-override-age must be positive"
    );
    assert_eq!(
        refused(|s| s.part_wait = -1),
        "xrebalance-part-wait must be positive"
    );
    assert_eq!(
        refused(|s| s.min_part = -1),
        "xrebalance-min-part-msat must not be negative"
    );
    assert_eq!(
        refused(|s| s.max_rounds = 0),
        "xrebalance-max-rounds must be at least 1"
    );
    assert_eq!(
        refused(|s| s.final_cltv = 0),
        "xrebalance-final-cltv must be at least 1"
    );
    let mut zeros = defaults();
    zeros.constraint_age = 0;
    zeros.min_part = 0;
    assert!(startup(&zeros).is_ok());
}

#[test]
fn changes_are_read() {
    let read = |text: &str| read_change(&json(text));
    assert_eq!(
        read(r#"{"config": "xrebalance-part-wait", "val": 5}"#),
        Ok((OptionKey::PartWait, 5))
    );
    assert_eq!(
        read(r#"{"config": "xrebalance-min-part-msat", "val": "250"}"#),
        Ok((OptionKey::MinPart, 250))
    );
    assert_eq!(read(r#"{"val": 5}"#), Err(ConfigError::MissingName));
    let message = |text: &str| read(text).unwrap_err().message();
    assert_eq!(message("{}"), "setconfig: missing config name");
    assert_eq!(
        message(r#"{"config": "xrebalance-part-wait"}"#),
        "xrebalance-part-wait: value is not an integer"
    );
    assert_eq!(
        message(r#"{"config": "xrebalance-part-wait", "val": 1.5}"#),
        "xrebalance-part-wait: value is not an integer"
    );
    assert_eq!(
        message(r#"{"config": "xrebalance-part-wait", "val": 9223372036854775808}"#),
        "xrebalance-part-wait: value is not an integer"
    );
    assert_eq!(
        message(r#"{"config": "xrebalance-part-wait", "val": "-3"}"#),
        "xrebalance-part-wait must not be negative"
    );
    assert_eq!(
        message(r#"{"config": "xrebalance-max-rounds", "val": 0}"#),
        "xrebalance-max-rounds must be at least 1"
    );
    assert_eq!(
        message(r#"{"config": "xrebalance-final-cltv", "val": "0"}"#),
        "xrebalance-final-cltv must be at least 1"
    );
    assert_eq!(
        message(r#"{"config": "xrebalance-nope", "val": 1}"#),
        "unknown dynamic option xrebalance-nope"
    );
}

#[test]
fn a_change_touches_one_option() {
    let before = startup(&defaults()).unwrap();
    let names = [
        ("xrebalance-constraint-age", OptionKey::ConstraintAge),
        ("xrebalance-override-age", OptionKey::OverrideAge),
        ("xrebalance-part-wait", OptionKey::PartWait),
        ("xrebalance-min-part-msat", OptionKey::MinPart),
        ("xrebalance-max-rounds", OptionKey::MaxRounds),
        ("xrebalance-final-cltv", OptionKey::FinalCltv),
    ];
    for (name, key) in names {
        assert_eq!(key.name(), name);
        assert_eq!(OptionKey::find(name), Some(key));
        let mut s = before;
        let v = json(&format!(r#"{{"config": "{name}", "val": 77}}"#));
        assert_eq!(s.apply(&v), Ok((key, 77)));
        let mut expected = before;
        match key {
            OptionKey::ConstraintAge => expected.constraint_age = 77,
            OptionKey::OverrideAge => expected.override_age = 77,
            OptionKey::PartWait => expected.part_wait_secs = 77,
            OptionKey::MinPart => expected.min_part_msat = 77,
            OptionKey::MaxRounds => expected.max_rounds = 77,
            OptionKey::FinalCltv => expected.final_cltv = 77,
        }
        assert_eq!(s, expected);
    }
    let mut s = before;
    assert!(s.apply(&json("{}")).is_err());
    assert_eq!(s, before);
    assert_eq!(OptionKey::find("nope"), None);
}

#[test]
fn the_stores_start_empty_and_follow_their_options() {
    let mut settings = startup(&defaults()).unwrap();
    let (mut coalescer, mut overrides) = stores(&settings);
    assert_eq!(coalescer.len(), 0);
    assert_eq!(overrides.counts(), (0, 0, 0));
    assert_eq!(overrides.max_age(), 3_600);
    // Buckets of 1_800 s.
    let b = coalescer.check("k", 100, 7, true).unwrap();
    coalescer.record("k", b, 7);
    let mut set = |settings: &mut Settings, name: &str, val: i64| {
        change(
            settings,
            &mut coalescer,
            &mut overrides,
            &json(&format!(r#"{{"config": "{name}", "val": {val}}}"#)),
        )
        .map(|_| {
            (
                coalescer.check("k", 100, 7, true).is_some(),
                overrides.max_age(),
            )
        })
    };
    assert_eq!(
        set(&mut settings, "xrebalance-part-wait", 5),
        Ok((false, 3_600))
    );
    assert_eq!(
        set(&mut settings, "xrebalance-override-age", 60),
        Ok((false, 60))
    );
    assert!(set(&mut settings, "xrebalance-override-age", -1).is_err());
    assert_eq!(
        set(&mut settings, "xrebalance-constraint-age", 120),
        Ok((true, 60))
    );
    assert_eq!(
        (settings.part_wait_secs, settings.override_age, settings.constraint_age),
        (5, 60, 120)
    );
}
