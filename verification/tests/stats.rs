use serde_json::Value;
use xrebalance::json::Json;
use xrebalance::order::sorted;
use xrebalance::stats::layer_stats;

fn to_json(v: &Value) -> Json {
    match v {
        Value::Null => Json::Null,
        Value::Bool(b) => Json::Bool(*b),
        Value::Number(n) => match (n.as_u64(), n.as_i64()) {
            (Some(u), _) => Json::Uint(u),
            (None, Some(i)) => Json::Int(i),
            _ => Json::Real(n.to_string()),
        },
        Value::String(s) => Json::Str(s.clone()),
        Value::Array(a) => Json::Array(a.iter().map(to_json).collect()),
        Value::Object(m) => {
            Json::Object(m.iter().map(|(k, v)| (k.clone(), to_json(v))).collect())
        }
    }
}

fn json(text: &str) -> Json {
    to_json(&serde_json::from_str::<Value>(text).unwrap())
}

#[test]
fn a_missing_layer_has_no_stats() {
    assert!(layer_stats(&json("{}")).is_none());
    assert!(layer_stats(&json(r#"{"layers": []}"#)).is_none());
}

#[test]
fn an_empty_layer_counts_nothing() {
    let s = layer_stats(&json(r#"{"layers": [{}]}"#)).unwrap();
    assert_eq!((s.constraints, s.constraint_scidds), (0, 0));
    assert_eq!((s.depth_min, s.depth_median), (0, 0));
    assert_eq!((s.depth_p90, s.depth_max), (0, 0));
    assert_eq!((s.oldest_constraint, s.newest_constraint), (None, None));
}

#[test]
fn constraints_are_summarized() {
    let s = layer_stats(&json(
        r#"{"layers": [{
            "constraints": [
                {"short_channel_id_dir": "1x1x1/0", "minimum_msat": 5, "timestamp": 300},
                {"short_channel_id_dir": "1x1x1/0", "maximum_msat": 9, "timestamp": 100},
                {"short_channel_id_dir": "2x2x2/1", "maximum_msat": 9},
                {"short_channel_id_dir": "1x1x1/0", "minimum_msat": 6, "timestamp": 200},
                {"minimum_msat": 7},
                {"short_channel_id_dir": "3x3x3/1", "minimum_msat": 1, "timestamp": 250},
                {"short_channel_id_dir": "3x3x3/1", "minimum_msat": -1}],
            "channel_updates": [1, 2], "disabled_nodes": [3], "created_channels": [],
            "biases": "none"}, {}]}"#,
    ))
    .unwrap();
    assert_eq!(s.constraints, 7);
    assert_eq!((s.constraint_minimums, s.constraint_maximums), (4, 3));
    assert_eq!(s.constraint_scidds, 3);
    assert_eq!((s.dirs_with_max, s.dirs_with_min), (2, 2));
    // Depths 3, 1 and 2.
    assert_eq!((s.depth_min, s.depth_median), (1, 2));
    assert_eq!((s.depth_p90, s.depth_max), (3, 3));
    assert_eq!(
        (s.oldest_constraint, s.newest_constraint),
        (Some(100), Some(300))
    );
    assert_eq!((s.channel_updates, s.disabled_nodes), (2, 1));
    assert_eq!((s.created_channels, s.biases), (0, 0));
}

#[test]
fn percentiles_are_nearest_rank() {
    for n in 1..40usize {
        // Direction i is stacked i deep.
        let mut cs = Vec::new();
        for i in 1..=n {
            for _ in 0..i {
                cs.push(format!(r#"{{"short_channel_id_dir": "{i}x1x1/0"}}"#));
            }
        }
        let text = format!(r#"{{"layers": [{{"constraints": [{}]}}]}}"#, cs.join(","));
        let s = layer_stats(&json(&text)).unwrap();
        let rank = |q: f64| (q * (n - 1) as f64).round() as u64 + 1;
        assert_eq!(s.depth_median, rank(0.5), "{n}");
        assert_eq!(s.depth_p90, rank(0.9), "{n}");
        assert_eq!((s.depth_min, s.depth_max), (1, n as u64));
        assert!(s.depth_min <= s.depth_median && s.depth_median <= s.depth_p90);
    }
}

#[test]
fn sorting_keeps_every_amount() {
    assert_eq!(sorted(&[]), Vec::<u64>::new());
    assert_eq!(sorted(&[3, 1, 2, 3, 0]), vec![0, 1, 2, 3, 3]);
}
