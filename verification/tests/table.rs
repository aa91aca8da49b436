use xrebalance::json::Json;
use xrebalance::table::Table;

#[test]
fn tables_keep_the_last_value() {
    let mut t: Table<u64> = Table::new();
    t.insert("a", 1);
    t.insert("b", 2);
    t.insert("a", 3);
    assert_eq!(t.len(), 2);
    assert_eq!(t.get("a"), Some(&3));
    assert_eq!((t.key(0), t.key(1)), ("a", "b"));
    assert_eq!((*t.value(0), *t.value(1)), (3, 2));
    assert!(t.contains_key("b") && !t.contains_key("c"));
}

#[test]
fn removal_leaves_the_others() {
    let mut t: Table<u64> = Table::new();
    for (i, k) in ["a", "b", "c", "d"].iter().enumerate() {
        t.insert(k, i as u64);
    }
    assert_eq!(t.remove("b"), Some(1));
    assert_eq!(t.remove("b"), None);
    assert_eq!(t.len(), 3);
    for (k, v) in [("a", 0), ("c", 2), ("d", 3)] {
        assert_eq!(t.get(k), Some(&v));
    }
    assert_eq!(t.remove("d"), Some(3));
    assert_eq!(t.remove("a"), Some(0));
    assert_eq!(t.remove("c"), Some(2));
    assert_eq!(t.len(), 0);
}

#[test]
fn json_members_are_read_and_set() {
    let v = Json::Object(vec![
        ("a".to_owned(), Json::Uint(1)),
        ("b".to_owned(), Json::Array(vec![Json::Null, Json::Bool(true)])),
        ("c".to_owned(), Json::Str("x".to_owned())),
    ]);
    assert_eq!(v.uint_at("a"), Some(1));
    assert_eq!(v.uint_at("c"), None);
    assert_eq!(v.text_at("c"), Some("x"));
    assert!(v.get("d").is_none());
    assert!(v.object_at("a").is_none());
    assert!(!v.flag_at("a"));
    let (v, items) = v.take_items("b");
    assert_eq!(items.len(), 2);
    assert!(matches!(v.get("b"), Some(Json::Null)));
    let v = v.with_member("a", Json::Bool(true)).with_member("d", Json::Int(-2));
    assert!(v.flag_at("a"));
    assert_eq!(v.get("d").and_then(Json::as_i64), Some(-2));
    assert_eq!(v.text_at("c"), Some("x"));
    assert_eq!(Json::Uint(u64::MAX).as_i64(), None);
    assert_eq!(Json::Uint(7).as_i64(), Some(7));
}
