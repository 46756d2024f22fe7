use eastmoney::json::{str_at, str_eq, string_items, Json};

fn s(x: &str) -> Json {
    Json::Str(x.to_string())
}

fn obj(es: Vec<(&str, Json)>) -> Json {
    Json::Object(es.into_iter().map(|(k, v)| (k.to_string(), v)).collect())
}

#[test]
fn member_lookup_takes_the_first_match() {
    let v = obj(vec![("a", s("1")), ("b", s("2")), ("a", s("3"))]);
    assert_eq!(v.get("a").and_then(|x| x.as_str()).map(|x| x.as_str()), Some("1"));
    assert!(v.get("c").is_none());
    assert!(s("x").get("a").is_none());
}

#[test]
fn path_lookup() {
    let v = obj(vec![("data", obj(vec![("diff", Json::Array(vec![s("x")]))]))]);
    assert_eq!(v.path(&["data", "diff"]).and_then(|d| d.as_array()).map(|a| a.len()), Some(1));
    assert!(v.path(&["data", "none"]).is_none());
    assert!(v.path(&[]).is_some());
    let inner = v.take_path(&["data", "diff"]).unwrap();
    assert!(inner.as_array().is_some());
}

#[test]
fn scalar_readers() {
    assert!(Json::Null.is_null());
    assert!(!s("").is_null());
    assert_eq!(Json::Number("42".to_string()).as_i64(), Some(42));
    assert_eq!(Json::Number("4.2".to_string()).as_i64(), None);
    assert_eq!(s("42").as_i64(), None);
    assert_eq!(Json::Bool(true).as_str(), None);
}

#[test]
fn display_text_of_members() {
    let v = obj(vec![("s", s("abc")), ("n", Json::Number("-1.5".to_string())), ("z", Json::Null), ("b", Json::Bool(true))]);
    assert_eq!(str_at(&v, "s"), "abc");
    assert_eq!(str_at(&v, "n"), "-1.5");
    assert_eq!(str_at(&v, "z"), "-");
    assert_eq!(str_at(&v, "b"), "-");
    assert_eq!(str_at(&v, "missing"), "-");
}

#[test]
fn string_items_skip_other_values() {
    let items = vec![s("a"), Json::Null, s("b"), Json::Number("1".to_string())];
    assert_eq!(string_items(&items), vec!["a".to_string(), "b".to_string()]);
}

#[test]
fn string_equality() {
    assert!(str_eq("润和", "润和"));
    assert!(!str_eq("润和", "润"));
    assert!(str_eq("", ""));
}

#[test]
fn taking_a_member_moves_it_out() {
    let v = obj(vec![("data", s("x"))]);
    assert!(matches!(v.take_member("data"), Some(Json::Str(x)) if x == "x"));
    assert!(obj(vec![]).take_member("data").is_none());
}
