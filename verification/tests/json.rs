use session_reader::json::{find_member, set_member, Json, Number};
use session_reader::models::display::{ToolUseInfo, ToolUseMap};

fn s(text: &str) -> Json {
    Json::Str(text.to_string())
}

fn obj(fields: Vec<(&str, Json)>) -> Json {
    Json::Obj(fields.into_iter().map(|(k, v)| (k.to_string(), v)).collect())
}

#[test]
fn members_of_values() {
    let value = obj(vec![
        ("a", s("x")),
        ("b", Json::Bool(true)),
        ("c", Json::Num(Number::Unsigned(3))),
        ("d", Json::Arr(vec![Json::Null])),
        ("type", s("text")),
        ("message", obj(vec![("content", s("inner"))])),
    ]);
    assert_eq!(value.get("a"), Some(&s("x")));
    assert_eq!(value.get("missing"), None);
    assert_eq!(value.str_field("a"), Some("x"));
    assert_eq!(value.str_field("b"), None);
    assert!(value.flag("b"));
    assert!(!value.flag("a"));
    assert!(!value.flag("missing"));
    assert!(value.has_kind("text"));
    assert!(!value.has_kind("other"));
    assert_eq!(value.content(), Some(&s("inner")));
    assert_eq!(value.get("c").and_then(|v| v.as_u64()), Some(3));
    assert_eq!(value.get("d").and_then(|v| v.as_array()).map(|a| a.len()), Some(1));
    assert_eq!(s("x").get("a"), None);
    assert_eq!(Json::Arr(vec![]).get("0"), None);
    assert_eq!(s("x").as_str(), Some("x"));
    assert_eq!(Json::Null.as_str(), None);
    assert_eq!(Json::Bool(false).as_bool(), Some(false));
    assert_eq!(Json::Num(Number::Signed(-1)).as_u64(), None);
    assert_eq!(Json::Num(Number::Decimal("1.0".to_string())).as_u64(), None);
    assert_eq!(Json::Null.content(), None);
}

#[test]
fn copies_are_equal() {
    let value = obj(vec![
        ("a", Json::Arr(vec![s("x"), Json::Num(Number::Decimal("2.5".to_string())), obj(vec![])])),
        ("b", Json::Null),
    ]);
    assert_eq!(value.clone(), value);
    assert_eq!(Json::text_block("hi".to_string()), obj(vec![("type", s("text")), ("text", s("hi"))]));
}

#[test]
fn putting_members() {
    let mut fields = vec![("a".to_string(), s("1")), ("b".to_string(), s("2")), ("a".to_string(), s("3"))];
    assert_eq!(find_member(&fields, "a"), Some(2));
    assert_eq!(find_member(&fields, "b"), Some(1));
    assert_eq!(find_member(&fields, "c"), None);
    set_member(&mut fields, "a", s("4"));
    set_member(&mut fields, "c", s("5"));
    assert_eq!(
        fields,
        vec![
            ("a".to_string(), s("1")),
            ("b".to_string(), s("2")),
            ("a".to_string(), s("4")),
            ("c".to_string(), s("5")),
        ]
    );
    assert_eq!(Json::Obj(fields).get("a"), Some(&s("4")));
}

#[test]
fn tool_use_map_keeps_the_later_entry() {
    let info = |name: &str| ToolUseInfo { name: name.to_string(), input: Json::Null };
    let mut map = ToolUseMap::new();
    assert_eq!(map.len(), 0);
    assert!(map.get("a").is_none());
    map.insert("a".to_string(), info("first"));
    map.insert("b".to_string(), info("other"));
    map.insert("a".to_string(), info("second"));
    assert_eq!(map.len(), 2);
    assert_eq!(map.get("a"), Some(&info("second")));
    assert_eq!(map.get("b"), Some(&info("other")));
    let copy = map.duplicate();
    assert_eq!(copy.get("a"), Some(&info("second")));
    assert_eq!(copy.len(), 2);
}
