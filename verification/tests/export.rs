use session_reader::json::{Json, Number};
use session_reader::services::export::{extract_message_text, to_json, to_markdown};
use session_reader::services::parser::{read_messages, write_messages};

fn s(text: &str) -> Json {
    Json::Str(text.to_string())
}

fn obj(fields: Vec<(&str, Json)>) -> Json {
    Json::Obj(fields.into_iter().map(|(k, v)| (k.to_string(), v)).collect())
}

fn text_block(text: &str) -> Json {
    obj(vec![("type", s("text")), ("text", s(text))])
}

#[test]
fn markdown_of_a_session() {
    let records = vec![
        obj(vec![
            ("type", s("user")),
            ("timestamp", s("2025-01-01T00:00:00Z")),
            ("message", obj(vec![("content", s("Hi"))])),
        ]),
        obj(vec![("type", s("summary")), ("message", obj(vec![("content", s("skipped"))]))]),
        obj(vec![
            ("type", s("assistant")),
            (
                "message",
                obj(vec![(
                    "content",
                    Json::Arr(vec![
                        text_block("a"),
                        obj(vec![("type", s("tool_use")), ("text", s("no"))]),
                        text_block(""),
                        text_block("b"),
                    ]),
                )]),
            ),
        ]),
        obj(vec![("type", s("user")), ("message", obj(vec![("content", Json::Arr(vec![]))]))]),
    ];
    let expected = "# Name\n\n导出时间: (UTC epoch: 1700000000)\n\n---\n\n\
        ## 用户 (2025-01-01T00:00:00Z)\n\nHi\n\n---\n\n\
        ## 助手 (未知时间)\n\na\n\nb\n\n---\n\n\
        ## 用户 (未知时间)\n\n\n---\n";
    assert_eq!(to_markdown(&records, "Name", 1_700_000_000), expected);
    assert_eq!(to_markdown(&[], "", 0), "# \n\n导出时间: (UTC epoch: 0)\n\n---\n");
}

#[test]
fn text_of_a_record_for_export() {
    let rec = obj(vec![(
        "message",
        obj(vec![("content", Json::Arr(vec![text_block(""), text_block("a"), text_block("")]))]),
    )]);
    assert_eq!(extract_message_text(&rec), "\na\n");
    assert_eq!(extract_message_text(&obj(vec![])), "");
    assert_eq!(
        extract_message_text(&obj(vec![("message", obj(vec![("content", s("plain"))]))])),
        "plain"
    );
}

#[test]
fn records_of_a_file_content() {
    let content = "{\"type\":\"user\",\"n\":1}\r\n\n   \n{broken\n[1, 2.50, -3, 1e3]\n\"last\"";
    let records = read_messages(content);
    assert_eq!(
        records,
        vec![
            obj(vec![("n", Json::Num(Number::Unsigned(1))), ("type", s("user"))]),
            Json::Arr(vec![
                Json::Num(Number::Unsigned(1)),
                Json::Num(Number::Decimal("2.5".to_string())),
                Json::Num(Number::Signed(-3)),
                Json::Num(Number::Decimal("1000.0".to_string())),
            ]),
            s("last"),
        ]
    );
    assert!(read_messages("").is_empty());
    assert!(read_messages("\n\n").is_empty());
}

#[test]
fn file_content_of_records() {
    let records = vec![
        obj(vec![("a", s("x\ny\"z\\")), ("b", Json::Arr(vec![Json::Null, Json::Bool(false)]))]),
        Json::Num(Number::Signed(i64::MIN)),
        Json::Num(Number::Unsigned(u64::MAX)),
        obj(vec![]),
        Json::Arr(vec![]),
        s("é\u{1}"),
    ];
    let text = write_messages(&records);
    assert_eq!(
        text,
        "{\"a\":\"x\\ny\\\"z\\\\\",\"b\":[null,false]}\n-9223372036854775808\n18446744073709551615\n{}\n[]\n\"é\\u0001\"\n"
    );
    assert_eq!(read_messages(&text), records);
    assert_eq!(write_messages(&[]), "");
}

#[test]
fn written_text_is_what_serde_json_writes() {
    let text = "{\"b\":[1,2.5,-3,{\"x\":null}],\"a\":\"q\\\"\\u00e9\\n\",\"c\":{\"k\":true,\"a\":1e-7}}";
    let value: serde_json::Value = serde_json::from_str(text).unwrap();
    let ours = Json::parse(text).unwrap();
    assert_eq!(ours.to_json_text(), serde_json::to_string(&value).unwrap());
    assert_eq!(ours.to_json_text(), value.to_string());
    assert!(Json::parse("{").is_none());
    assert!(Json::parse("").is_none());
    assert_eq!(Json::parse(" 7 "), Some(Json::Num(Number::Unsigned(7))));
}

#[test]
fn records_as_one_array() {
    let records = vec![
        obj(vec![("b", s("x")), ("a", Json::Arr(vec![Json::Null, Json::Num(Number::Unsigned(1))]))]),
        Json::Num(Number::Decimal("2.5".to_string())),
    ];
    assert_eq!(
        to_json(&records),
        "[\n  {\n    \"a\": [\n      null,\n      1\n    ],\n    \"b\": \"x\"\n  },\n  2.5\n]"
    );
    assert_eq!(to_json(&[]), "[]");
}

#[test]
fn members_are_written_in_the_order_of_their_keys() {
    let value = obj(vec![("z", s("1")), ("a", s("2")), ("z", s("3")), ("m", Json::Num(Number::Signed(4)))]);
    assert_eq!(value.to_json_text(), "{\"a\":\"2\",\"m\":4,\"z\":\"3\"}");
    assert_eq!(Json::Num(Number::Decimal("no number".to_string())).to_json_text(), "null");
    let mut text = "x".to_string();
    value.write_compact(&mut text);
    assert_eq!(text, "x{\"a\":\"2\",\"m\":4,\"z\":\"3\"}");
}
