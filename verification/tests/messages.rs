use session_reader::commands::messages::{
    delete_message, delete_messages, edit_message_content, BlockEdit,
};
use session_reader::json::{Json, Number};

fn s(text: &str) -> Json {
    Json::Str(text.to_string())
}

fn obj(fields: Vec<(&str, Json)>) -> Json {
    Json::Obj(fields.into_iter().map(|(k, v)| (k.to_string(), v)).collect())
}

fn record(uuid: Option<&str>, content: Json) -> Json {
    let mut fields = vec![("type", s("user"))];
    if let Some(uuid) = uuid {
        fields.push(("uuid", s(uuid)));
    }
    fields.push(("message", obj(vec![("role", s("user")), ("content", content)])));
    obj(fields)
}

fn edit(index: usize, text: &str) -> BlockEdit {
    BlockEdit { index, text: text.to_string() }
}

#[test]
fn delete_one_record() {
    let records = vec![record(Some("a"), s("1")), record(None, s("2")), record(Some("b"), s("3"))];
    let kept = delete_message(records, "a");
    assert_eq!(kept, vec![record(None, s("2")), record(Some("b"), s("3"))]);
    let kept = delete_message(kept, "");
    assert_eq!(kept.len(), 2);
    let kept = delete_message(kept, "missing");
    assert_eq!(kept.len(), 2);
}

#[test]
fn delete_several_records() {
    let records = vec![
        record(Some("a"), s("1")),
        record(Some("b"), s("2")),
        record(None, s("3")),
        record(Some("a"), s("4")),
        obj(vec![("uuid", Json::Num(Number::Unsigned(7)))]),
        record(Some("c"), s("5")),
    ];
    let kept = delete_messages(records, &vec!["c".to_string(), "a".to_string(), "7".to_string()]);
    assert_eq!(
        kept,
        vec![
            record(Some("b"), s("2")),
            record(None, s("3")),
            obj(vec![("uuid", Json::Num(Number::Unsigned(7)))]),
        ]
    );
    assert_eq!(delete_messages(kept, &vec![]).len(), 3);
}

#[test]
fn edit_string_content() {
    let records = vec![record(Some("a"), s("old")), record(Some("b"), s("other"))];
    let edited = edit_message_content(records, "a", &vec![edit(5, "new"), edit(0, "later")]);
    assert_eq!(edited, vec![record(Some("a"), s("new")), record(Some("b"), s("other"))]);
    let same = edit_message_content(edited, "a", &vec![]);
    assert_eq!(same[0], record(Some("a"), s("new")));
}

#[test]
fn edit_blocks_by_kind() {
    let blocks = Json::Arr(vec![
        obj(vec![("type", s("text")), ("text", s("t"))]),
        obj(vec![("type", s("thinking")), ("thinking", s("th")), ("signature", s("sig"))]),
        obj(vec![("type", s("thinking"))]),
        obj(vec![("type", s("tool_use")), ("id", s("x")), ("input", obj(vec![]))]),
        obj(vec![("type", s("tool_result")), ("content", Json::Arr(vec![]))]),
        obj(vec![("type", s("image")), ("text", s("caption"))]),
        obj(vec![("type", s("image"))]),
        s("not an object"),
        obj(vec![("text", s("no kind"))]),
    ]);
    let edits = vec![
        edit(0, "T"),
        edit(1, "TH"),
        edit(2, "TX"),
        edit(3, "{\"a\": [1, -2, 1.5]}"),
        edit(4, "R"),
        edit(5, "C"),
        edit(6, "ignored"),
        edit(7, "ignored"),
        edit(8, "K"),
        edit(9, "beyond"),
    ];
    let edited = edit_message_content(vec![record(Some("a"), blocks)], "a", &edits);
    let expected = Json::Arr(vec![
        obj(vec![("type", s("text")), ("text", s("T"))]),
        obj(vec![("type", s("thinking")), ("thinking", s("TH")), ("signature", s("sig"))]),
        obj(vec![("type", s("thinking")), ("text", s("TX"))]),
        obj(vec![
            ("type", s("tool_use")),
            ("id", s("x")),
            (
                "input",
                obj(vec![(
                    "a",
                    Json::Arr(vec![
                        Json::Num(Number::Unsigned(1)),
                        Json::Num(Number::Signed(-2)),
                        Json::Num(Number::Decimal("1.5".to_string())),
                    ]),
                )]),
            ),
        ]),
        obj(vec![("type", s("tool_result")), ("content", s("R"))]),
        obj(vec![("type", s("image")), ("text", s("C"))]),
        obj(vec![("type", s("image"))]),
        s("not an object"),
        obj(vec![("text", s("K"))]),
    ]);
    assert_eq!(edited, vec![record(Some("a"), expected)]);
}

#[test]
fn edit_tool_use_with_text_that_is_no_json() {
    let block = obj(vec![("type", s("tool_use")), ("input", obj(vec![("k", s("v"))]))]);
    let records = vec![record(Some("a"), Json::Arr(vec![block.clone()]))];
    let edited = edit_message_content(records, "a", &vec![edit(0, "{not json")]);
    assert_eq!(edited, vec![record(Some("a"), Json::Arr(vec![block]))]);
}

#[test]
fn later_edit_of_a_block_wins() {
    let block = obj(vec![("type", s("text")), ("text", s("t"))]);
    let records = vec![record(Some("a"), Json::Arr(vec![block]))];
    let edited = edit_message_content(records, "a", &vec![edit(0, "one"), edit(0, "two")]);
    let expected = obj(vec![("type", s("text")), ("text", s("two"))]);
    assert_eq!(edited, vec![record(Some("a"), Json::Arr(vec![expected]))]);
}

#[test]
fn records_that_are_not_edited() {
    let odd = vec![
        record(None, s("x")),
        obj(vec![("uuid", s("a"))]),
        obj(vec![("uuid", s("a")), ("message", s("no object"))]),
        obj(vec![("uuid", s("a")), ("message", obj(vec![("role", s("user"))]))]),
        obj(vec![("uuid", s("a")), ("message", obj(vec![("content", Json::Null)]))]),
        Json::Null,
    ];
    let edited = edit_message_content(odd.clone(), "a", &vec![edit(0, "new")]);
    assert_eq!(edited, odd);
}
