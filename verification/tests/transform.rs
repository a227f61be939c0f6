use session_reader::json::{Json, Number};
use session_reader::models::display::{DisplayMessage, TokenStats};
use session_reader::services::transformer::{
    build_display_messages, content_to_blocks, extract_search_text_original, extract_tool_uses,
    extract_usage, index_texts, transform_session,
};
use session_reader::services::classifier::Classification;

fn s(text: &str) -> Json {
    Json::Str(text.to_string())
}

fn n(value: u64) -> Json {
    Json::Num(Number::Unsigned(value))
}

fn obj(fields: Vec<(&str, Json)>) -> Json {
    Json::Obj(fields.into_iter().map(|(k, v)| (k.to_string(), v)).collect())
}

fn text_block(text: &str) -> Json {
    obj(vec![("type", s("text")), ("text", s(text))])
}

fn tool_result(content: &str) -> Json {
    obj(vec![("type", s("tool_result")), ("content", s(content))])
}

fn record(kind: &str, uuid: &str, content: Json) -> Json {
    obj(vec![
        ("type", s(kind)),
        ("uuid", s(uuid)),
        ("timestamp", s("2025-01-01T00:00:00.000Z")),
        ("message", obj(vec![("content", content)])),
    ])
}

#[test]
fn assistant_record_with_string_content() {
    let record = obj(vec![
        ("type", s("assistant")),
        (
            "message",
            obj(vec![
                ("content", s("hi")),
                ("model", s("m1")),
                ("usage", obj(vec![("input_tokens", n(5))])),
            ]),
        ),
    ]);
    let (session, lower, original) = transform_session(&[record]);
    assert_eq!(session.display_messages.len(), 1);
    let unit = &session.display_messages[0];
    assert_eq!(unit.display_type, "assistant");
    assert_eq!(unit.content, vec![text_block("hi")]);
    assert_eq!(unit.block_index_map, vec![0]);
    assert_eq!(unit.model, Some("m1".to_string()));
    assert_eq!(unit.usage, Some(obj(vec![("input_tokens", n(5))])));
    assert!(unit.editable);
    assert_eq!(unit.source_uuid, "");
    assert_eq!(unit.display_id, "");
    assert_eq!(
        session.token_stats,
        TokenStats {
            input_tokens: 5,
            output_tokens: 0,
            cache_creation_input_tokens: 0,
            cache_read_input_tokens: 0,
        }
    );
    assert_eq!(original, vec!["hi\n".to_string()]);
    assert_eq!(lower, vec!["hi\n".to_string()]);
}

#[test]
fn user_record_is_split_at_tool_results() {
    let rec = record("user", "u-1", Json::Arr(vec![text_block("a"), tool_result("r")]));
    let (session, _, _) = transform_session(&[rec]);
    assert_eq!(session.display_messages.len(), 2);
    let user = &session.display_messages[0];
    assert_eq!(user.display_type, "user");
    assert_eq!(user.display_id, "u-1");
    assert_eq!(user.content, vec![text_block("a")]);
    assert_eq!(user.block_index_map, vec![0]);
    let tool = &session.display_messages[1];
    assert_eq!(tool.display_type, "tool_result");
    assert_eq!(tool.display_id, "u-1-tool-0");
    assert_eq!(tool.source_uuid, "u-1");
    assert_eq!(tool.content, vec![tool_result("r")]);
    assert_eq!(tool.block_index_map, vec![1]);
    assert!(tool.editable);
}

#[test]
fn tool_results_are_numbered_among_themselves() {
    let mut blocks = vec![tool_result("r0"), text_block("a")];
    for i in 1..12 {
        blocks.push(tool_result(&format!("r{i}")));
    }
    blocks.push(text_block("b"));
    let rec = record("user", "id", Json::Arr(blocks));
    let (session, _, _) = transform_session(&[rec]);
    let units = &session.display_messages;
    assert_eq!(units.len(), 13);
    assert_eq!(units[0].display_type, "user");
    assert_eq!(units[0].block_index_map, vec![1, 13]);
    assert_eq!(units[0].content, vec![text_block("a"), text_block("b")]);
    assert_eq!(units[1].display_id, "id-tool-0");
    assert_eq!(units[1].block_index_map, vec![0]);
    assert_eq!(units[2].display_id, "id-tool-1");
    assert_eq!(units[2].block_index_map, vec![2]);
    assert_eq!(units[11].display_id, "id-tool-10");
    assert_eq!(units[12].display_id, "id-tool-11");
    assert_eq!(units[12].block_index_map, vec![12]);
    let mut all: Vec<usize> = units.iter().flat_map(|u| u.block_index_map.clone()).collect();
    all.sort();
    assert_eq!(all, (0..14).collect::<Vec<usize>>());
    for unit in units {
        assert_eq!(unit.content.len(), unit.block_index_map.len());
    }
}

#[test]
fn user_record_of_tool_results_alone_has_no_user_unit() {
    let rec = record("user", "id", Json::Arr(vec![tool_result("x"), tool_result("y")]));
    let (session, _, _) = transform_session(&[rec]);
    let kinds: Vec<&str> =
        session.display_messages.iter().map(|u| u.display_type.as_str()).collect();
    assert_eq!(kinds, vec!["tool_result", "tool_result"]);
    let empty = record("user", "id", Json::Arr(vec![]));
    assert_eq!(transform_session(&[empty]).0.display_messages.len(), 0);
    let odd = record("user", "id", n(3));
    assert_eq!(transform_session(&[odd]).0.display_messages.len(), 0);
}

#[test]
fn string_content_is_never_split() {
    let rec = record("user", "id", s("tool_result"));
    let (session, _, _) = transform_session(&[rec]);
    assert_eq!(session.display_messages.len(), 1);
    assert_eq!(session.display_messages[0].display_type, "user");
    assert_eq!(session.display_messages[0].content, vec![text_block("tool_result")]);
    assert_eq!(session.display_messages[0].block_index_map, vec![0]);
}

#[test]
fn kinds_that_are_not_split() {
    let mut out: Vec<DisplayMessage> = Vec::new();
    let rec = record("user", "id", Json::Arr(vec![text_block("a"), tool_result("r"), text_block("b")]));
    build_display_messages(&mut out, Classification::Skip, &rec);
    assert!(out.is_empty());
    build_display_messages(&mut out, Classification::CompactSummary, &rec);
    build_display_messages(&mut out, Classification::SlashCommand("/clear".to_string()), &rec);
    build_display_messages(
        &mut out,
        Classification::System { label: "plan".to_string(), plan_source_path: Some("p.jsonl".to_string()) },
        &rec,
    );
    assert_eq!(out.len(), 3);
    assert_eq!(out[0].display_type, "compact_summary");
    assert_eq!(out[0].content, vec![text_block("a\nb")]);
    assert_eq!(out[0].block_index_map, vec![0]);
    assert!(!out[0].editable);
    assert_eq!(out[1].display_type, "user");
    assert_eq!(out[1].content, vec![text_block("/clear")]);
    assert!(!out[1].editable);
    assert_eq!(out[2].display_type, "system");
    assert_eq!(out[2].content.len(), 3);
    assert_eq!(out[2].block_index_map, vec![0, 1, 2]);
    assert_eq!(out[2].system_label, Some("plan".to_string()));
    assert_eq!(out[2].plan_source_path, Some("p.jsonl".to_string()));
    assert!(!out[2].editable);
    assert_eq!(out[2].timestamp, "2025-01-01T00:00:00.000Z");
    assert_eq!(out[2].cwd, None);
}

#[test]
fn units_keep_the_order_of_the_records() {
    let records = vec![
        record("user", "1", s("first")),
        obj(vec![("type", s("summary"))]),
        record("assistant", "2", s("second")),
        record("user", "3", Json::Arr(vec![tool_result("third")])),
    ];
    let (session, lower, original) = transform_session(&records);
    let ids: Vec<&str> = session.display_messages.iter().map(|u| u.display_id.as_str()).collect();
    assert_eq!(ids, vec!["1", "2", "3-tool-0"]);
    assert_eq!(original, vec!["first\n", "second\n", "third\n"]);
    assert_eq!(lower.len(), 3);
}

#[test]
fn tool_uses_are_taken_from_assistant_records() {
    let use_block = |id: &str, name: Option<&str>, input: Option<Json>| {
        let mut fields = vec![("type", s("tool_use")), ("id", s(id))];
        if let Some(name) = name {
            fields.push(("name", s(name)));
        }
        if let Some(input) = input {
            fields.push(("input", input));
        }
        obj(fields)
    };
    let first = record(
        "assistant",
        "a",
        Json::Arr(vec![
            use_block("t1", Some("Read"), Some(obj(vec![("path", s("/x"))]))),
            use_block("t2", None, None),
            obj(vec![("type", s("tool_use")), ("name", s("NoId"))]),
            text_block("x"),
        ]),
    );
    let uses = extract_tool_uses(&first);
    assert_eq!(uses.len(), 2);
    assert_eq!(uses[0].0, "t1");
    assert_eq!(uses[0].1.name, "Read");
    assert_eq!(uses[1].1.name, "unknown tool");
    assert_eq!(uses[1].1.input, Json::Obj(vec![]));
    let as_user = record("user", "u", Json::Arr(vec![use_block("t9", Some("Bash"), None)]));
    assert!(extract_tool_uses(&as_user).is_empty());

    let second = record("assistant", "b", Json::Arr(vec![use_block("t1", Some("Edit"), None)]));
    let (session, _, _) = transform_session(&[first, as_user, second]);
    assert_eq!(session.tool_use_map.len(), 2);
    assert_eq!(session.tool_use_map.get("t1").map(|i| i.name.as_str()), Some("Edit"));
    assert_eq!(session.tool_use_map.get("t2").map(|i| i.name.as_str()), Some("unknown tool"));
    assert!(session.tool_use_map.get("t9").is_none());
}

#[test]
fn usage_is_summed_over_assistant_records_only() {
    let with_usage = |kind: &str, usage: Json| {
        obj(vec![("type", s(kind)), ("message", obj(vec![("content", s("x")), ("usage", usage)]))])
    };
    let records = vec![
        with_usage(
            "assistant",
            obj(vec![
                ("input_tokens", n(1)),
                ("output_tokens", n(2)),
                ("cache_creation_input_tokens", n(3)),
                ("cache_read_input_tokens", n(4)),
            ]),
        ),
        with_usage("user", obj(vec![("input_tokens", n(1000))])),
        with_usage("assistant", obj(vec![("output_tokens", n(10)), ("input_tokens", s("7"))])),
        with_usage("assistant", Json::Null),
    ];
    assert!(extract_usage(&records[1]).is_none());
    assert!(extract_usage(&records[0]).is_some());
    let (session, _, _) = transform_session(&records);
    assert_eq!(
        session.token_stats,
        TokenStats {
            input_tokens: 1,
            output_tokens: 12,
            cache_creation_input_tokens: 3,
            cache_read_input_tokens: 4,
        }
    );
}

#[test]
fn usage_sums_do_not_depend_on_the_order() {
    let a = Some(obj(vec![("input_tokens", n(u64::MAX)), ("output_tokens", n(5))]));
    let b = Some(obj(vec![("input_tokens", n(3)), ("output_tokens", n(6))]));
    let mut one = TokenStats::default();
    one.accumulate(&a);
    one.accumulate(&b);
    one.accumulate(&None);
    let mut two = TokenStats::default();
    two.accumulate(&b);
    two.accumulate(&a);
    assert_eq!(one, two);
    assert_eq!(one.input_tokens, 2);
    assert_eq!(one.output_tokens, 11);
}

#[test]
fn search_text_takes_every_part_of_a_block() {
    let blocks = vec![
        text_block("Hello"),
        obj(vec![("type", s("thinking")), ("thinking", s("Hm"))]),
        tool_result("Done"),
        obj(vec![
            ("type", s("tool_result")),
            ("content", Json::Arr(vec![text_block("Nested"), obj(vec![("type", s("image"))])])),
        ]),
        obj(vec![
            ("type", s("tool_use")),
            ("input", obj(vec![("cmd", s("ls \"a\"")), ("n", n(2)), ("deep", Json::Arr(vec![Json::Null, Json::Bool(true), Json::Num(Number::Signed(-7)), Json::Num(Number::Decimal("1.5".to_string()))]))])),
        ]),
        obj(vec![("type", s("text")), ("input", s("not a tool use"))]),
    ];
    assert_eq!(
        extract_search_text_original(&blocks),
        "Hello\nHm\nDone\nNested\n{\"cmd\":\"ls \\\"a\\\"\",\"deep\":[null,true,-7,1.5],\"n\":2}\n"
    );
    assert_eq!(extract_search_text_original(&[].to_vec()), "");
}

#[test]
fn lowercase_texts_are_the_originals_in_lower_case() {
    let records = vec![
        record("user", "1", s("Grüße AUS Köln")),
        record("assistant", "2", s("ΣΑΣ İstanbul")),
        record("user", "3", Json::Arr(vec![tool_result("MiXeD")])),
    ];
    let (session, lower, original) = transform_session(&records);
    assert_eq!(lower.len(), original.len());
    assert_eq!(lower.len(), session.display_messages.len());
    for i in 0..lower.len() {
        assert_eq!(lower[i], original[i].to_lowercase());
    }
    assert_eq!(lower[0], "grüße aus köln\n");
    let (original_again, lower_again) = index_texts(&session.display_messages);
    assert_eq!(original_again, original);
    assert_eq!(lower_again, lower);
}

#[test]
fn blocks_of_a_content() {
    let (blocks, map) = content_to_blocks(Some(&s("x")));
    assert_eq!(blocks, vec![text_block("x")]);
    assert_eq!(map, vec![0]);
    let list = Json::Arr(vec![tool_result("a"), text_block("b")]);
    let (blocks, map) = content_to_blocks(Some(&list));
    assert_eq!(blocks, vec![tool_result("a"), text_block("b")]);
    assert_eq!(map, vec![0, 1]);
    let (blocks, map) = content_to_blocks(None);
    assert!(blocks.is_empty() && map.is_empty());
    let (blocks, map) = content_to_blocks(Some(&Json::Bool(true)));
    assert!(blocks.is_empty() && map.is_empty());
}

#[test]
fn many_records_on_the_worker_pool() {
    let mut records = Vec::new();
    for i in 0..500 {
        records.push(record("user", &format!("u{i}"), s(&format!("Text {i}"))));
    }
    let (session, lower, original) = transform_session(&records);
    assert_eq!(session.display_messages.len(), 500);
    for i in 0..500 {
        assert_eq!(session.display_messages[i].display_id, format!("u{i}"));
        assert_eq!(original[i], format!("Text {i}\n"));
        assert_eq!(lower[i], format!("text {i}\n"));
    }
}
