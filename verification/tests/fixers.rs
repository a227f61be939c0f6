use session_reader::json::Json;
use session_reader::services::fixers::strip_thinking::{definition, execute, remove_thinking_blocks};
use session_reader::services::fixers::{
    execute_by_id, fixer_operation, list_definitions, FixLevel, FixResult,
};

fn s(text: &str) -> Json {
    Json::Str(text.to_string())
}

fn obj(fields: Vec<(&str, Json)>) -> Json {
    Json::Obj(fields.into_iter().map(|(k, v)| (k.to_string(), v)).collect())
}

fn block(kind: &str) -> Json {
    obj(vec![("type", s(kind)), ("text", s(kind))])
}

fn record(blocks: Vec<Json>) -> Json {
    obj(vec![("type", s("assistant")), ("message", obj(vec![("content", Json::Arr(blocks))]))])
}

#[test]
fn definition_of_the_repair() {
    let d = definition();
    assert_eq!(d.id, "strip_thinking");
    assert_eq!(d.name, "400 (thinking block) 错误");
    assert!(d.description.starts_with("API Error: 400 {\"type\":\"error\""));
    assert!(d.description.contains("`thinking` block\"}}\n\n"));
    assert_eq!(
        d.tags,
        vec!["thinking", "redacted_thinking", "400", "invalid_request_error", "signature", "resume"]
    );
    assert_eq!(d.level, FixLevel::Entry);
    assert_eq!(list_definitions(), vec![definition()]);
}

#[test]
fn thinking_blocks_are_taken_out() {
    let mut records = vec![
        record(vec![block("thinking"), block("text"), block("redacted_thinking"), block("tool_use")]),
        record(vec![block("text")]),
        record(vec![block("thinking")]),
        obj(vec![("type", s("user")), ("message", obj(vec![("content", s("thinking"))]))]),
        obj(vec![("type", s("summary"))]),
    ];
    let result = execute(&mut records).unwrap();
    assert_eq!(
        result,
        FixResult {
            success: true,
            message: "成功修复：已从 2 条消息中移除 thinking/redacted_thinking 内容块".to_string(),
            affected_lines: 2,
        }
    );
    assert_eq!(records[0], record(vec![block("text"), block("tool_use")]));
    assert_eq!(records[1], record(vec![block("text")]));
    assert_eq!(records[2], record(vec![]));
    assert_eq!(records.len(), 5);
}

#[test]
fn nothing_to_repair() {
    let mut none: Vec<Json> = Vec::new();
    let result = execute(&mut none).unwrap();
    assert_eq!(result.message, "会话文件为空，无需修复");
    assert_eq!(result.affected_lines, 0);
    assert!(result.success);
    let mut clean = vec![record(vec![block("text")])];
    let result = execute(&mut clean).unwrap();
    assert_eq!(result.message, "未发现 thinking 内容块，无需修复");
    assert_eq!(result.affected_lines, 0);
    assert_eq!(clean, vec![record(vec![block("text")])]);
}

#[test]
fn remove_along_a_path() {
    let mut value = obj(vec![(
        "a",
        obj(vec![("b", Json::Arr(vec![block("thinking"), block("text")])), ("c", s("x"))]),
    )]);
    assert!(!remove_thinking_blocks(&mut value, &["a", "c"]));
    assert!(!remove_thinking_blocks(&mut value, &["a", "missing"]));
    assert!(!remove_thinking_blocks(&mut value, &["a"]));
    assert!(remove_thinking_blocks(&mut value, &["a", "b"]));
    assert_eq!(
        value,
        obj(vec![("a", obj(vec![("b", Json::Arr(vec![block("text")])), ("c", s("x"))]))])
    );
    assert!(!remove_thinking_blocks(&mut value, &["a", "b"]));
    let mut list = Json::Arr(vec![block("redacted_thinking")]);
    assert!(remove_thinking_blocks(&mut list, &[]));
    assert_eq!(list, Json::Arr(vec![]));
}

#[test]
fn repair_by_identifier() {
    let mut records = vec![record(vec![block("thinking")])];
    let result = execute_by_id("strip_thinking", &mut records).unwrap();
    assert_eq!(result.affected_lines, 1);
    assert_eq!(records, vec![record(vec![])]);
    let mut records = vec![record(vec![block("thinking")])];
    let error = execute_by_id("other", &mut records).unwrap_err();
    assert_eq!(error, "未找到 ID 为 'other' 的修复项");
    assert_eq!(records, vec![record(vec![block("thinking")])]);
    assert_eq!(fixer_operation("strip_thinking"), "fixer_strip_thinking");
}
