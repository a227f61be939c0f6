use session_reader::json::{Json, Number};
use session_reader::services::classifier::{
    classify, extract_slash_command, extract_text, has_valid_tag_pair, is_plan_execution,
    Classification,
};

fn s(text: &str) -> Json {
    Json::Str(text.to_string())
}

fn obj(fields: Vec<(&str, Json)>) -> Json {
    Json::Obj(fields.into_iter().map(|(k, v)| (k.to_string(), v)).collect())
}

fn user_with_text(text: &str) -> Json {
    obj(vec![("type", s("user")), ("message", obj(vec![("content", s(text))]))])
}

fn system(label: &str) -> Classification {
    Classification::System { label: label.to_string(), plan_source_path: None }
}

#[test]
fn slash_command_is_classified() {
    let record = user_with_text("<command-name>/compact</command-name>");
    assert_eq!(classify(&record), Classification::SlashCommand("/compact".to_string()));
}

#[test]
fn other_types_are_skipped() {
    assert_eq!(classify(&obj(vec![("type", s("file-history-snapshot"))])), Classification::Skip);
    assert_eq!(classify(&obj(vec![])), Classification::Skip);
    assert_eq!(classify(&Json::Null), Classification::Skip);
    assert_eq!(classify(&Json::Arr(vec![])), Classification::Skip);
    assert_eq!(classify(&obj(vec![("type", Json::Num(Number::Unsigned(3)))])), Classification::Skip);
}

#[test]
fn assistant_wins_over_every_user_rule() {
    let record = obj(vec![
        ("type", s("assistant")),
        ("isCompactSummary", Json::Bool(true)),
        ("isMeta", Json::Bool(true)),
        ("message", obj(vec![("content", s("<command-name>/x</command-name>"))])),
    ]);
    assert_eq!(classify(&record), Classification::Assistant);
}

#[test]
fn compact_summary_wins_over_slash_command() {
    let record = obj(vec![
        ("type", s("user")),
        ("isCompactSummary", Json::Bool(true)),
        ("message", obj(vec![("content", s("<command-name>/x</command-name>"))])),
    ]);
    assert_eq!(classify(&record), Classification::CompactSummary);
    let not_set = obj(vec![
        ("type", s("user")),
        ("isCompactSummary", s("true")),
        ("message", obj(vec![("content", s("plain"))])),
    ]);
    assert_eq!(classify(&not_set), Classification::User);
}

#[test]
fn slash_command_needs_both_tags_and_a_slash() {
    assert_eq!(extract_slash_command("<command-name>/compact</command-name> rest"), Some("/compact"));
    assert_eq!(extract_slash_command("<command-name>/compact"), None);
    assert_eq!(extract_slash_command("<command-name>compact</command-name>"), None);
    assert_eq!(extract_slash_command(" <command-name>/compact</command-name>"), None);
    assert_eq!(extract_slash_command("<command-name></command-name>"), None);
    assert_eq!(
        extract_slash_command("<command-name>/a</command-name>/b</command-name>"),
        Some("/a")
    );
    assert_eq!(classify(&user_with_text("<command-name>/compact")), Classification::User);
}

#[test]
fn meta_records_are_system_notes() {
    let skill = obj(vec![
        ("type", s("user")),
        ("isMeta", Json::Bool(true)),
        ("message", obj(vec![("content", s("Base directory for this skill: /x"))])),
    ]);
    assert_eq!(classify(&skill), system("skill"));
    let other = obj(vec![
        ("type", s("user")),
        ("isMeta", Json::Bool(true)),
        ("message", obj(vec![("content", s("something"))])),
    ]);
    assert_eq!(classify(&other), system("system"));
}

#[test]
fn source_tool_use_and_caller_are_system_notes() {
    let skill = obj(vec![
        ("type", s("user")),
        ("sourceToolUseID", s("toolu_1")),
        ("caller", s("hook")),
        ("message", obj(vec![("content", s("x"))])),
    ]);
    assert_eq!(classify(&skill), system("skill"));
    let hook = obj(vec![
        ("type", s("user")),
        ("caller", Json::Null),
        ("message", obj(vec![("content", s("x"))])),
    ]);
    assert_eq!(classify(&hook), system("system"));
}

#[test]
fn plan_execution_needs_all_three_parts() {
    let plan = "Implement the following plan:\n\n# Title\n\nread the full transcript at: /a/b/c.jsonl\n";
    assert_eq!(is_plan_execution(plan), Some("/a/b/c.jsonl".to_string()));
    assert_eq!(
        classify(&user_with_text(plan)),
        Classification::System {
            label: "plan".to_string(),
            plan_source_path: Some("/a/b/c.jsonl".to_string()),
        }
    );
    assert_eq!(is_plan_execution("Implement the following plan:\n\n# Title\n"), None);
    assert_eq!(is_plan_execution("# Title\nread the full transcript at: /a.jsonl"), None);
    assert_eq!(
        is_plan_execution("Implement the following plan:\n\n#Title read the full transcript at: /a.jsonl"),
        None
    );
    assert_eq!(
        is_plan_execution("Implement the following plan:\n\n## T\nread the full transcript at:x.jsonl.jsonl"),
        Some("x.jsonl".to_string())
    );
}

#[test]
fn system_tags_need_the_closing_tag() {
    assert!(has_valid_tag_pair("<system-reminder>a</system-reminder>", "system-reminder"));
    assert!(!has_valid_tag_pair("<system-reminder>a", "system-reminder"));
    assert!(!has_valid_tag_pair("x<system-reminder>a</system-reminder>", "system-reminder"));
    assert!(!has_valid_tag_pair("</system-reminder><system-reminder>", "system-reminder"));
    for tag in [
        "local-command-stdout",
        "local-command-caveat",
        "system-reminder",
        "user-prompt-submit-hook",
        "task-notification",
    ] {
        let text = format!("<{tag}>body</{tag}> tail");
        assert_eq!(classify(&user_with_text(&text)), system("system"));
    }
    assert_eq!(classify(&user_with_text("<other-tag>body</other-tag>")), Classification::User);
    assert_eq!(classify(&user_with_text("<system-reminder>body")), Classification::User);
}

#[test]
fn text_is_joined_from_text_blocks() {
    let record = obj(vec![
        ("type", s("user")),
        (
            "message",
            obj(vec![(
                "content",
                Json::Arr(vec![
                    obj(vec![("type", s("text")), ("text", s("a"))]),
                    obj(vec![("type", s("image")), ("text", s("skipped"))]),
                    obj(vec![("type", s("text"))]),
                    obj(vec![("type", s("text")), ("text", s("b"))]),
                ]),
            )]),
        ),
    ]);
    assert_eq!(extract_text(&record), "a\nb");
    assert_eq!(extract_text(&user_with_text("as it is")), "as it is");
    assert_eq!(extract_text(&obj(vec![("message", obj(vec![("content", Json::Null)]))])), "");
    assert_eq!(extract_text(&obj(vec![])), "");
}

#[test]
fn later_member_decides_for_a_key_held_twice() {
    let record = obj(vec![("type", s("assistant")), ("type", s("user"))]);
    assert_eq!(record.get("type"), Some(&s("user")));
    assert_eq!(classify(&record), Classification::User);
}
