use std::borrow::Cow;
use vstd::prelude::*;
use vstd::string::*;
use crate::json::{items_view, lemma_items_view, Json, JsonView};
use crate::models::display::opt_text;
use crate::pattern::{capture_first_group, compile, compiled, first_group, is_match, matches_in};
use crate::text::{after_prefix, before_first, contains_text, has_prefix, occurs, text_before};

verus! {

/// What kind of record a line of a session file is.
#[derive(Debug, PartialEq, Eq)]
pub enum Classification {
    /// Neither a user nor an assistant record.
    Skip,
    /// A record of the assistant.
    Assistant,
    /// A user record that carries the summary of a compacted conversation.
    CompactSummary,
    /// A user record that is a slash command; holds the command, slash included.
    SlashCommand(String),
    /// A user record that the tool wrote by itself. `label` is `"skill"`,
    /// `"plan"` or `"system"`; `plan_source_path` is the transcript that a plan
    /// refers to.
    System { label: String, plan_source_path: Option<String> },
    /// An ordinary user record; its tool results become units of their own.
    User,
}

/// The kind of a record, as contracts speak of it.
pub enum ClassificationView {
    Skip,
    Assistant,
    CompactSummary,
    SlashCommand(Seq<char>),
    System { label: Seq<char>, plan_source_path: Option<Seq<char>> },
    User,
}

impl View for Classification {
    type V = ClassificationView;

    open spec fn view(&self) -> ClassificationView {
        match self {
            Classification::Skip => ClassificationView::Skip,
            Classification::Assistant => ClassificationView::Assistant,
            Classification::CompactSummary => ClassificationView::CompactSummary,
            Classification::SlashCommand(name) => ClassificationView::SlashCommand(name@),
            Classification::System { label, plan_source_path } => ClassificationView::System {
                label: label@,
                plan_source_path: opt_text(*plan_source_path),
            },
            Classification::User => ClassificationView::User,
        }
    }
}

impl Clone for Classification {
    fn clone(&self) -> (r: Self)
        ensures
            r@ == self@,
    {
        match self {
            Classification::Skip => Classification::Skip,
            Classification::Assistant => Classification::Assistant,
            Classification::CompactSummary => Classification::CompactSummary,
            Classification::SlashCommand(name) => Classification::SlashCommand(name.clone()),
            Classification::System { label, plan_source_path } => Classification::System {
                label: label.clone(),
                plan_source_path: match plan_source_path {
                    Some(path) => Some(path.clone()),
                    None => None,
                },
            },
            Classification::User => Classification::User,
        }
    }
}

/// The opening tag `<name>`.
pub open spec fn open_tag(name: Seq<char>) -> Seq<char> {
    "<"@ + name + ">"@
}

/// The closing tag `</name>`.
pub open spec fn close_tag(name: Seq<char>) -> Seq<char> {
    "</"@ + name + ">"@
}

/// `text` starts with the opening tag `name`, and the closing tag lies
/// somewhere behind it.
pub open spec fn tag_pair(text: Seq<char>, name: Seq<char>) -> bool {
    &&& open_tag(name).is_prefix_of(text)
    &&& occurs(text.skip(open_tag(name).len() as int), close_tag(name))
}

/// Whether `text` starts with `<tag_name>` and holds `</tag_name>` after it.
pub fn has_valid_tag_pair(text: &str, tag_name: &str) -> (r: bool)
    ensures
        r == tag_pair(text@, tag_name@),
{
    let mut open = "<".to_owned();
    open.append(tag_name);
    open.append(">");
    let mut close = "</".to_owned();
    close.append(tag_name);
    close.append(">");
    match after_prefix(text, open.as_str()) {
        Some(rest) => contains_text(rest, close.as_str()),
        None => false,
    }
}

/// The command of a text that starts with `<command-name>`, holds
/// `</command-name>` after it, and has a `/` first between the two.
pub open spec fn slash_command(text: Seq<char>) -> Option<Seq<char>> {
    if "<command-name>"@.is_prefix_of(text) {
        match before_first(text.skip("<command-name>"@.len() as int), "</command-name>"@) {
            Some(name) => if "/"@.is_prefix_of(name) {
                Some(name)
            } else {
                None
            },
            None => None,
        }
    } else {
        None
    }
}

/// The slash command that `text` opens with, if it opens with one.
pub fn extract_slash_command(text: &str) -> (r: Option<&str>)
    ensures
        match r {
            Some(name) => slash_command(text@) == Some(name@),
            None => slash_command(text@) is None,
        },
{
    match after_prefix(text, "<command-name>") {
        Some(rest) => match text_before(rest, "</command-name>") {
            Some(name) => if has_prefix(name, "/") {
                Some(name)
            } else {
                None
            },
            None => None,
        },
        None => None,
    }
}

/// How a plan to carry out begins.
pub open spec fn plan_prefix() -> Seq<char> {
    "Implement the following plan:\n\n#"@
}

/// Pattern of the reference to the transcript that a plan was made in; its
/// first group is the path.
pub open spec fn transcript_pattern() -> Seq<char> {
    "read the full transcript at:\\s*(.+?\\.jsonl)"@
}

/// Pattern of a Markdown heading of the first or second level at the start of
/// a line.
pub open spec fn heading_pattern() -> Seq<char> {
    "(?m)^#{1,2}\\s"@
}

/// The transcript path of a text that asks to carry out a plan: the text
/// starts with the fixed prefix, refers to a transcript, and holds a heading.
pub open spec fn plan_source(text: Seq<char>) -> Option<Seq<char>> {
    if !plan_prefix().is_prefix_of(text) {
        None
    } else {
        match (compiled(transcript_pattern()), compiled(heading_pattern())) {
            (Some(transcript), Some(heading)) => match first_group(transcript, text) {
                Some(path) => if matches_in(heading, text) {
                    Some(path)
                } else {
                    None
                },
                None => None,
            },
            _ => None,
        }
    }
}

/// The transcript path, where `text` asks to carry out a plan.
pub fn is_plan_execution(text: &str) -> (r: Option<String>)
    ensures
        opt_text(r) == plan_source(text@),
{
    if !has_prefix(text, "Implement the following plan:\n\n#") {
        return None;
    }
    let transcript = match compile("read the full transcript at:\\s*(.+?\\.jsonl)") {
        Ok(re) => re,
        Err(_) => {
            return None;
        },
    };
    let heading = match compile("(?m)^#{1,2}\\s") {
        Ok(re) => re,
        Err(_) => {
            return None;
        },
    };
    match capture_first_group(&transcript, text) {
        Some(path) => if is_match(&heading, text) {
            Some(path)
        } else {
            None
        },
        None => None,
    }
}

/// The `text` members of the blocks of kind `"text"`, one line each.
pub open spec fn joined_text(blocks: Seq<JsonView>) -> Seq<char>
    decreases blocks.len(),
{
    if blocks.len() == 0 {
        Seq::empty()
    } else {
        let head = joined_text(blocks.drop_last());
        let block = blocks.last();
        if block.has_kind("text"@) && block.str_field("text"@) is Some {
            if head.len() == 0 {
                block.str_field("text"@).unwrap()
            } else {
                head + "\n"@ + block.str_field("text"@).unwrap()
            }
        } else {
            head
        }
    }
}

/// The plain text of a record's content: a string as it is, the text blocks
/// of a list joined by line breaks, nothing for any other content.
pub open spec fn plain_text(content: Option<JsonView>) -> Seq<char> {
    match content {
        Some(JsonView::Str(s)) => s,
        Some(JsonView::Arr(blocks)) => joined_text(blocks),
        _ => Seq::empty(),
    }
}

/// The plain text of a list of content blocks.
pub fn join_text_blocks(blocks: &Vec<Json>) -> (r: String)
    ensures
        r@ == joined_text(items_view(blocks@)),
{
    let ghost views = items_view(blocks@);
    proof {
        lemma_items_view(blocks@);
    }
    let mut buf = String::new();
    let mut i: usize = 0;
    while i < blocks.len()
        invariant
            i <= blocks@.len(),
            views.len() == blocks@.len(),
            forall|k: int| 0 <= k < views.len() ==> (#[trigger] views[k]) == blocks@[k]@,
            buf@ == joined_text(views.take(i as int)),
        decreases blocks@.len() - i,
    {
        proof {
            let next = views.take(i as int + 1);
            assert(next.drop_last() =~= views.take(i as int));
            assert(next.last() == views[i as int]);
        }
        let block = &blocks[i];
        if block.has_kind("text") {
            if let Some(t) = block.str_field("text") {
                if !buf.as_str().is_empty() {
                    buf.append("\n");
                }
                buf.append(t);
            }
        }
        i = i + 1;
    }
    proof {
        assert(views.take(i as int) =~= views);
    }
    buf
}

/// The plain text of the content of a record's message. A string content is
/// handed out as it stands, without a copy.
pub fn extract_text(msg: &Json) -> (r: Cow<'_, str>)
    ensures
        r@ == plain_text(msg@.content()),
{
    proof {
        reveal_strlit("");
    }
    match msg.content() {
        Some(Json::Str(s)) => Cow::Borrowed(s.as_str()),
        Some(Json::Arr(blocks)) => Cow::Owned(join_text_blocks(blocks)),
        _ => Cow::Borrowed(""),
    }
}

/// How a skill's own instructions begin.
pub open spec fn skill_prefix() -> Seq<char> {
    "Base directory for this skill:"@
}

/// `text` opens with one of the tags that mark a note of the tool itself, and
/// holds the matching closing tag after it.
pub open spec fn system_tagged(text: Seq<char>) -> bool {
    ||| tag_pair(text, "local-command-stdout"@)
    ||| tag_pair(text, "local-command-caveat"@)
    ||| tag_pair(text, "system-reminder"@)
    ||| tag_pair(text, "user-prompt-submit-hook"@)
    ||| tag_pair(text, "task-notification"@)
}

/// A system note without a transcript path.
pub open spec fn note(label: Seq<char>) -> ClassificationView {
    ClassificationView::System { label, plan_source_path: None }
}

/// The kind of a user record; the first rule that applies decides.
pub open spec fn user_classification(msg: JsonView) -> ClassificationView {
    let text = plain_text(msg.content());
    if msg.flag("isCompactSummary"@) {
        ClassificationView::CompactSummary
    } else if slash_command(text) is Some {
        ClassificationView::SlashCommand(slash_command(text).unwrap())
    } else if msg.flag("isMeta"@) {
        if skill_prefix().is_prefix_of(text) {
            note("skill"@)
        } else {
            note("system"@)
        }
    } else if msg.get("sourceToolUseID"@) is Some {
        note("skill"@)
    } else if msg.get("caller"@) is Some {
        note("system"@)
    } else if plan_source(text) is Some {
        ClassificationView::System { label: "plan"@, plan_source_path: plan_source(text) }
    } else if system_tagged(text) {
        note("system"@)
    } else {
        ClassificationView::User
    }
}

/// The kind of a record. Every record has exactly one.
pub open spec fn classification(msg: JsonView) -> ClassificationView {
    if msg.has_kind("assistant"@) {
        ClassificationView::Assistant
    } else if msg.has_kind("user"@) {
        user_classification(msg)
    } else {
        ClassificationView::Skip
    }
}

fn system_note(label: &str) -> (r: Classification)
    ensures
        r@ == note(label@),
{
    Classification::System { label: label.to_owned(), plan_source_path: None }
}

fn has_system_tag(text: &str) -> (r: bool)
    ensures
        r == system_tagged(text@),
{
    has_valid_tag_pair(text, "local-command-stdout") || has_valid_tag_pair(
        text,
        "local-command-caveat",
    ) || has_valid_tag_pair(text, "system-reminder") || has_valid_tag_pair(
        text,
        "user-prompt-submit-hook",
    ) || has_valid_tag_pair(text, "task-notification")
}

/// Classifies a record. Total: a field that is missing or of another type
/// only makes the rule that reads it not apply.
pub fn classify(msg: &Json) -> (r: Classification)
    ensures
        r@ == classification(msg@),
{
    if msg.has_kind("assistant") {
        return Classification::Assistant;
    }
    if !msg.has_kind("user") {
        return Classification::Skip;
    }
    if msg.flag("isCompactSummary") {
        return Classification::CompactSummary;
    }
    let extracted = extract_text(msg);
    let text: &str = match &extracted {
        Cow::Borrowed(b) => b,
        Cow::Owned(o) => o.as_str(),
    };
    if let Some(name) = extract_slash_command(text) {
        return Classification::SlashCommand(name.to_owned());
    }
    if msg.flag("isMeta") {
        if has_prefix(text, "Base directory for this skill:") {
            return system_note("skill");
        }
        return system_note("system");
    }
    if msg.get("sourceToolUseID").is_some() {
        return system_note("skill");
    }
    if msg.get("caller").is_some() {
        return system_note("system");
    }
    if let Some(path) = is_plan_execution(text) {
        return Classification::System { label: "plan".to_owned(), plan_source_path: Some(path) };
    }
    if has_system_tag(text) {
        return system_note("system");
    }
    Classification::User
}

} // verus!
