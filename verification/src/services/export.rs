use vstd::prelude::*;
use vstd::string::*;
use crate::json::{items_view, lemma_items_view, pretty_json, pretty_text, Json, JsonView};
use crate::text::{decimal, decimal_text, join_lines, joined, texts_view};

verus! {

/// The `text` members of the blocks of kind `"text"`, in their order.
pub open spec fn text_lines(blocks: Seq<JsonView>) -> Seq<Seq<char>>
    decreases blocks.len(),
{
    if blocks.len() == 0 {
        Seq::empty()
    } else if blocks.last().has_kind("text"@) && blocks.last().str_field("text"@) is Some {
        text_lines(blocks.drop_last()).push(blocks.last().str_field("text"@).unwrap())
    } else {
        text_lines(blocks.drop_last())
    }
}

/// The text of a record as it is exported: a string content as it is, the
/// texts of the text blocks of a list with a line break between each two,
/// nothing for any other content.
pub open spec fn message_text(msg: JsonView) -> Seq<char> {
    match msg.content() {
        Some(JsonView::Str(s)) => s,
        Some(JsonView::Arr(blocks)) => joined(text_lines(blocks), "\n"@),
        _ => Seq::empty(),
    }
}

/// The text of a record as it is exported.
pub fn extract_message_text(msg: &Json) -> (r: String)
    ensures
        r@ == message_text(msg@),
{
    match msg.content() {
        Some(Json::Str(s)) => s.clone(),
        Some(Json::Arr(blocks)) => {
            let ghost views = items_view(blocks@);
            proof {
                lemma_items_view(blocks@);
            }
            let mut texts: Vec<String> = Vec::new();
            proof {
                assert(texts_view(texts@) =~= text_lines(views.take(0)));
            }
            let mut i: usize = 0;
            while i < blocks.len()
                invariant
                    i <= blocks@.len(),
                    views.len() == blocks@.len(),
                    forall|k: int| 0 <= k < views.len() ==> (#[trigger] views[k]) == blocks@[k]@,
                    texts_view(texts@) == text_lines(views.take(i as int)),
                decreases blocks@.len() - i,
            {
                proof {
                    let next = views.take(i as int + 1);
                    assert(next.drop_last() =~= views.take(i as int));
                    assert(next.last() == views[i as int]);
                }
                if blocks[i].has_kind("text") {
                    if let Some(text) = blocks[i].str_field("text") {
                        let owned = text.to_owned();
                        proof {
                            assert(texts_view(texts@.push(owned)) =~= texts_view(texts@).push(
                                owned@,
                            ));
                        }
                        texts.push(owned);
                    }
                }
                i = i + 1;
            }
            proof {
                assert(views.take(i as int) =~= views);
            }
            join_lines(&texts, "\n")
        },
        _ => String::new(),
    }
}

/// The lines that open an export: the title, and the time of the export in
/// seconds since the start of 1970.
pub open spec fn header_lines(session_name: Seq<char>, now: nat) -> Seq<Seq<char>> {
    seq![
        "# "@ + session_name,
        Seq::empty(),
        "导出时间: (UTC epoch: "@ + decimal(now) + ")"@,
        Seq::empty(),
        "---"@,
        Seq::empty(),
    ]
}

/// The lines of one record: none for a record that is neither of a user nor
/// of the assistant; else a heading with the role and the time, the text if
/// there is one, and a rule.
pub open spec fn record_lines(msg: JsonView) -> Seq<Seq<char>> {
    if !msg.has_kind("user"@) && !msg.has_kind("assistant"@) {
        Seq::empty()
    } else {
        let role = if msg.has_kind("user"@) {
            "用户"@
        } else {
            "助手"@
        };
        let time = match msg.str_field("timestamp"@) {
            Some(t) => t,
            None => "未知时间"@,
        };
        let heading = seq!["## "@ + role + " ("@ + time + ")"@, Seq::empty()];
        let body = if message_text(msg).len() > 0 {
            seq![message_text(msg)]
        } else {
            Seq::empty()
        };
        heading + body + seq![Seq::empty(), "---"@, Seq::empty()]
    }
}

/// The lines of all records, in their order.
pub open spec fn records_lines(records: Seq<JsonView>) -> Seq<Seq<char>>
    decreases records.len(),
{
    if records.len() == 0 {
        Seq::empty()
    } else {
        records_lines(records.drop_last()) + record_lines(records.last())
    }
}

fn push_text(lines: &mut Vec<String>, text: String)
    ensures
        texts_view(final(lines)@) == texts_view(old(lines)@).push(text@),
{
    proof {
        assert(texts_view(lines@.push(text)) =~= texts_view(lines@).push(text@));
    }
    lines.push(text);
}

fn push_record_lines(lines: &mut Vec<String>, msg: &Json)
    ensures
        texts_view(final(lines)@) == texts_view(old(lines)@) + record_lines(msg@),
{
    let ghost before = texts_view(lines@);
    if !msg.has_kind("user") && !msg.has_kind("assistant") {
        proof {
            assert(before =~= before + Seq::<Seq<char>>::empty());
        }
        return ;
    }
    let role = if msg.has_kind("user") {
        "用户"
    } else {
        "助手"
    };
    let time = match msg.str_field("timestamp") {
        Some(t) => t,
        None => "未知时间",
    };
    let mut heading = "## ".to_owned();
    heading.append(role);
    heading.append(" (");
    heading.append(time);
    heading.append(")");
    push_text(lines, heading);
    push_text(lines, String::new());
    let text = extract_message_text(msg);
    let ghost has_text = text@.len() > 0;
    if !text.as_str().is_empty() {
        push_text(lines, text);
    }
    push_text(lines, String::new());
    push_text(lines, "---".to_owned());
    push_text(lines, String::new());
    proof {
        let heading_lines = seq![heading@, Seq::<char>::empty()];
        let body = if has_text {
            seq![message_text(msg@)]
        } else {
            Seq::<Seq<char>>::empty()
        };
        let rule = seq![Seq::<char>::empty(), "---"@, Seq::<char>::empty()];
        assert(texts_view(lines@) =~= before + (heading_lines + body + rule));
    }
}

/// A session as Markdown: a title, the time of the export, and the records
/// of the user and of the assistant with their texts. `now` is the time of
/// the export in seconds since the start of 1970.
pub fn to_markdown(messages: &[Json], session_name: &str, now: u64) -> (r: String)
    ensures
        r@ == joined(
            header_lines(session_name@, now as nat) + records_lines(items_view(messages@)),
            "\n"@,
        ),
{
    let ghost records = items_view(messages@);
    proof {
        lemma_items_view(messages@);
    }
    let mut lines: Vec<String> = Vec::new();
    let mut title = "# ".to_owned();
    title.append(session_name);
    let mut stamp = "导出时间: (UTC epoch: ".to_owned();
    stamp.append(decimal_text(now).as_str());
    stamp.append(")");
    push_text(&mut lines, title);
    push_text(&mut lines, String::new());
    push_text(&mut lines, stamp);
    push_text(&mut lines, String::new());
    push_text(&mut lines, "---".to_owned());
    push_text(&mut lines, String::new());
    let ghost header = header_lines(session_name@, now as nat);
    proof {
        assert(texts_view(lines@) =~= header);
        assert(header =~= header + records_lines(records.take(0)));
    }
    let mut i: usize = 0;
    while i < messages.len()
        invariant
            i <= messages@.len(),
            records.len() == messages@.len(),
            forall|k: int| 0 <= k < records.len() ==> (#[trigger] records[k]) == messages@[k]@,
            texts_view(lines@) == header + records_lines(records.take(i as int)),
        decreases messages@.len() - i,
    {
        proof {
            let next = records.take(i as int + 1);
            assert(next.drop_last() =~= records.take(i as int));
            assert(next.last() == records[i as int]);
        }
        let ghost so_far = texts_view(lines@);
        push_record_lines(&mut lines, &messages[i]);
        proof {
            assert(so_far + record_lines(records[i as int]) =~= header + (records_lines(
                records.take(i as int),
            ) + record_lines(records[i as int])));
        }
        i = i + 1;
    }
    proof {
        assert(records.take(i as int) =~= records);
    }
    join_lines(&lines, "\n")
}

/// All records as one JSON array on many lines; an empty array where the
/// records cannot be written.
pub open spec fn exported_json(records: Seq<JsonView>) -> Seq<char> {
    match pretty_text(records) {
        Some(text) => text,
        None => "[]"@,
    }
}

/// A session as JSON: all its records as they are, in one array that is
/// easy to read.
pub fn to_json(messages: &[Json]) -> (r: String)
    ensures
        r@ == exported_json(items_view(messages@)),
{
    match pretty_json(messages) {
        Some(text) => text,
        None => "[]".to_owned(),
    }
}

} // verus!
