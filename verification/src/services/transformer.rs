use rayon::iter::{IntoParallelRefIterator, ParallelIterator};
use vstd::prelude::*;
use vstd::seq_lib::{lemma_multiset_commutative, to_multiset_build};
use vstd::string::*;
use crate::json::{
    compact_text, items_view, lemma_items_view, lemma_items_view_push, view_of, Json, JsonView,
};
use crate::models::display::{
    clone_items, messages_view, opt_json, opt_text, DisplayMessage, DisplayMessageView,
    TokenStats,
    ToolUseInfo, ToolUseInfoView, ToolUseMap, TransformedSession,
};
use crate::services::classifier::{
    classification, classify, join_text_blocks, plain_text, Classification, ClassificationView,
};
use crate::text::{decimal, decimal_text, lowercase, to_lowercase};

verus! {

/// A text that may be missing, read as empty.
pub open spec fn text_or_empty(o: Option<Seq<char>>) -> Seq<char> {
    match o {
        Some(s) => s,
        None => Seq::empty(),
    }
}

/// The positions `0, 1, .., n - 1`.
pub open spec fn positions(n: nat) -> Seq<usize> {
    Seq::new(n, |i: int| i as usize)
}

/// The blocks of a record's content: a string as one text block, a list as
/// it is, nothing for any other content.
pub open spec fn content_blocks(content: Option<JsonView>) -> Seq<JsonView> {
    match content {
        Some(JsonView::Str(s)) => seq![JsonView::text_block(s)],
        Some(JsonView::Arr(blocks)) => blocks,
        _ => Seq::empty(),
    }
}

/// Where each block of `content_blocks` stands in the record.
pub open spec fn content_positions(content: Option<JsonView>) -> Seq<usize> {
    match content {
        Some(JsonView::Str(_)) => seq![0usize],
        Some(JsonView::Arr(blocks)) => positions(blocks.len()),
        _ => Seq::empty(),
    }
}

/// A unit with none of the members that only some kinds have.
pub open spec fn base_unit(
    uuid: Seq<char>,
    timestamp: Seq<char>,
    cwd: Option<Seq<char>>,
    kind: Seq<char>,
    content: Seq<JsonView>,
    block_index_map: Seq<usize>,
    editable: bool,
) -> DisplayMessageView {
    DisplayMessageView {
        source_uuid: uuid,
        display_id: uuid,
        display_type: kind,
        timestamp,
        content,
        editable,
        block_index_map,
        model: None,
        usage: None,
        tool_use_result: None,
        todos: None,
        system_label: None,
        plan_source_path: None,
        cwd,
    }
}

/// A block that holds what a tool gave back.
pub open spec fn is_tool_result(block: JsonView) -> bool {
    block.has_kind("tool_result"@)
}

/// The positions, in rising order, of the blocks that are tool results
/// (`tool`) or of those that are none (`!tool`).
pub open spec fn picked(blocks: Seq<JsonView>, tool: bool) -> Seq<usize>
    decreases blocks.len(),
{
    if blocks.len() == 0 {
        Seq::empty()
    } else {
        let before = picked(blocks.drop_last(), tool);
        if is_tool_result(blocks.last()) == tool {
            before.push((blocks.len() - 1) as usize)
        } else {
            before
        }
    }
}

/// The blocks at the given positions.
pub open spec fn blocks_at(blocks: Seq<JsonView>, at: Seq<usize>) -> Seq<JsonView> {
    Seq::new(at.len(), |i: int| blocks[at[i] as int])
}

/// The identifier of the `n`-th tool result split from record `uuid`.
pub open spec fn tool_display_id(uuid: Seq<char>, n: nat) -> Seq<char> {
    uuid + "-tool-"@ + decimal(n)
}

/// The unit of the `n`-th tool result among `blocks`.
pub open spec fn tool_unit(
    uuid: Seq<char>,
    timestamp: Seq<char>,
    cwd: Option<Seq<char>>,
    blocks: Seq<JsonView>,
    n: int,
) -> DisplayMessageView {
    let at = picked(blocks, true)[n];
    DisplayMessageView {
        display_id: tool_display_id(uuid, n as nat),
        ..base_unit(uuid, timestamp, cwd, "tool_result"@, seq![blocks[at as int]], seq![at], true)
    }
}

/// The tool result units of `blocks`, in the order of the blocks.
pub open spec fn tool_units(
    uuid: Seq<char>,
    timestamp: Seq<char>,
    cwd: Option<Seq<char>>,
    blocks: Seq<JsonView>,
) -> Seq<DisplayMessageView> {
    Seq::new(picked(blocks, true).len(), |n: int| tool_unit(uuid, timestamp, cwd, blocks, n))
}

/// The one unit of all blocks that are no tool results; none where every
/// block is a tool result.
pub open spec fn rest_units(
    uuid: Seq<char>,
    timestamp: Seq<char>,
    cwd: Option<Seq<char>>,
    blocks: Seq<JsonView>,
) -> Seq<DisplayMessageView> {
    let rest = picked(blocks, false);
    if rest.len() > 0 {
        seq![base_unit(uuid, timestamp, cwd, "user"@, blocks_at(blocks, rest), rest, true)]
    } else {
        Seq::empty()
    }
}

/// The units of an ordinary user record. A string gives one unit. A list
/// gives one unit for what is no tool result, then one for each tool result.
pub open spec fn user_units(
    uuid: Seq<char>,
    timestamp: Seq<char>,
    cwd: Option<Seq<char>>,
    content: Option<JsonView>,
) -> Seq<DisplayMessageView> {
    match content {
        Some(JsonView::Str(s)) => seq![
            base_unit(uuid, timestamp, cwd, "user"@, seq![JsonView::text_block(s)], seq![0usize], true),
        ],
        Some(JsonView::Arr(blocks)) => rest_units(uuid, timestamp, cwd, blocks) + tool_units(
            uuid,
            timestamp,
            cwd,
            blocks,
        ),
        _ => Seq::empty(),
    }
}

/// The units that a record of the given kind gives.
pub open spec fn units_of(kind: ClassificationView, msg: JsonView) -> Seq<DisplayMessageView> {
    let uuid = text_or_empty(msg.str_field("uuid"@));
    let timestamp = text_or_empty(msg.str_field("timestamp"@));
    let cwd = msg.str_field("cwd"@);
    let content = msg.content();
    match kind {
        ClassificationView::Skip => Seq::empty(),
        ClassificationView::Assistant => seq![
            DisplayMessageView {
                model: match msg.get("message"@) {
                    Some(m) => m.str_field("model"@),
                    None => None,
                },
                usage: match msg.get("message"@) {
                    Some(m) => m.get("usage"@),
                    None => None,
                },
                tool_use_result: msg.get("toolUseResult"@),
                todos: match msg.get("todos"@) {
                    Some(t) => t.as_array(),
                    None => None,
                },
                ..base_unit(
                    uuid,
                    timestamp,
                    cwd,
                    "assistant"@,
                    content_blocks(content),
                    content_positions(content),
                    true,
                )
            },
        ],
        ClassificationView::CompactSummary => seq![
            base_unit(
                uuid,
                timestamp,
                cwd,
                "compact_summary"@,
                seq![JsonView::text_block(plain_text(content))],
                seq![0usize],
                false,
            ),
        ],
        ClassificationView::SlashCommand(name) => seq![
            base_unit(
                uuid,
                timestamp,
                cwd,
                "user"@,
                seq![JsonView::text_block(name)],
                seq![0usize],
                false,
            ),
        ],
        ClassificationView::System { label, plan_source_path } => seq![
            DisplayMessageView {
                system_label: Some(label),
                plan_source_path,
                ..base_unit(
                    uuid,
                    timestamp,
                    cwd,
                    "system"@,
                    content_blocks(content),
                    content_positions(content),
                    false,
                )
            },
        ],
        ClassificationView::User => user_units(uuid, timestamp, cwd, content),
    }
}

/// The list after one more unit.
pub proof fn lemma_messages_push(messages: Seq<DisplayMessage>, next: DisplayMessage)
    ensures
        messages_view(messages.push(next)) == messages_view(messages).push(next@),
{
    assert(messages_view(messages.push(next)) =~= messages_view(messages).push(next@));
}

fn clone_text(o: &Option<String>) -> (r: Option<String>)
    ensures
        opt_text(r) == opt_text(*o),
{
    match o {
        Some(s) => Some(s.clone()),
        None => None,
    }
}

fn clone_json(o: Option<&Json>) -> (r: Option<Json>)
    ensures
        opt_json(r) == view_of(o),
{
    match o {
        Some(j) => Some(j.clone()),
        None => None,
    }
}

fn one_block(block: Json) -> (r: Vec<Json>)
    ensures
        items_view(r@) == seq![block@],
{
    let mut blocks: Vec<Json> = Vec::new();
    blocks.push(block);
    proof {
        lemma_items_view(blocks@);
        assert(items_view(blocks@) =~= seq![block@]);
    }
    blocks
}

fn one_position(at: usize) -> (r: Vec<usize>)
    ensures
        r@ == seq![at],
{
    let mut map: Vec<usize> = Vec::new();
    map.push(at);
    assert(map@ =~= seq![at]);
    map
}

fn plain_message(
    uuid: &str,
    timestamp: &str,
    cwd: Option<String>,
    kind: &str,
    content: Vec<Json>,
    block_index_map: Vec<usize>,
    editable: bool,
) -> (r: DisplayMessage)
    ensures
        r@ == base_unit(
            uuid@,
            timestamp@,
            opt_text(cwd),
            kind@,
            items_view(content@),
            block_index_map@,
            editable,
        ),
{
    DisplayMessage {
        source_uuid: uuid.to_owned(),
        display_id: uuid.to_owned(),
        display_type: kind.to_owned(),
        timestamp: timestamp.to_owned(),
        content,
        editable,
        block_index_map,
        model: None,
        usage: None,
        tool_use_result: None,
        todos: None,
        system_label: None,
        plan_source_path: None,
        cwd,
    }
}

/// The blocks of a record's content, each with its place in the record.
pub fn content_to_blocks(content: Option<&Json>) -> (r: (Vec<Json>, Vec<usize>))
    ensures
        items_view(r.0@) == content_blocks(view_of(content)),
        r.1@ == content_positions(view_of(content)),
{
    match content {
        Some(Json::Str(s)) => (one_block(Json::text_block(s.clone())), one_position(0)),
        Some(Json::Arr(blocks)) => {
            let mut map: Vec<usize> = Vec::new();
            let mut i: usize = 0;
            while i < blocks.len()
                invariant
                    i <= blocks@.len(),
                    map@.len() == i,
                    forall|k: int| 0 <= k < i ==> map@[k] == k,
                decreases blocks@.len() - i,
            {
                map.push(i);
                i = i + 1;
            }
            proof {
                lemma_items_view(blocks@);
                assert(map@ =~= positions(items_view(blocks@).len()));
            }
            (clone_items(blocks), map)
        },
        _ => (Vec::new(), Vec::new()),
    }
}

/// The plain text of a record's content, as an owned string.
pub fn extract_text_from_content(content: Option<&Json>) -> (r: String)
    ensures
        r@ == plain_text(view_of(content)),
{
    match content {
        Some(Json::Str(s)) => s.clone(),
        Some(Json::Arr(blocks)) => join_text_blocks(blocks),
        _ => String::new(),
    }
}

/// Appends the units of an ordinary user record: each tool result becomes a
/// unit of its own, and what is left becomes one unit before them.
pub fn build_user_display_messages(
    out: &mut Vec<DisplayMessage>,
    uuid: &str,
    timestamp: &str,
    cwd: Option<String>,
    content: Option<&Json>,
)
    ensures
        messages_view(final(out)@) == messages_view(old(out)@) + user_units(
            uuid@,
            timestamp@,
            opt_text(cwd),
            view_of(content),
        ),
{
    let ghost before = messages_view(out@);
    match content {
        Some(Json::Str(s)) => {
            let unit = plain_message(
                uuid,
                timestamp,
                cwd,
                "user",
                one_block(Json::text_block(s.clone())),
                one_position(0),
                true,
            );
            proof {
                lemma_messages_push(out@, unit);
                assert(before.push(unit@) =~= before + seq![unit@]);
            }
            out.push(unit);
        },
        Some(Json::Arr(blocks)) => {
            let ghost views = items_view(blocks@);
            proof {
                lemma_items_view(blocks@);
            }
            let mut rest_blocks: Vec<Json> = Vec::new();
            let mut rest_map: Vec<usize> = Vec::new();
            let mut tool_map: Vec<usize> = Vec::new();
            let mut i: usize = 0;
            while i < blocks.len()
                invariant
                    i <= blocks@.len(),
                    views.len() == blocks@.len(),
                    forall|k: int| 0 <= k < views.len() ==> (#[trigger] views[k]) == blocks@[k]@,
                    rest_map@ == picked(views.take(i as int), false),
                    tool_map@ == picked(views.take(i as int), true),
                    forall|k: int| 0 <= k < rest_map@.len() ==> (#[trigger] rest_map@[k]) < i,
                    forall|k: int| 0 <= k < tool_map@.len() ==> (#[trigger] tool_map@[k]) < i,
                    items_view(rest_blocks@).len() == rest_map@.len(),
                    forall|k: int|
                        0 <= k < rest_map@.len() ==> (#[trigger] items_view(rest_blocks@)[k])
                            == views[rest_map@[k] as int],
                decreases blocks@.len() - i,
            {
                proof {
                    let next = views.take(i as int + 1);
                    assert(next.drop_last() =~= views.take(i as int));
                    assert(next.last() == views[i as int]);
                }
                if blocks[i].has_kind("tool_result") {
                    tool_map.push(i);
                } else {
                    let block = blocks[i].clone();
                    proof {
                        lemma_items_view_push(rest_blocks@, block);
                    }
                    rest_blocks.push(block);
                    rest_map.push(i);
                }
                i = i + 1;
            }
            proof {
                assert(views.take(i as int) =~= views);
                assert(items_view(rest_blocks@) =~= blocks_at(views, rest_map@));
            }
            if rest_map.len() > 0 {
                let unit = plain_message(
                    uuid,
                    timestamp,
                    clone_text(&cwd),
                    "user",
                    rest_blocks,
                    rest_map,
                    true,
                );
                proof {
                    lemma_messages_push(out@, unit);
                    assert(before.push(unit@) =~= before + seq![unit@]);
                }
                out.push(unit);
            } else {
                proof {
                    assert(before =~= before + Seq::<DisplayMessageView>::empty());
                }
            }
            let ghost rest = rest_units(uuid@, timestamp@, opt_text(cwd), views);
            let ghost tools = tool_units(uuid@, timestamp@, opt_text(cwd), views);
            proof {
                assert(tools.take(0) =~= Seq::<DisplayMessageView>::empty());
                assert(before + rest =~= before + rest + tools.take(0));
            }
            let mut n: usize = 0;
            while n < tool_map.len()
                invariant
                    n <= tool_map@.len(),
                    views.len() == blocks@.len(),
                    forall|k: int| 0 <= k < views.len() ==> (#[trigger] views[k]) == blocks@[k]@,
                    tool_map@ == picked(views, true),
                    forall|k: int|
                        0 <= k < tool_map@.len() ==> (#[trigger] tool_map@[k]) < blocks@.len(),
                    tools == tool_units(uuid@, timestamp@, opt_text(cwd), views),
                    messages_view(out@) == before + rest + tools.take(n as int),
                decreases tool_map@.len() - n,
            {
                let at = tool_map[n];
                let mut unit = plain_message(
                    uuid,
                    timestamp,
                    clone_text(&cwd),
                    "tool_result",
                    one_block(blocks[at].clone()),
                    one_position(at),
                    true,
                );
                let mut display_id = uuid.to_owned();
                display_id.append("-tool-");
                display_id.append(decimal_text(n as u64).as_str());
                unit.display_id = display_id;
                proof {
                    assert(unit@ == tools[n as int]);
                    lemma_messages_push(out@, unit);
                    assert(tools.take(n as int).push(unit@) =~= tools.take(n as int + 1));
                    assert((before + rest + tools.take(n as int)).push(unit@) =~= before + rest
                        + tools.take(n as int + 1));
                }
                out.push(unit);
                n = n + 1;
            }
            proof {
                assert(tools.take(n as int) =~= tools);
                assert(before + rest + tools =~= before + (rest + tools));
            }
        },
        _ => {
            proof {
                assert(before =~= before + Seq::<DisplayMessageView>::empty());
            }
        },
    }
}

fn text_or_default(o: Option<&str>) -> (r: String)
    ensures
        r@ == text_or_empty(crate::json::text_of(o)),
{
    match o {
        Some(s) => s.to_owned(),
        None => String::new(),
    }
}

fn owned_text(o: Option<&str>) -> (r: Option<String>)
    ensures
        opt_text(r) == crate::json::text_of(o),
{
    match o {
        Some(s) => Some(s.to_owned()),
        None => None,
    }
}

/// Appends the units that a record of the given kind gives: none for a
/// skipped record, one for most kinds, and one or more for an ordinary user
/// record.
pub fn build_display_messages(
    out: &mut Vec<DisplayMessage>,
    classification: Classification,
    msg: &Json,
)
    ensures
        messages_view(final(out)@) == messages_view(old(out)@) + units_of(classification@, msg@),
{
    let ghost before = messages_view(out@);
    let uuid = text_or_default(msg.str_field("uuid"));
    let timestamp = text_or_default(msg.str_field("timestamp"));
    let cwd = owned_text(msg.str_field("cwd"));
    let content_val = msg.content();

    match classification {
        Classification::Skip => {
            proof {
                assert(before =~= before + Seq::<DisplayMessageView>::empty());
            }
        },
        Classification::Assistant => {
            let message = msg.get("message");
            let model = match message {
                Some(m) => owned_text(m.str_field("model")),
                None => None,
            };
            let usage = match message {
                Some(m) => clone_json(m.get("usage")),
                None => None,
            };
            let tool_use_result = clone_json(msg.get("toolUseResult"));
            let todos = match msg.get("todos") {
                Some(t) => match t.as_array() {
                    Some(items) => Some(clone_items(items)),
                    None => None,
                },
                None => None,
            };
            let (blocks, block_map) = content_to_blocks(content_val);
            let mut unit = plain_message(
                uuid.as_str(),
                timestamp.as_str(),
                cwd,
                "assistant",
                blocks,
                block_map,
                true,
            );
            unit.model = model;
            unit.usage = usage;
            unit.tool_use_result = tool_use_result;
            unit.todos = todos;
            proof {
                lemma_messages_push(out@, unit);
                assert(before.push(unit@) =~= before + seq![unit@]);
            }
            out.push(unit);
        },
        Classification::CompactSummary => {
            let text = extract_text_from_content(content_val);
            let unit = plain_message(
                uuid.as_str(),
                timestamp.as_str(),
                cwd,
                "compact_summary",
                one_block(Json::text_block(text)),
                one_position(0),
                false,
            );
            proof {
                lemma_messages_push(out@, unit);
                assert(before.push(unit@) =~= before + seq![unit@]);
            }
            out.push(unit);
        },
        Classification::SlashCommand(name) => {
            let unit = plain_message(
                uuid.as_str(),
                timestamp.as_str(),
                cwd,
                "user",
                one_block(Json::text_block(name)),
                one_position(0),
                false,
            );
            proof {
                lemma_messages_push(out@, unit);
                assert(before.push(unit@) =~= before + seq![unit@]);
            }
            out.push(unit);
        },
        Classification::System { label, plan_source_path } => {
            let (blocks, block_map) = content_to_blocks(content_val);
            let mut unit = plain_message(
                uuid.as_str(),
                timestamp.as_str(),
                cwd,
                "system",
                blocks,
                block_map,
                false,
            );
            unit.system_label = Some(label);
            unit.plan_source_path = plan_source_path;
            proof {
                lemma_messages_push(out@, unit);
                assert(before.push(unit@) =~= before + seq![unit@]);
            }
            out.push(unit);
        },
        Classification::User => {
            build_user_display_messages(out, uuid.as_str(), timestamp.as_str(), cwd, content_val);
        },
    }
}

/// The views of a list of tool invocations, each with its identifier.
pub open spec fn uses_view(uses: Seq<(String, ToolUseInfo)>) -> Seq<(Seq<char>, ToolUseInfoView)> {
    Seq::new(uses.len(), |i: int| (uses[i].0@, uses[i].1@))
}

/// The name that stands in for a tool without one.
pub open spec fn unknown_tool() -> Seq<char> {
    "unknown tool"@
}

/// The invocation that a block of kind `"tool_use"` with an identifier
/// describes: a missing name reads as `unknown_tool`, a missing input as the
/// empty object.
pub open spec fn tool_use_of(block: JsonView) -> (Seq<char>, ToolUseInfoView) {
    (
        block.str_field("id"@).unwrap(),
        ToolUseInfoView {
            name: match block.str_field("name"@) {
                Some(name) => name,
                None => unknown_tool(),
            },
            input: match block.get("input"@) {
                Some(input) => input,
                None => JsonView::Obj(Seq::empty()),
            },
        },
    )
}

/// The tool invocations among a list of blocks, in the order of the blocks.
pub open spec fn tool_uses_in(blocks: Seq<JsonView>) -> Seq<(Seq<char>, ToolUseInfoView)>
    decreases blocks.len(),
{
    if blocks.len() == 0 {
        Seq::empty()
    } else {
        let before = tool_uses_in(blocks.drop_last());
        let block = blocks.last();
        if block.has_kind("tool_use"@) && block.str_field("id"@) is Some {
            before.push(tool_use_of(block))
        } else {
            before
        }
    }
}

/// The tool invocations of a record: those of the blocks of an assistant
/// record, none for any other record.
pub open spec fn tool_uses(msg: JsonView) -> Seq<(Seq<char>, ToolUseInfoView)> {
    if msg.has_kind("assistant"@) {
        match msg.content() {
            Some(JsonView::Arr(blocks)) => tool_uses_in(blocks),
            _ => Seq::empty(),
        }
    } else {
        Seq::empty()
    }
}

/// The tool invocations that the blocks of an assistant record describe.
pub fn extract_tool_uses(msg: &Json) -> (r: Vec<(String, ToolUseInfo)>)
    ensures
        uses_view(r@) == tool_uses(msg@),
{
    let mut result: Vec<(String, ToolUseInfo)> = Vec::new();
    if !msg.has_kind("assistant") {
        assert(uses_view(result@) =~= Seq::empty());
        return result;
    }
    let blocks = match msg.content() {
        Some(Json::Arr(blocks)) => blocks,
        _ => {
            assert(uses_view(result@) =~= Seq::empty());
            return result;
        },
    };
    let ghost views = items_view(blocks@);
    proof {
        lemma_items_view(blocks@);
        assert(uses_view(result@) =~= Seq::empty());
    }
    let mut i: usize = 0;
    while i < blocks.len()
        invariant
            i <= blocks@.len(),
            views.len() == blocks@.len(),
            forall|k: int| 0 <= k < views.len() ==> (#[trigger] views[k]) == blocks@[k]@,
            uses_view(result@) == tool_uses_in(views.take(i as int)),
        decreases blocks@.len() - i,
    {
        proof {
            let next = views.take(i as int + 1);
            assert(next.drop_last() =~= views.take(i as int));
            assert(next.last() == views[i as int]);
        }
        let block = &blocks[i];
        if block.has_kind("tool_use") {
            if let Some(id) = block.str_field("id") {
                let name = match block.str_field("name") {
                    Some(name) => name.to_owned(),
                    None => "unknown tool".to_owned(),
                };
                let input = match block.get("input") {
                    Some(input) => input.clone(),
                    None => {
                        let empty = Json::Obj(Vec::new());
                        assert(empty@ == JsonView::Obj(Seq::empty()));
                        empty
                    },
                };
                let entry = (id.to_owned(), ToolUseInfo { name, input });
                proof {
                    assert(uses_view(result@.push(entry)) =~= uses_view(result@).push(
                        (entry.0@, entry.1@),
                    ));
                }
                result.push(entry);
            }
        }
        i = i + 1;
    }
    proof {
        assert(views.take(i as int) =~= views);
    }
    result
}

/// The usage object of a record: that of the message of an assistant
/// record, none for any other record.
pub open spec fn usage_of(msg: JsonView) -> Option<JsonView> {
    if msg.has_kind("assistant"@) {
        match msg.get("message"@) {
            Some(m) => m.get("usage"@),
            None => None,
        }
    } else {
        None
    }
}

/// The usage object of an assistant record.
pub fn extract_usage(msg: &Json) -> (r: Option<Json>)
    ensures
        opt_json(r) == usage_of(msg@),
{
    if !msg.has_kind("assistant") {
        return None;
    }
    match msg.get("message") {
        Some(m) => clone_json(m.get("usage")),
        None => None,
    }
}

/// A text that is there, as a line of its own.
pub open spec fn line_of(text: Option<Seq<char>>) -> Seq<char> {
    match text {
        Some(t) => t + "\n"@,
        None => Seq::empty(),
    }
}

/// The `text` members of the items of a list, one line each.
pub open spec fn item_lines(items: Seq<JsonView>) -> Seq<char>
    decreases items.len(),
{
    if items.len() == 0 {
        Seq::empty()
    } else {
        item_lines(items.drop_last()) + line_of(items.last().str_field("text"@))
    }
}

/// What the member `content` of a block adds to the text that is searched:
/// a string as a line, the `text` members of the items of a list.
pub open spec fn nested_text(content: Option<JsonView>) -> Seq<char> {
    match content {
        Some(JsonView::Str(s)) => s + "\n"@,
        Some(JsonView::Arr(items)) => item_lines(items),
        _ => Seq::empty(),
    }
}

/// The input of a block of kind `"tool_use"`, as JSON text on a line of its
/// own.
pub open spec fn input_text(block: JsonView) -> Seq<char> {
    if block.has_kind("tool_use"@) && block.get("input"@) is Some {
        compact_text(block.get("input"@).unwrap()) + "\n"@
    } else {
        Seq::empty()
    }
}

/// What one block adds to the text that is searched: its `text`, its
/// `thinking`, its `content` and, for a tool invocation, its input.
pub open spec fn block_text(block: JsonView) -> Seq<char> {
    line_of(block.str_field("text"@)) + line_of(block.str_field("thinking"@)) + nested_text(
        block.get("content"@),
    ) + input_text(block)
}

/// The text of a unit that is searched: what its blocks add, in their order.
pub open spec fn search_text(blocks: Seq<JsonView>) -> Seq<char>
    decreases blocks.len(),
{
    if blocks.len() == 0 {
        Seq::empty()
    } else {
        search_text(blocks.drop_last()) + block_text(blocks.last())
    }
}

fn push_line(buf: &mut String, text: Option<&str>)
    ensures
        final(buf)@ == old(buf)@ + line_of(crate::json::text_of(text)),
{
    match text {
        Some(t) => {
            buf.append(t);
            buf.append("\n");
            proof {
                assert(old(buf)@ + t@ + "\n"@ =~= old(buf)@ + (t@ + "\n"@));
            }
        },
        None => {
            proof {
                assert(old(buf)@ =~= old(buf)@ + Seq::<char>::empty());
            }
        },
    }
}

fn push_nested(buf: &mut String, content: Option<&Json>)
    ensures
        final(buf)@ == old(buf)@ + nested_text(view_of(content)),
{
    match content {
        Some(Json::Str(s)) => {
            push_line(buf, Some(s.as_str()));
        },
        Some(Json::Arr(items)) => {
            let ghost views = items_view(items@);
            let ghost start = buf@;
            proof {
                lemma_items_view(items@);
                assert(start =~= start + item_lines(views.take(0)));
            }
            let mut i: usize = 0;
            while i < items.len()
                invariant
                    i <= items@.len(),
                    views.len() == items@.len(),
                    forall|k: int| 0 <= k < views.len() ==> (#[trigger] views[k]) == items@[k]@,
                    buf@ == start + item_lines(views.take(i as int)),
                decreases items@.len() - i,
            {
                proof {
                    let next = views.take(i as int + 1);
                    assert(next.drop_last() =~= views.take(i as int));
                    assert(next.last() == views[i as int]);
                }
                let ghost so_far = buf@;
                push_line(buf, items[i].str_field("text"));
                proof {
                    let piece = line_of(views[i as int].str_field("text"@));
                    assert(so_far + piece =~= start + (item_lines(views.take(i as int)) + piece));
                }
                i = i + 1;
            }
            proof {
                assert(views.take(i as int) =~= views);
            }
        },
        _ => {
            proof {
                assert(old(buf)@ =~= old(buf)@ + Seq::<char>::empty());
            }
        },
    }
}

fn push_input(buf: &mut String, block: &Json)
    ensures
        final(buf)@ == old(buf)@ + input_text(block@),
{
    if block.has_kind("tool_use") {
        if let Some(input) = block.get("input") {
            input.write_compact(buf);
            buf.append("\n");
            proof {
                assert(old(buf)@ + compact_text(input@) + "\n"@ =~= old(buf)@ + (compact_text(
                    input@,
                ) + "\n"@));
            }
            return ;
        }
    }
    proof {
        assert(old(buf)@ =~= old(buf)@ + Seq::<char>::empty());
    }
}

/// The text of a unit that is searched, in the case in which it was written.
pub fn extract_search_text_original(content: &Vec<Json>) -> (r: String)
    ensures
        r@ == search_text(items_view(content@)),
{
    let ghost views = items_view(content@);
    proof {
        lemma_items_view(content@);
    }
    let mut buf = String::new();
    let mut i: usize = 0;
    while i < content.len()
        invariant
            i <= content@.len(),
            views.len() == content@.len(),
            forall|k: int| 0 <= k < views.len() ==> (#[trigger] views[k]) == content@[k]@,
            buf@ == search_text(views.take(i as int)),
        decreases content@.len() - i,
    {
        proof {
            let next = views.take(i as int + 1);
            assert(next.drop_last() =~= views.take(i as int));
            assert(next.last() == views[i as int]);
        }
        let block = &content[i];
        let ghost so_far = buf@;
        push_line(&mut buf, block.str_field("text"));
        push_line(&mut buf, block.str_field("thinking"));
        push_nested(&mut buf, block.get("content"));
        push_input(&mut buf, block);
        i = i + 1;
    }
    proof {
        assert(views.take(i as int) =~= views);
    }
    buf
}

/// The units of a session, in the order of its records.
pub open spec fn session_units(records: Seq<JsonView>) -> Seq<DisplayMessageView>
    decreases records.len(),
{
    if records.len() == 0 {
        Seq::empty()
    } else {
        session_units(records.drop_last()) + units_of(
            classification(records.last()),
            records.last(),
        )
    }
}

/// A map after a list of entries was put into it, one after another.
pub open spec fn with_uses(
    map: Map<Seq<char>, ToolUseInfoView>,
    uses: Seq<(Seq<char>, ToolUseInfoView)>,
) -> Map<Seq<char>, ToolUseInfoView>
    decreases uses.len(),
{
    if uses.len() == 0 {
        map
    } else {
        with_uses(map, uses.drop_last()).insert(uses.last().0, uses.last().1)
    }
}

/// The tool invocations of a session by their identifiers. Where two have
/// one identifier, the later one stays.
pub open spec fn session_tool_uses(records: Seq<JsonView>) -> Map<Seq<char>, ToolUseInfoView>
    decreases records.len(),
{
    if records.len() == 0 {
        Map::empty()
    } else {
        with_uses(session_tool_uses(records.drop_last()), tool_uses(records.last()))
    }
}

/// The token totals of a session.
pub open spec fn session_totals(records: Seq<JsonView>) -> TokenStats
    decreases records.len(),
{
    if records.len() == 0 {
        TokenStats::zero()
    } else {
        session_totals(records.drop_last()).plus(usage_of(records.last()))
    }
}

/// What is worked out for one record alone, before the records are folded.
struct PerMessageResult {
    classification: Classification,
    tool_uses: Vec<(String, ToolUseInfo)>,
    usage: Option<Json>,
}

impl PerMessageResult {
    /// The result belongs to the record `msg`.
    spec fn is_for(&self, msg: JsonView) -> bool {
        &&& self.classification@ == classification(msg)
        &&& uses_view(self.tool_uses@) == tool_uses(msg)
        &&& opt_json(self.usage) == usage_of(msg)
    }
}

/// Classifies one record and takes its tool invocations and its usage.
fn per_message(msg: &Json) -> (r: PerMessageResult)
    ensures
        r.is_for(msg@),
{
    PerMessageResult {
        classification: classify(msg),
        tool_uses: extract_tool_uses(msg),
        usage: extract_usage(msg),
    }
}

/// rayon's `par_iter`, `map` and `collect` into a `Vec`: `per_message` applied
/// to each record on the worker pool, the results in the order of the records.
#[verifier::external_body]
fn map_records(messages: &[Json]) -> (r: Vec<PerMessageResult>)
    ensures
        r@.len() == messages@.len(),
        forall|i: int| 0 <= i < r@.len() ==> (#[trigger] r@[i]).is_for(messages@[i]@),
{
    messages.par_iter().map(|msg| per_message(msg)).collect()
}

/// The text of one unit that is searched.
fn unit_search_text(unit: &DisplayMessage) -> (r: String)
    ensures
        r@ == search_text(unit@.content),
{
    extract_search_text_original(&unit.content)
}

/// rayon's `par_iter`, `map` and `collect` into a `Vec`: `unit_search_text`
/// applied to each unit on the worker pool, the texts in the order of the units.
#[verifier::external_body]
fn map_search_texts(units: &Vec<DisplayMessage>) -> (r: Vec<String>)
    ensures
        r@.len() == units@.len(),
        forall|i: int| 0 <= i < r@.len() ==> (#[trigger] r@[i])@ == search_text(units@[i]@.content),
{
    units.par_iter().map(|unit| unit_search_text(unit)).collect()
}

/// A text in lower case.
fn lowercase_text(text: &String) -> (r: String)
    ensures
        r@ == lowercase(text@),
{
    to_lowercase(text.as_str())
}

/// rayon's `par_iter`, `map` and `collect` into a `Vec`: `lowercase_text`
/// applied to each text on the worker pool, the results in the order of the
/// texts.
#[verifier::external_body]
fn map_lowercase(texts: &Vec<String>) -> (r: Vec<String>)
    ensures
        r@.len() == texts@.len(),
        forall|i: int| 0 <= i < r@.len() ==> (#[trigger] r@[i])@ == lowercase(texts@[i]@),
{
    texts.par_iter().map(|text| lowercase_text(text)).collect()
}

/// The two texts of each unit that are searched: as written, and in lower
/// case. Both lists run along the units.
pub fn index_texts(units: &Vec<DisplayMessage>) -> (r: (Vec<String>, Vec<String>))
    ensures
        r.0@.len() == units@.len(),
        r.1@.len() == units@.len(),
        forall|i: int|
            0 <= i < units@.len() ==> (#[trigger] r.0@[i])@ == search_text(units@[i]@.content),
        forall|i: int| 0 <= i < units@.len() ==> (#[trigger] r.1@[i])@ == lowercase(r.0@[i]@),
{
    let original_texts = map_search_texts(units);
    let lowercase_texts = map_lowercase(&original_texts);
    (original_texts, lowercase_texts)
}

/// Turns the records of a session file into what is shown of it, with the
/// two lists of texts that are searched: first the one in lower case, then
/// the one as written.
pub fn transform_session(messages: &[Json]) -> (r: (TransformedSession, Vec<String>, Vec<String>))
    ensures
        messages_view(r.0.display_messages@) == session_units(items_view(messages@)),
        forall|i: int|
            0 <= i < r.0.display_messages@.len() ==> (#[trigger] r.0.display_messages@[i])@.well_formed(),
        r.0.tool_use_map@ == session_tool_uses(items_view(messages@)),
        r.0.token_stats == session_totals(items_view(messages@)),
        r.1@.len() == r.0.display_messages@.len(),
        r.2@.len() == r.0.display_messages@.len(),
        forall|i: int|
            0 <= i < r.2@.len() ==> (#[trigger] r.2@[i])@ == search_text(
                r.0.display_messages@[i]@.content,
            ),
        forall|i: int| 0 <= i < r.1@.len() ==> (#[trigger] r.1@[i])@ == lowercase(r.2@[i]@),
{
    let ghost records = items_view(messages@);
    proof {
        lemma_items_view(messages@);
    }
    let per_msg = map_records(messages);

    let mut tool_use_map = ToolUseMap::new();
    let mut token_stats = TokenStats::default();
    let mut display_messages: Vec<DisplayMessage> = Vec::new();
    proof {
        assert(messages_view(display_messages@) =~= Seq::empty());
    }

    let mut i: usize = 0;
    while i < messages.len()
        invariant
            i <= messages@.len(),
            per_msg@.len() == messages@.len(),
            forall|k: int| 0 <= k < per_msg@.len() ==> (#[trigger] per_msg@[k]).is_for(
                messages@[k]@,
            ),
            records.len() == messages@.len(),
            forall|k: int| 0 <= k < records.len() ==> (#[trigger] records[k]) == messages@[k]@,
            messages_view(display_messages@) == session_units(records.take(i as int)),
            tool_use_map@ == session_tool_uses(records.take(i as int)),
            token_stats == session_totals(records.take(i as int)),
        decreases messages@.len() - i,
    {
        proof {
            let next = records.take(i as int + 1);
            assert(next.drop_last() =~= records.take(i as int));
            assert(next.last() == records[i as int]);
        }
        let result = &per_msg[i];
        let msg = &messages[i];
        let ghost uses = uses_view(result.tool_uses@);
        let ghost start = tool_use_map@;
        proof {
            assert(uses.take(0) =~= Seq::empty());
        }
        let mut u: usize = 0;
        while u < result.tool_uses.len()
            invariant
                u <= result.tool_uses@.len(),
                uses == uses_view(result.tool_uses@),
                tool_use_map@ == with_uses(start, uses.take(u as int)),
            decreases result.tool_uses@.len() - u,
        {
            proof {
                let next = uses.take(u as int + 1);
                assert(next.drop_last() =~= uses.take(u as int));
                assert(next.last() == uses[u as int]);
            }
            let entry = &result.tool_uses[u];
            tool_use_map.insert(entry.0.clone(), entry.1.clone());
            u = u + 1;
        }
        proof {
            assert(uses.take(u as int) =~= uses);
        }
        token_stats.accumulate(&result.usage);
        build_display_messages(&mut display_messages, result.classification.clone(), msg);
        i = i + 1;
    }
    proof {
        assert(records.take(i as int) =~= records);
    }

    proof {
        law_session_units_are_well_formed(records);
        assert forall|k: int| 0 <= k < display_messages@.len() implies (
        #[trigger] display_messages@[k])@.well_formed() by {
            assert(messages_view(display_messages@)[k] == display_messages@[k]@);
        }
    }
    let (original_texts, search_texts) = index_texts(&display_messages);
    (TransformedSession { display_messages, tool_use_map, token_stats }, search_texts, original_texts)
}

/// Every unit of a record has as many block positions as blocks.
pub proof fn law_units_are_well_formed(kind: ClassificationView, msg: JsonView)
    ensures
        forall|i: int|
            0 <= i < units_of(kind, msg).len() ==> (#[trigger] units_of(kind, msg)[i]).well_formed(),
{
}

/// Every unit of a session has as many block positions as blocks.
pub proof fn law_session_units_are_well_formed(records: Seq<JsonView>)
    ensures
        forall|i: int|
            0 <= i < session_units(records).len() ==> (#[trigger] session_units(
                records,
            )[i]).well_formed(),
    decreases records.len(),
{
    if records.len() > 0 {
        law_session_units_are_well_formed(records.drop_last());
        law_units_are_well_formed(classification(records.last()), records.last());
        let before = session_units(records.drop_last());
        let last = units_of(classification(records.last()), records.last());
        assert forall|i: int| 0 <= i < session_units(records).len() implies (
        #[trigger] session_units(records)[i]).well_formed() by {
            if i < before.len() {
                assert(session_units(records)[i] == before[i]);
            } else {
                assert(session_units(records)[i] == last[i - before.len()]);
            }
        }
    }
}

/// The kind of the one unit that a record of a kind gives without a split.
pub open spec fn unit_kind(kind: ClassificationView) -> Seq<char> {
    match kind {
        ClassificationView::Assistant => "assistant"@,
        ClassificationView::CompactSummary => "compact_summary"@,
        ClassificationView::System { .. } => "system"@,
        _ => "user"@,
    }
}

/// A record whose content is a string gives exactly one unit, unless the
/// record is skipped: a unit of the kind of the record, with the record's
/// identifier, one block, and never a tool result.
pub proof fn law_string_content_gives_one_unit(msg: JsonView)
    requires
        msg.content() is Some,
        msg.content().unwrap() is Str,
        !(classification(msg) is Skip),
    ensures
        units_of(classification(msg), msg).len() == 1,
        units_of(classification(msg), msg)[0].display_type == unit_kind(classification(msg)),
        units_of(classification(msg), msg)[0].display_type != "tool_result"@,
        units_of(classification(msg), msg)[0].display_id == units_of(
            classification(msg),
            msg,
        )[0].source_uuid,
        units_of(classification(msg), msg)[0].content.len() == 1,
        units_of(classification(msg), msg)[0].block_index_map == seq![0usize],
{
    reveal_strlit("tool_result");
    reveal_strlit("assistant");
    reveal_strlit("compact_summary");
    reveal_strlit("system");
    reveal_strlit("user");
    let unit = units_of(classification(msg), msg)[0];
    assert(unit.display_type.len() != "tool_result"@.len() || unit.display_type[0]
        != "tool_result"@[0]);
}

/// How many of the blocks are tool results.
pub open spec fn count_tool_results(blocks: Seq<JsonView>) -> nat
    decreases blocks.len(),
{
    if blocks.len() == 0 {
        0
    } else if is_tool_result(blocks.last()) {
        count_tool_results(blocks.drop_last()) + 1
    } else {
        count_tool_results(blocks.drop_last())
    }
}

/// The block positions of a list of units, one unit after the other.
pub open spec fn joined_maps(units: Seq<DisplayMessageView>) -> Seq<usize>
    decreases units.len(),
{
    if units.len() == 0 {
        Seq::empty()
    } else {
        joined_maps(units.drop_last()) + units.last().block_index_map
    }
}

/// The picked positions are as many as there are such blocks, and each one
/// is the position of a block.
pub proof fn lemma_picked(blocks: Seq<JsonView>)
    requires
        blocks.len() <= usize::MAX,
    ensures
        picked(blocks, true).len() == count_tool_results(blocks),
        picked(blocks, false).len() == blocks.len() - count_tool_results(blocks),
        (picked(blocks, false) + picked(blocks, true)).to_multiset() == positions(
            blocks.len(),
        ).to_multiset(),
    decreases blocks.len(),
{
    if blocks.len() == 0 {
        assert(picked(blocks, false) + picked(blocks, true) =~= positions(0));
    } else {
        let shorter = blocks.drop_last();
        let at = (blocks.len() - 1) as usize;
        lemma_picked(shorter);
        let rest = picked(shorter, false);
        let tools = picked(shorter, true);
        assert(positions(blocks.len()) =~= positions(shorter.len()).push(at));
        to_multiset_build(positions(shorter.len()), at);
        if is_tool_result(blocks.last()) {
            assert(rest + tools.push(at) =~= (rest + tools).push(at));
            to_multiset_build(rest + tools, at);
        } else {
            lemma_multiset_commutative(rest.push(at), tools);
            lemma_multiset_commutative(rest, tools);
            to_multiset_build(rest, at);
            assert(rest.push(at).to_multiset().add(tools.to_multiset()) =~= rest.to_multiset().add(
                tools.to_multiset(),
            ).insert(at));
        }
    }
}

/// The block positions of the first `n` tool result units are the first `n`
/// positions of tool results.
proof fn lemma_tool_unit_maps(
    uuid: Seq<char>,
    timestamp: Seq<char>,
    cwd: Option<Seq<char>>,
    blocks: Seq<JsonView>,
    n: int,
)
    requires
        0 <= n <= picked(blocks, true).len(),
    ensures
        joined_maps(tool_units(uuid, timestamp, cwd, blocks).take(n)) == picked(blocks, true).take(
            n,
        ),
    decreases n,
{
    let units = tool_units(uuid, timestamp, cwd, blocks);
    let at = picked(blocks, true);
    if n == 0 {
        assert(at.take(0) =~= Seq::<usize>::empty());
    } else {
        lemma_tool_unit_maps(uuid, timestamp, cwd, blocks, n - 1);
        assert(units.take(n).drop_last() =~= units.take(n - 1));
        assert(units.take(n).last().block_index_map == seq![at[n - 1]]);
        assert(at.take(n - 1) + seq![at[n - 1]] =~= at.take(n));
    }
}

/// The units of one more list after another have their positions joined.
proof fn lemma_joined_maps_add(a: Seq<DisplayMessageView>, b: Seq<DisplayMessageView>)
    ensures
        joined_maps(a + b) == joined_maps(a) + joined_maps(b),
    decreases b.len(),
{
    if b.len() == 0 {
        assert(a + b =~= a);
        assert(joined_maps(a) + joined_maps(b) =~= joined_maps(a));
    } else {
        lemma_joined_maps_add(a, b.drop_last());
        assert((a + b).drop_last() =~= a + b.drop_last());
        assert(joined_maps(a) + joined_maps(b.drop_last()) + b.last().block_index_map
            =~= joined_maps(a) + (joined_maps(b.drop_last()) + b.last().block_index_map));
    }
}

/// An ordinary user record with `n` blocks, `k` of them tool results, gives
/// one unit of kind `"user"` first where `n - k > 0` and none else, then `k`
/// units of kind `"tool_result"`; and the block positions of all these units
/// together are the positions `0 .. n`, each one once.
pub proof fn law_split_covers_every_block(
    uuid: Seq<char>,
    timestamp: Seq<char>,
    cwd: Option<Seq<char>>,
    blocks: Seq<JsonView>,
)
    requires
        blocks.len() <= usize::MAX,
    ensures
        ({
            let units = user_units(uuid, timestamp, cwd, Some(JsonView::Arr(blocks)));
            let k = count_tool_results(blocks);
            let first = if blocks.len() - k > 0 {
                1int
            } else {
                0int
            };
            &&& k <= blocks.len()
            &&& units.len() == first + k
            &&& first == 1 ==> units[0].display_type == "user"@
            &&& forall|i: int|
                first <= i < units.len() ==> (#[trigger] units[i]).display_type == "tool_result"@
            &&& forall|i: int| 0 <= i < units.len() ==> (#[trigger] units[i]).well_formed()
            &&& joined_maps(units).to_multiset() == positions(blocks.len()).to_multiset()
        }),
{
    lemma_picked(blocks);
    let rest = rest_units(uuid, timestamp, cwd, blocks);
    let tools = tool_units(uuid, timestamp, cwd, blocks);
    lemma_tool_unit_maps(uuid, timestamp, cwd, blocks, tools.len() as int);
    assert(tools.take(tools.len() as int) =~= tools);
    assert(picked(blocks, true).take(tools.len() as int) =~= picked(blocks, true));
    lemma_joined_maps_add(rest, tools);
    if rest.len() > 0 {
        assert(rest.drop_last() =~= Seq::<DisplayMessageView>::empty());
        assert(joined_maps(rest.drop_last()) =~= Seq::<usize>::empty());
        assert(joined_maps(rest) =~= picked(blocks, false));
    } else {
        assert(joined_maps(rest) =~= picked(blocks, false));
    }
}

} // verus!
