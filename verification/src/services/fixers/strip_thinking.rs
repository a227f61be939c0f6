use vstd::prelude::*;
use vstd::string::*;
use crate::json::{
    fields_view, find_member, items_view, lemma_fields_view, lemma_items_view,
    lemma_items_view_push, lemma_member_place, with_member, Json, JsonView,
};
use crate::services::fixers::{FixDefinition, FixDefinitionView, FixLevel, FixResult, FixResultView};
use crate::text::{decimal, decimal_text, texts_view};

verus! {

/// The definition of the repair that takes the thinking blocks out of a
/// session.
pub open spec fn strip_thinking_definition() -> FixDefinitionView {
    FixDefinitionView {
        id: "strip_thinking"@,
        name: "400 (thinking block) 错误"@,
        description: "API Error: 400 {\"type\":\"error\",\"error\":{\"type\":\"invalid_request_error\",\"message\":\"messages.N.content.0: Invalid `signature` in `thinking` block\"}}\n\n该错误发生在会话文件中存在过期或无效签名的 thinking 块时，尝试 resume 时因签名校验失败而报 400 错误。"@,
        fix_method: "去除会话文件中所有 thinking 和 redacted_thinking 类型的内容块，保留其余消息内容不变。"@,
        tags: seq![
            "thinking"@,
            "redacted_thinking"@,
            "400"@,
            "invalid_request_error"@,
            "signature"@,
            "resume"@,
        ],
        level: FixLevel::Entry,
    }
}

/// What this repair is and does.
pub fn definition() -> (r: FixDefinition)
    ensures
        r@ == strip_thinking_definition(),
{
    let mut tags: Vec<String> = Vec::new();
    tags.push("thinking".to_owned());
    tags.push("redacted_thinking".to_owned());
    tags.push("400".to_owned());
    tags.push("invalid_request_error".to_owned());
    tags.push("signature".to_owned());
    tags.push("resume".to_owned());
    proof {
        assert(texts_view(tags@) =~= strip_thinking_definition().tags);
    }
    FixDefinition {
        id: "strip_thinking".to_owned(),
        name: "400 (thinking block) 错误".to_owned(),
        description: "API Error: 400 {\"type\":\"error\",\"error\":{\"type\":\"invalid_request_error\",\"message\":\"messages.N.content.0: Invalid `signature` in `thinking` block\"}}\n\n该错误发生在会话文件中存在过期或无效签名的 thinking 块时，尝试 resume 时因签名校验失败而报 400 错误。".to_owned(),
        fix_method: "去除会话文件中所有 thinking 和 redacted_thinking 类型的内容块，保留其余消息内容不变。".to_owned(),
        tags,
        level: FixLevel::Entry,
    }
}

/// A block that holds what the model thought, openly or redacted.
pub open spec fn is_thinking(block: JsonView) -> bool {
    block.has_kind("thinking"@) || block.has_kind("redacted_thinking"@)
}

/// The blocks that are no thinking blocks, in their order.
pub open spec fn kept_blocks(blocks: Seq<JsonView>) -> Seq<JsonView>
    decreases blocks.len(),
{
    if blocks.len() == 0 {
        Seq::empty()
    } else if is_thinking(blocks.last()) {
        kept_blocks(blocks.drop_last())
    } else {
        kept_blocks(blocks.drop_last()).push(blocks.last())
    }
}

/// The names of a path.
pub open spec fn path_view(path: Seq<&str>) -> Seq<Seq<char>> {
    Seq::new(path.len(), |i: int| path[i]@)
}

/// The value with the thinking blocks taken out of the list that stands at
/// the end of the path, from the name `from` of the path on. A value without
/// such a list stays as it is.
pub open spec fn stripped_from(v: JsonView, path: Seq<Seq<char>>, from: int) -> JsonView
    decreases path.len() - from,
{
    if from >= path.len() {
        match v {
            JsonView::Arr(items) => JsonView::Arr(kept_blocks(items)),
            _ => v,
        }
    } else {
        match v.get(path[from]) {
            Some(child) => with_member(v, path[from], stripped_from(child, path, from + 1)),
            None => v,
        }
    }
}

/// Whether the list at the end of the path holds a thinking block.
pub open spec fn loses_blocks(v: JsonView, path: Seq<Seq<char>>, from: int) -> bool
    decreases path.len() - from,
{
    if from >= path.len() {
        match v {
            JsonView::Arr(items) => kept_blocks(items).len() != items.len(),
            _ => false,
        }
    } else {
        match v.get(path[from]) {
            Some(child) => loses_blocks(child, path, from + 1),
            None => false,
        }
    }
}

fn is_thinking_block(block: &Json) -> (r: bool)
    ensures
        r == is_thinking(block@),
{
    block.has_kind("thinking") || block.has_kind("redacted_thinking")
}

fn keep_blocks(blocks: Vec<Json>) -> (r: Vec<Json>)
    ensures
        items_view(r@) == kept_blocks(items_view(blocks@)),
{
    let ghost views = items_view(blocks@);
    let ghost all = blocks@;
    let mut kept: Vec<Json> = Vec::new();
    proof {
        lemma_items_view(blocks@);
        lemma_items_view(kept@);
        assert(items_view(kept@) =~= Seq::empty());
        assert(views.take(0) =~= Seq::empty());
    }
    for block in it: blocks
        invariant
            it.seq() == all,
            views.len() == all.len(),
            forall|k: int| 0 <= k < views.len() ==> (#[trigger] views[k]) == all[k]@,
            items_view(kept@) == kept_blocks(views.take(it.index() as int)),
    {
        proof {
            let next = views.take(it.index() + 1);
            assert(next.drop_last() =~= views.take(it.index() as int));
            assert(next.last() == views[it.index() as int]);
        }
        if !is_thinking_block(&block) {
            proof {
                lemma_items_view_push(kept@, block);
            }
            kept.push(block);
        }
    }
    proof {
        assert(views.take(all.len() as int) =~= views);
    }
    kept
}

fn strip_owned(value: Json, path: &[&str], from: usize) -> (r: (Json, bool))
    requires
        from <= path@.len(),
    ensures
        r.0@ == stripped_from(value@, path_view(path@), from as int),
        r.1 == loses_blocks(value@, path_view(path@), from as int),
    decreases path@.len() - from,
{
    if from >= path.len() {
        match value {
            Json::Arr(items) => {
                let count = items.len();
                proof {
                    lemma_items_view(items@);
                }
                let kept = keep_blocks(items);
                proof {
                    lemma_items_view(kept@);
                }
                let changed = kept.len() != count;
                (Json::Arr(kept), changed)
            },
            other => (other, false),
        }
    } else {
        match value {
            Json::Obj(mut fields) => {
                let ghost before = fields_view(fields@);
                proof {
                    lemma_fields_view(fields@);
                    lemma_member_place(before, path@[from as int]@);
                }
                match find_member(&fields, path[from]) {
                    Some(i) => {
                        let (key, child) = fields.remove(i);
                        let (stripped, changed) = strip_owned(child, path, from + 1);
                        fields.insert(i, (key, stripped));
                        proof {
                            lemma_fields_view(fields@);
                            assert(fields_view(fields@) =~= before.update(
                                i as int,
                                (before[i as int].0, stripped@),
                            ));
                        }
                        (Json::Obj(fields), changed)
                    },
                    None => (Json::Obj(fields), false),
                }
            },
            other => (other, false),
        }
    }
}

/// Takes the thinking blocks out of the list that stands in `value` at the
/// end of `path`, and says whether there was one.
pub fn remove_thinking_blocks(value: &mut Json, path: &[&str]) -> (r: bool)
    ensures
        final(value)@ == stripped_from(old(value)@, path_view(path@), 0),
        r == loses_blocks(old(value)@, path_view(path@), 0),
{
    let mut taken = Json::Null;
    std::mem::swap(value, &mut taken);
    let (stripped, changed) = strip_owned(taken, path, 0);
    *value = stripped;
    changed
}

/// Where the content blocks of a record stand.
pub open spec fn content_path() -> Seq<Seq<char>> {
    seq!["message"@, "content"@]
}

/// The records with the thinking blocks taken out of their content.
pub open spec fn stripped_records(records: Seq<JsonView>) -> Seq<JsonView> {
    Seq::new(records.len(), |i: int| stripped_from(records[i], content_path(), 0))
}

/// How many of the records hold a thinking block in their content.
pub open spec fn count_affected(records: Seq<JsonView>) -> nat
    decreases records.len(),
{
    if records.len() == 0 {
        0
    } else if loses_blocks(records.last(), content_path(), 0) {
        count_affected(records.drop_last()) + 1
    } else {
        count_affected(records.drop_last())
    }
}

/// What the repair says after it changed `affected` of `total` records.
pub open spec fn strip_result(total: nat, affected: nat) -> FixResultView {
    FixResultView {
        success: true,
        message: if total == 0 {
            "会话文件为空，无需修复"@
        } else if affected == 0 {
            "未发现 thinking 内容块，无需修复"@
        } else {
            "成功修复：已从 "@ + decimal(affected) + " 条消息中移除 thinking/redacted_thinking 内容块"@
        },
        affected_lines: affected as usize,
    }
}

/// Takes the thinking blocks out of the content of every record. Never
/// fails.
pub fn execute(messages: &mut Vec<Json>) -> (r: Result<FixResult, String>)
    ensures
        items_view(final(messages)@) == stripped_records(items_view(old(messages)@)),
        r is Ok,
        r.unwrap()@ == strip_result(
            old(messages)@.len() as nat,
            count_affected(items_view(old(messages)@)),
        ),
{
    let ghost records = items_view(messages@);
    let ghost all = messages@;
    let mut taken: Vec<Json> = Vec::new();
    std::mem::swap(messages, &mut taken);
    let total = taken.len();
    let mut path: Vec<&str> = Vec::new();
    path.push("message");
    path.push("content");
    let mut repaired: Vec<Json> = Vec::new();
    let mut affected: usize = 0;
    proof {
        lemma_items_view(all);
        lemma_items_view(repaired@);
        assert(path_view(path@) =~= content_path());
        assert(records.take(0) =~= Seq::empty());
        assert(items_view(repaired@) =~= stripped_records(records.take(0)));
    }
    for msg in it: taken
        invariant
            it.seq() == all,
            records.len() == all.len(),
            forall|k: int| 0 <= k < records.len() ==> (#[trigger] records[k]) == all[k]@,
            path_view(path@) == content_path(),
            items_view(repaired@) == stripped_records(records.take(it.index() as int)),
            affected == count_affected(records.take(it.index() as int)),
            affected <= it.index(),
            all.len() == total,
    {
        proof {
            let next = records.take(it.index() + 1);
            assert(next.drop_last() =~= records.take(it.index() as int));
            assert(next.last() == records[it.index() as int]);
        }
        let mut msg = msg;
        let ghost so_far = items_view(repaired@);
        if remove_thinking_blocks(&mut msg, path.as_slice()) {
            affected = affected + 1;
        }
        proof {
            lemma_items_view_push(repaired@, msg);
            assert(so_far.push(msg@) =~= stripped_records(records.take(it.index() + 1)));
        }
        repaired.push(msg);
    }
    proof {
        assert(records.take(all.len() as int) =~= records);
    }
    *messages = repaired;
    let message = if total == 0 {
        "会话文件为空，无需修复".to_owned()
    } else if affected == 0 {
        "未发现 thinking 内容块，无需修复".to_owned()
    } else {
        let mut text = "成功修复：已从 ".to_owned();
        text.append(decimal_text(affected as u64).as_str());
        text.append(" 条消息中移除 thinking/redacted_thinking 内容块");
        text
    };
    Ok(FixResult { success: true, message, affected_lines: affected })
}

} // verus!
