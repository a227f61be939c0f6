use vstd::prelude::*;
use crate::json::{
    fields_view, find_member, items_view, lemma_fields_view, lemma_items_view, lemma_member_place,
    parsed, put_member, set_member, with_member, Json, JsonView,
};
use crate::text::{same_text, texts_view};

verus! {

/// The new text of one content block of a record.
#[derive(Clone, Debug)]
pub struct BlockEdit {
    /// The block's place in the content of the record.
    pub index: usize,
    pub text: String,
}

/// The new text of one block, as contracts speak of it.
pub struct BlockEditView {
    pub index: usize,
    pub text: Seq<char>,
}

impl View for BlockEdit {
    type V = BlockEditView;

    open spec fn view(&self) -> BlockEditView {
        BlockEditView { index: self.index, text: self.text@ }
    }
}

/// The views of a list of edits, in order.
pub open spec fn edits_view(edits: Seq<BlockEdit>) -> Seq<BlockEditView> {
    Seq::new(edits.len(), |i: int| edits[i]@)
}

/// Whether a record has one of the identifiers. A record without an
/// identifier has none of them.
pub open spec fn is_one_of(msg: JsonView, uuids: Seq<Seq<char>>) -> bool {
    match msg.str_field("uuid"@) {
        Some(uuid) => uuids.contains(uuid),
        None => false,
    }
}

/// The records that have none of the identifiers, in their order.
pub open spec fn without(records: Seq<JsonView>, uuids: Seq<Seq<char>>) -> Seq<JsonView>
    decreases records.len(),
{
    if records.len() == 0 {
        Seq::empty()
    } else if is_one_of(records.last(), uuids) {
        without(records.drop_last(), uuids)
    } else {
        without(records.drop_last(), uuids).push(records.last())
    }
}

fn has_one_of(msg: &Json, uuids: &Vec<String>) -> (r: bool)
    ensures
        r == is_one_of(msg@, texts_view(uuids@)),
{
    let uuid = match msg.str_field("uuid") {
        Some(uuid) => uuid,
        None => {
            return false;
        },
    };
    let ghost all = texts_view(uuids@);
    let mut i: usize = 0;
    while i < uuids.len()
        invariant
            i <= uuids@.len(),
            all == texts_view(uuids@),
            msg@.str_field("uuid"@) == Some(uuid@),
            forall|k: int| 0 <= k < i ==> all[k] != uuid@,
        decreases uuids@.len() - i,
    {
        if same_text(uuids[i].as_str(), uuid) {
            assert(all[i as int] == uuid@);
            return true;
        }
        i = i + 1;
    }
    false
}

/// The records without those that have one of the identifiers.
pub fn delete_messages(messages: Vec<Json>, message_uuids: &Vec<String>) -> (r: Vec<Json>)
    ensures
        items_view(r@) == without(items_view(messages@), texts_view(message_uuids@)),
{
    let ghost records = items_view(messages@);
    let ghost all = messages@;
    proof {
        lemma_items_view(messages@);
    }
    let mut kept: Vec<Json> = Vec::new();
    proof {
        lemma_items_view(kept@);
        assert(items_view(kept@) =~= Seq::empty());
        assert(records.take(0) =~= Seq::empty());
    }
    for msg in it: messages
        invariant
            it.seq() == all,
            records.len() == all.len(),
            forall|k: int| 0 <= k < records.len() ==> (#[trigger] records[k]) == all[k]@,
            items_view(kept@) == without(
                records.take(it.index() as int),
                texts_view(message_uuids@),
            ),
    {
        proof {
            let next = records.take(it.index() + 1);
            assert(next.drop_last() =~= records.take(it.index() as int));
            assert(next.last() == records[it.index() as int]);
        }
        if !has_one_of(&msg, message_uuids) {
            proof {
                crate::json::lemma_items_view_push(kept@, msg);
            }
            kept.push(msg);
        }
    }
    proof {
        assert(records.take(all.len() as int) =~= records);
    }
    kept
}

/// The records without the one that has the identifier.
pub fn delete_message(messages: Vec<Json>, message_uuid: &str) -> (r: Vec<Json>)
    ensures
        items_view(r@) == without(items_view(messages@), seq![message_uuid@]),
{
    let mut uuids: Vec<String> = Vec::new();
    uuids.push(message_uuid.to_owned());
    proof {
        assert(texts_view(uuids@) =~= seq![message_uuid@]);
    }
    delete_messages(messages, &uuids)
}

/// A block with a new text. The text goes where the kind of the block keeps
/// its text: a tool invocation takes it as its input if it is JSON and stays
/// as it is otherwise; a block of another kind takes it only where it has a
/// member `text`; what is no object stays as it is.
pub open spec fn edited_block(block: JsonView, text: Seq<char>) -> JsonView {
    match block {
        JsonView::Obj(fields) => {
            if block.has_kind("text"@) {
                JsonView::Obj(put_member(fields, "text"@, JsonView::Str(text)))
            } else if block.has_kind("thinking"@) {
                if block.get("thinking"@) is Some {
                    JsonView::Obj(put_member(fields, "thinking"@, JsonView::Str(text)))
                } else {
                    JsonView::Obj(put_member(fields, "text"@, JsonView::Str(text)))
                }
            } else if block.has_kind("tool_use"@) {
                match parsed(text) {
                    Some(input) => JsonView::Obj(put_member(fields, "input"@, input)),
                    None => block,
                }
            } else if block.has_kind("tool_result"@) {
                JsonView::Obj(put_member(fields, "content"@, JsonView::Str(text)))
            } else if block.get("text"@) is Some {
                JsonView::Obj(put_member(fields, "text"@, JsonView::Str(text)))
            } else {
                block
            }
        },
        _ => block,
    }
}

/// The blocks after the edits, one after another. An edit of a place that
/// the list does not have changes nothing.
pub open spec fn edited_blocks(blocks: Seq<JsonView>, edits: Seq<BlockEditView>) -> Seq<JsonView>
    decreases edits.len(),
{
    if edits.len() == 0 {
        blocks
    } else {
        let before = edited_blocks(blocks, edits.drop_last());
        let edit = edits.last();
        if edit.index < before.len() {
            before.update(edit.index as int, edited_block(before[edit.index as int], edit.text))
        } else {
            before
        }
    }
}

/// A content after the edits: a string becomes the text of the first edit;
/// the blocks of a list are edited; any other content stays as it is.
pub open spec fn edited_content(content: JsonView, edits: Seq<BlockEditView>) -> JsonView {
    match content {
        JsonView::Str(_) => if edits.len() > 0 {
            JsonView::Str(edits[0].text)
        } else {
            content
        },
        JsonView::Arr(blocks) => JsonView::Arr(edited_blocks(blocks, edits)),
        _ => content,
    }
}

/// A record after the edits of the content of its message.
pub open spec fn edited_record(msg: JsonView, edits: Seq<BlockEditView>) -> JsonView {
    match msg.get("message"@) {
        Some(message) => match message.get("content"@) {
            Some(content) => with_member(
                msg,
                "message"@,
                with_member(message, "content"@, edited_content(content, edits)),
            ),
            None => msg,
        },
        None => msg,
    }
}

/// The records after the edits of the content of each record that has the
/// identifier.
pub open spec fn edited_records(records: Seq<JsonView>, uuid: Seq<char>, edits: Seq<BlockEditView>)
    -> Seq<JsonView>
    decreases records.len(),
{
    if records.len() == 0 {
        Seq::empty()
    } else if records.last().str_field("uuid"@) == Some(uuid) {
        edited_records(records.drop_last(), uuid, edits).push(edited_record(records.last(), edits))
    } else {
        edited_records(records.drop_last(), uuid, edits).push(records.last())
    }
}

fn text_value(text: &String) -> (r: Json)
    ensures
        r@ == JsonView::Str(text@),
{
    Json::Str(text.clone())
}

fn edit_block(block: Json, text: &String) -> (r: Json)
    ensures
        r@ == edited_block(block@, text@),
{
    let is_text = block.has_kind("text");
    let is_thinking = block.has_kind("thinking");
    let is_tool_use = block.has_kind("tool_use");
    let is_tool_result = block.has_kind("tool_result");
    let has_thinking = block.get("thinking").is_some();
    let has_text = block.get("text").is_some();
    match block {
        Json::Obj(mut fields) => {
            if is_text {
                set_member(&mut fields, "text", text_value(text));
            } else if is_thinking {
                if has_thinking {
                    set_member(&mut fields, "thinking", text_value(text));
                } else {
                    set_member(&mut fields, "text", text_value(text));
                }
            } else if is_tool_use {
                if let Some(input) = Json::parse(text.as_str()) {
                    set_member(&mut fields, "input", input);
                }
            } else if is_tool_result {
                set_member(&mut fields, "content", text_value(text));
            } else if has_text {
                set_member(&mut fields, "text", text_value(text));
            }
            Json::Obj(fields)
        },
        other => other,
    }
}

fn edit_blocks(blocks: Vec<Json>, edits: &Vec<BlockEdit>) -> (r: Vec<Json>)
    ensures
        items_view(r@) == edited_blocks(items_view(blocks@), edits_view(edits@)),
{
    let mut blocks = blocks;
    let ghost start = items_view(blocks@);
    let ghost all = edits_view(edits@);
    proof {
        assert(all.take(0) =~= Seq::empty());
    }
    let mut i: usize = 0;
    while i < edits.len()
        invariant
            i <= edits@.len(),
            all == edits_view(edits@),
            items_view(blocks@) == edited_blocks(start, all.take(i as int)),
        decreases edits@.len() - i,
    {
        proof {
            let next = all.take(i as int + 1);
            assert(next.drop_last() =~= all.take(i as int));
            assert(next.last() == edits@[i as int]@);
            lemma_items_view(blocks@);
        }
        let at = edits[i].index;
        if at < blocks.len() {
            let ghost before = blocks@;
            let block = blocks.remove(at);
            let edited = edit_block(block, &edits[i].text);
            blocks.insert(at, edited);
            proof {
                lemma_items_view(before);
                lemma_items_view(blocks@);
                assert(items_view(blocks@) =~= items_view(before).update(
                    at as int,
                    edited_block(items_view(before)[at as int], edits@[i as int].text@),
                ));
            }
        }
        i = i + 1;
    }
    proof {
        assert(all.take(i as int) =~= all);
    }
    blocks
}

fn edit_content(content: Json, edits: &Vec<BlockEdit>) -> (r: Json)
    ensures
        r@ == edited_content(content@, edits_view(edits@)),
{
    match content {
        Json::Str(old) => {
            if edits.len() > 0 {
                text_value(&edits[0].text)
            } else {
                Json::Str(old)
            }
        },
        Json::Arr(blocks) => Json::Arr(edit_blocks(blocks, edits)),
        other => other,
    }
}

fn edit_message(message: Json, edits: &Vec<BlockEdit>) -> (r: Json)
    ensures
        r@ == match message@.get("content"@) {
            Some(content) => with_member(
                message@,
                "content"@,
                edited_content(content, edits_view(edits@)),
            ),
            None => message@,
        },
{
    match message {
        Json::Obj(mut fields) => {
            let ghost before = fields_view(fields@);
            proof {
                lemma_fields_view(fields@);
                lemma_member_place(before, "content"@);
            }
            match find_member(&fields, "content") {
                Some(i) => {
                    let (key, content) = fields.remove(i);
                    let edited = edit_content(content, edits);
                    fields.insert(i, (key, edited));
                    proof {
                        lemma_fields_view(fields@);
                        assert(fields_view(fields@) =~= before.update(
                            i as int,
                            (before[i as int].0, edited@),
                        ));
                    }
                    Json::Obj(fields)
                },
                None => Json::Obj(fields),
            }
        },
        other => other,
    }
}

fn edit_record(msg: Json, edits: &Vec<BlockEdit>) -> (r: Json)
    ensures
        r@ == edited_record(msg@, edits_view(edits@)),
{
    match msg {
        Json::Obj(mut fields) => {
            let ghost before = fields_view(fields@);
            proof {
                lemma_fields_view(fields@);
                lemma_member_place(before, "message"@);
            }
            match find_member(&fields, "message") {
                Some(i) => {
                    let (key, message) = fields.remove(i);
                    let ghost old_message = message@;
                    let edited = edit_message(message, edits);
                    fields.insert(i, (key, edited));
                    proof {
                        lemma_fields_view(fields@);
                        assert(fields_view(fields@) =~= before.update(
                            i as int,
                            (before[i as int].0, edited@),
                        ));
                        if old_message.get("content"@) is None {
                            assert(fields_view(fields@) =~= before);
                        }
                    }
                    Json::Obj(fields)
                },
                None => Json::Obj(fields),
            }
        },
        other => other,
    }
}

/// The records after the content of each record that has the identifier was
/// edited block by block.
pub fn edit_message_content(
    messages: Vec<Json>,
    message_uuid: &str,
    block_edits: &Vec<BlockEdit>,
) -> (r: Vec<Json>)
    ensures
        items_view(r@) == edited_records(
            items_view(messages@),
            message_uuid@,
            edits_view(block_edits@),
        ),
{
    let ghost records = items_view(messages@);
    let ghost all = messages@;
    proof {
        lemma_items_view(messages@);
    }
    let mut updated: Vec<Json> = Vec::new();
    proof {
        lemma_items_view(updated@);
        assert(items_view(updated@) =~= Seq::empty());
        assert(records.take(0) =~= Seq::empty());
    }
    for msg in it: messages
        invariant
            it.seq() == all,
            records.len() == all.len(),
            forall|k: int| 0 <= k < records.len() ==> (#[trigger] records[k]) == all[k]@,
            items_view(updated@) == edited_records(
                records.take(it.index() as int),
                message_uuid@,
                edits_view(block_edits@),
            ),
    {
        proof {
            let next = records.take(it.index() + 1);
            assert(next.drop_last() =~= records.take(it.index() as int));
            assert(next.last() == records[it.index() as int]);
        }
        let is_target = match msg.str_field("uuid") {
            Some(uuid) => same_text(uuid, message_uuid),
            None => false,
        };
        let next = if is_target {
            edit_record(msg, block_edits)
        } else {
            msg
        };
        proof {
            crate::json::lemma_items_view_push(updated@, next);
        }
        updated.push(next);
    }
    proof {
        assert(records.take(all.len() as int) =~= records);
    }
    updated
}

} // verus!
