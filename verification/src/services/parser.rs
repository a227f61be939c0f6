use vstd::prelude::*;
use vstd::string::*;
use crate::json::{
    compact_text, items_view, lemma_items_view, lemma_items_view_push, parsed, Json, JsonView,
};
use crate::text::{blank, is_blank, lines_of, split_lines, texts_view};

verus! {

/// The records that a list of lines holds: one for each line that is not
/// blank and that is JSON, in the order of the lines.
pub open spec fn parsed_lines(lines: Seq<Seq<char>>) -> Seq<JsonView>
    decreases lines.len(),
{
    if lines.len() == 0 {
        Seq::empty()
    } else if !blank(lines.last()) && parsed(lines.last()) is Some {
        parsed_lines(lines.drop_last()).push(parsed(lines.last()).unwrap())
    } else {
        parsed_lines(lines.drop_last())
    }
}

/// The records of a session file with the given content. A line that is no
/// JSON is passed over.
pub fn read_messages(content: &str) -> (r: Vec<Json>)
    ensures
        items_view(r@) == parsed_lines(lines_of(content@)),
{
    let lines = split_lines(content);
    let ghost all = texts_view(lines@);
    let mut messages: Vec<Json> = Vec::new();
    proof {
        lemma_items_view(messages@);
        assert(items_view(messages@) =~= parsed_lines(all.take(0)));
    }
    let mut i: usize = 0;
    while i < lines.len()
        invariant
            i <= lines@.len(),
            all == texts_view(lines@),
            items_view(messages@) == parsed_lines(all.take(i as int)),
        decreases lines@.len() - i,
    {
        proof {
            let next = all.take(i as int + 1);
            assert(next.drop_last() =~= all.take(i as int));
            assert(next.last() == lines@[i as int]@);
        }
        if !is_blank(lines[i].as_str()) {
            if let Some(record) = Json::parse(lines[i].as_str()) {
                proof {
                    lemma_items_view_push(messages@, record);
                }
                messages.push(record);
            }
        }
        i = i + 1;
    }
    proof {
        assert(all.take(i as int) =~= all);
    }
    messages
}

/// The content of a session file with the given records: each record as
/// compact JSON text on a line of its own.
pub open spec fn jsonl(records: Seq<JsonView>) -> Seq<char>
    decreases records.len(),
{
    if records.len() == 0 {
        Seq::empty()
    } else {
        jsonl(records.drop_last()) + compact_text(records.last()) + "\n"@
    }
}

/// The content of a session file with the given records.
pub fn write_messages(messages: &[Json]) -> (r: String)
    ensures
        r@ == jsonl(items_view(messages@)),
{
    let ghost records = items_view(messages@);
    proof {
        lemma_items_view(messages@);
    }
    let mut content = String::new();
    let mut i: usize = 0;
    while i < messages.len()
        invariant
            i <= messages@.len(),
            records.len() == messages@.len(),
            forall|k: int| 0 <= k < records.len() ==> (#[trigger] records[k]) == messages@[k]@,
            content@ == jsonl(records.take(i as int)),
        decreases messages@.len() - i,
    {
        proof {
            let next = records.take(i as int + 1);
            assert(next.drop_last() =~= records.take(i as int));
            assert(next.last() == records[i as int]);
        }
        messages[i].write_compact(&mut content);
        content.append("\n");
        i = i + 1;
    }
    proof {
        assert(records.take(i as int) =~= records);
    }
    content
}

} // verus!
