pub mod strip_thinking;

use vstd::prelude::*;
use vstd::string::*;
use crate::json::{items_view, Json};
use crate::services::fixers::strip_thinking::{
    count_affected, strip_result, strip_thinking_definition, stripped_records,
};
use crate::text::{same_text, texts_view};

verus! {

/// How far a repair may reach.
#[derive(Clone, Copy, Debug, PartialEq, Eq, Structural)]
pub enum FixLevel {
    /// Works on the parsed records only.
    Entry,
    /// Works on the text of the session file.
    Content,
    /// Works on the session file itself.
    File,
    /// Works without any limit.
    Full,
}

/// What a repair is and does, as it is shown in a list of repairs.
#[derive(Debug, PartialEq, Eq)]
pub struct FixDefinition {
    pub id: String,
    pub name: String,
    pub description: String,
    pub fix_method: String,
    pub tags: Vec<String>,
    pub level: FixLevel,
}

/// The definition of a repair, as contracts speak of it.
pub struct FixDefinitionView {
    pub id: Seq<char>,
    pub name: Seq<char>,
    pub description: Seq<char>,
    pub fix_method: Seq<char>,
    pub tags: Seq<Seq<char>>,
    pub level: FixLevel,
}

impl View for FixDefinition {
    type V = FixDefinitionView;

    open spec fn view(&self) -> FixDefinitionView {
        FixDefinitionView {
            id: self.id@,
            name: self.name@,
            description: self.description@,
            fix_method: self.fix_method@,
            tags: texts_view(self.tags@),
            level: self.level,
        }
    }
}

/// How a repair ended.
#[derive(Debug, PartialEq, Eq)]
pub struct FixResult {
    pub success: bool,
    pub message: String,
    /// The number of records that the repair changed.
    pub affected_lines: usize,
}

/// How a repair ended, as contracts speak of it.
pub struct FixResultView {
    pub success: bool,
    pub message: Seq<char>,
    pub affected_lines: usize,
}

impl View for FixResult {
    type V = FixResultView;

    open spec fn view(&self) -> FixResultView {
        FixResultView {
            success: self.success,
            message: self.message@,
            affected_lines: self.affected_lines,
        }
    }
}

/// The definitions of all repairs, in the order in which they are listed.
pub fn list_definitions() -> (r: Vec<FixDefinition>)
    ensures
        r@.len() == 1,
        r@[0]@ == strip_thinking_definition(),
{
    let mut all: Vec<FixDefinition> = Vec::new();
    all.push(strip_thinking::definition());
    all
}

/// The name under which the copies are kept that are made before a repair
/// changes a file.
pub fn fixer_operation(fixer_id: &str) -> (r: String)
    ensures
        r@ == "fixer_"@ + fixer_id@,
{
    let mut name = "fixer_".to_owned();
    name.append(fixer_id);
    name
}

/// What is said of an identifier that no repair has.
pub open spec fn unknown_fixer(fixer_id: Seq<char>) -> Seq<char> {
    "未找到 ID 为 '"@ + fixer_id + "' 的修复项"@
}

/// What is said of an identifier that no repair has.
pub fn unknown_fixer_text(fixer_id: &str) -> (r: String)
    ensures
        r@ == unknown_fixer(fixer_id@),
{
    let mut message = "未找到 ID 为 '".to_owned();
    message.append(fixer_id);
    message.append("' 的修复项");
    message
}

/// Runs the repair with the given identifier on the records of a session.
/// An identifier that no repair has is an error, and changes nothing.
pub fn execute_by_id(fixer_id: &str, messages: &mut Vec<Json>) -> (r: Result<FixResult, String>)
    ensures
        fixer_id@ == strip_thinking_definition().id ==> {
            &&& r is Ok
            &&& r.unwrap()@ == strip_result(
                old(messages)@.len() as nat,
                count_affected(items_view(old(messages)@)),
            )
            &&& items_view(final(messages)@) == stripped_records(items_view(old(messages)@))
        },
        fixer_id@ != strip_thinking_definition().id ==> {
            &&& r is Err
            &&& r->Err_0@ == unknown_fixer(fixer_id@)
            &&& *final(messages) == *old(messages)
        },
{
    let definition = strip_thinking::definition();
    if same_text(definition.id.as_str(), fixer_id) {
        return strip_thinking::execute(messages);
    }
    Err(unknown_fixer_text(fixer_id))
}

} // verus!
