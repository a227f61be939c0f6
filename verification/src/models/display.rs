use vstd::prelude::*;
use crate::json::{items_view, lemma_items_view, Json, JsonView};
use crate::text::same_text;

verus! {

/// One renderable unit of a session.
///
/// `content[i]` is block `block_index_map[i]` of the record that the unit was
/// made from.
#[derive(Debug, PartialEq, Eq)]
pub struct DisplayMessage {
    /// Identifier of the record that the unit comes from.
    pub source_uuid: String,
    /// Identifier of the unit itself: the record's, or `<uuid>-tool-<n>` for
    /// the n-th tool result split from the record.
    pub display_id: String,
    /// `"user"`, `"assistant"`, `"tool_result"`, `"compact_summary"` or
    /// `"system"`.
    pub display_type: String,
    pub timestamp: String,
    pub content: Vec<Json>,
    pub editable: bool,
    pub block_index_map: Vec<usize>,
    pub model: Option<String>,
    pub usage: Option<Json>,
    pub tool_use_result: Option<Json>,
    pub todos: Option<Vec<Json>>,
    pub system_label: Option<String>,
    pub plan_source_path: Option<String>,
    pub cwd: Option<String>,
}

/// One renderable unit, as contracts speak of it.
pub struct DisplayMessageView {
    pub source_uuid: Seq<char>,
    pub display_id: Seq<char>,
    pub display_type: Seq<char>,
    pub timestamp: Seq<char>,
    pub content: Seq<JsonView>,
    pub editable: bool,
    pub block_index_map: Seq<usize>,
    pub model: Option<Seq<char>>,
    pub usage: Option<JsonView>,
    pub tool_use_result: Option<JsonView>,
    pub todos: Option<Seq<JsonView>>,
    pub system_label: Option<Seq<char>>,
    pub plan_source_path: Option<Seq<char>>,
    pub cwd: Option<Seq<char>>,
}

/// The characters of a text that may be missing.
pub open spec fn opt_text(o: Option<String>) -> Option<Seq<char>> {
    match o {
        Some(s) => Some(s@),
        None => None,
    }
}

/// The view of a value that may be missing.
pub open spec fn opt_json(o: Option<Json>) -> Option<JsonView> {
    match o {
        Some(j) => Some(j@),
        None => None,
    }
}

/// The views of a list that may be missing.
pub open spec fn opt_items(o: Option<Vec<Json>>) -> Option<Seq<JsonView>> {
    match o {
        Some(v) => Some(items_view(v@)),
        None => None,
    }
}

impl View for DisplayMessage {
    type V = DisplayMessageView;

    open spec fn view(&self) -> DisplayMessageView {
        DisplayMessageView {
            source_uuid: self.source_uuid@,
            display_id: self.display_id@,
            display_type: self.display_type@,
            timestamp: self.timestamp@,
            content: items_view(self.content@),
            editable: self.editable,
            block_index_map: self.block_index_map@,
            model: opt_text(self.model),
            usage: opt_json(self.usage),
            tool_use_result: opt_json(self.tool_use_result),
            todos: opt_items(self.todos),
            system_label: opt_text(self.system_label),
            plan_source_path: opt_text(self.plan_source_path),
            cwd: opt_text(self.cwd),
        }
    }
}

fn clone_opt_text(o: &Option<String>) -> (r: Option<String>)
    ensures
        opt_text(r) == opt_text(*o),
{
    match o {
        Some(s) => Some(s.clone()),
        None => None,
    }
}

fn clone_opt_json(o: &Option<Json>) -> (r: Option<Json>)
    ensures
        opt_json(r) == opt_json(*o),
{
    match o {
        Some(j) => Some(j.clone()),
        None => None,
    }
}

/// A copy of a list of values.
pub fn clone_items(items: &Vec<Json>) -> (r: Vec<Json>)
    ensures
        items_view(r@) == items_view(items@),
{
    let mut copy: Vec<Json> = Vec::new();
    let mut i: usize = 0;
    while i < items.len()
        invariant
            i <= items@.len(),
            copy@.len() == i,
            forall|k: int| 0 <= k < i ==> (#[trigger] copy@[k])@ == items@[k]@,
        decreases items@.len() - i,
    {
        copy.push(items[i].clone());
        i = i + 1;
    }
    proof {
        lemma_items_view(items@);
        lemma_items_view(copy@);
        assert(items_view(copy@) =~= items_view(items@));
    }
    copy
}

/// A copy of a list of texts.
pub fn clone_texts(texts: &Vec<String>) -> (r: Vec<String>)
    ensures
        r@.len() == texts@.len(),
        forall|i: int| 0 <= i < r@.len() ==> (#[trigger] r@[i])@ == texts@[i]@,
{
    let mut copy: Vec<String> = Vec::new();
    let mut i: usize = 0;
    while i < texts.len()
        invariant
            i <= texts@.len(),
            copy@.len() == i,
            forall|k: int| 0 <= k < i ==> (#[trigger] copy@[k])@ == texts@[k]@,
        decreases texts@.len() - i,
    {
        copy.push(texts[i].clone());
        i = i + 1;
    }
    copy
}

impl Clone for DisplayMessage {
    fn clone(&self) -> (r: Self)
        ensures
            r@ == self@,
    {
        let block_index_map = self.block_index_map.clone();
        proof {
            assert(block_index_map@ =~= self.block_index_map@);
        }
        DisplayMessage {
            source_uuid: self.source_uuid.clone(),
            display_id: self.display_id.clone(),
            display_type: self.display_type.clone(),
            timestamp: self.timestamp.clone(),
            content: clone_items(&self.content),
            editable: self.editable,
            block_index_map,
            model: clone_opt_text(&self.model),
            usage: clone_opt_json(&self.usage),
            tool_use_result: clone_opt_json(&self.tool_use_result),
            todos: match &self.todos {
                Some(items) => Some(clone_items(items)),
                None => None,
            },
            system_label: clone_opt_text(&self.system_label),
            plan_source_path: clone_opt_text(&self.plan_source_path),
            cwd: clone_opt_text(&self.cwd),
        }
    }
}

impl DisplayMessageView {
    /// Every block has its place in the record on file.
    pub open spec fn well_formed(self) -> bool {
        self.content.len() == self.block_index_map.len()
    }
}

/// The views of a list of units, in order.
pub open spec fn messages_view(messages: Seq<DisplayMessage>) -> Seq<DisplayMessageView> {
    Seq::new(messages.len(), |i: int| messages[i]@)
}

/// Name and input of one tool invocation.
#[derive(Debug, PartialEq, Eq)]
pub struct ToolUseInfo {
    pub name: String,
    pub input: Json,
}

/// Name and input of one tool invocation, as contracts speak of it.
pub struct ToolUseInfoView {
    pub name: Seq<char>,
    pub input: JsonView,
}

impl View for ToolUseInfo {
    type V = ToolUseInfoView;

    open spec fn view(&self) -> ToolUseInfoView {
        ToolUseInfoView { name: self.name@, input: self.input@ }
    }
}

impl Clone for ToolUseInfo {
    fn clone(&self) -> (r: Self)
        ensures
            r@ == self@,
    {
        ToolUseInfo { name: self.name.clone(), input: self.input.clone() }
    }
}

/// No key stands twice in the list.
pub open spec fn distinct_keys(entries: Seq<(String, ToolUseInfo)>) -> bool {
    forall|i: int, j: int|
        0 <= i < j < entries.len() ==> (#[trigger] entries[i]).0@ != (#[trigger] entries[j]).0@
}

/// `key` stands at place `i` of the list.
pub open spec fn key_at(entries: Seq<(String, ToolUseInfo)>, key: Seq<char>, i: int) -> bool {
    0 <= i < entries.len() && entries[i].0@ == key
}

/// The map that a list of entries stands for.
pub open spec fn entries_map(entries: Seq<(String, ToolUseInfo)>) -> Map<
    Seq<char>,
    ToolUseInfoView,
> {
    Map::new(
        |key: Seq<char>| exists|i: int| key_at(entries, key, i),
        |key: Seq<char>| entries[choose|i: int| key_at(entries, key, i)].1@,
    )
}

/// With distinct keys, the map holds under each key the entry that has it.
pub proof fn lemma_entry_in_map(entries: Seq<(String, ToolUseInfo)>, i: int)
    requires
        distinct_keys(entries),
        0 <= i < entries.len(),
    ensures
        entries_map(entries).dom().contains(entries[i].0@),
        entries_map(entries)[entries[i].0@] == entries[i].1@,
{
    let key = entries[i].0@;
    assert(key_at(entries, key, i));
    let chosen = choose|c: int| key_at(entries, key, c);
    assert(key_at(entries, key, chosen));
    if chosen < i {
        assert(entries[chosen].0@ != entries[i].0@);
    } else if i < chosen {
        assert(entries[i].0@ != entries[chosen].0@);
    }
}

/// Two lists with the same keys and entries stand for one map.
pub proof fn lemma_same_entries(a: Seq<(String, ToolUseInfo)>, b: Seq<(String, ToolUseInfo)>)
    requires
        distinct_keys(a),
        a.len() == b.len(),
        forall|i: int| 0 <= i < a.len() ==> (#[trigger] a[i]).0@ == b[i].0@ && a[i].1@ == b[i].1@,
    ensures
        distinct_keys(b),
        entries_map(a) == entries_map(b),
{
    assert forall|i: int, j: int| 0 <= i < j < b.len() implies (#[trigger] b[i]).0@ != (
    #[trigger] b[j]).0@ by {
        assert(a[i].0@ != a[j].0@);
    }
    assert forall|key: Seq<char>| #[trigger]
        entries_map(a).dom().contains(key) == entries_map(b).dom().contains(key) by {
        if entries_map(a).dom().contains(key) {
            let i = choose|i: int| key_at(a, key, i);
            assert(a[i].0@ == b[i].0@);
            assert(key_at(b, key, i));
        }
        if entries_map(b).dom().contains(key) {
            let i = choose|i: int| key_at(b, key, i);
            assert(a[i].0@ == b[i].0@);
            assert(key_at(a, key, i));
        }
    }
    assert forall|key: Seq<char>| entries_map(a).dom().contains(key) implies #[trigger] entries_map(
        a,
    )[key] == entries_map(b)[key] by {
        let i = choose|i: int| key_at(a, key, i);
        assert(a[i].0@ == b[i].0@);
        lemma_entry_in_map(a, i);
        lemma_entry_in_map(b, i);
    }
    assert(entries_map(a) =~= entries_map(b));
}

/// With distinct keys, the map has as many keys as the list has entries.
pub proof fn lemma_entries_count(entries: Seq<(String, ToolUseInfo)>)
    requires
        distinct_keys(entries),
    ensures
        entries_map(entries).dom().finite(),
        entries_map(entries).dom().len() == entries.len(),
    decreases entries.len(),
{
    if entries.len() == 0 {
        assert(entries_map(entries).dom() =~= Set::<Seq<char>>::empty());
    } else {
        let shorter = entries.drop_last();
        let key = entries.last().0@;
        assert forall|i: int, j: int| 0 <= i < j < shorter.len() implies (#[trigger] shorter[i]).0@
            != (#[trigger] shorter[j]).0@ by {
            assert(entries[i].0@ != entries[j].0@);
        }
        lemma_entries_count(shorter);
        assert(!entries_map(shorter).dom().contains(key)) by {
            if entries_map(shorter).dom().contains(key) {
                let i = choose|i: int| key_at(shorter, key, i);
                assert(key_at(shorter, key, i));
                assert(entries[i].0@ != entries[entries.len() - 1].0@);
            }
        }
        assert(entries_map(entries).dom() =~= entries_map(shorter).dom().insert(key)) by {
            assert forall|k: Seq<char>|
                entries_map(entries).dom().contains(k) <==> entries_map(shorter).dom().insert(
                    key,
                ).contains(k) by {
                if entries_map(entries).dom().contains(k) {
                    let i = choose|i: int| key_at(entries, k, i);
                    assert(key_at(entries, k, i));
                    if i < shorter.len() {
                        assert(key_at(shorter, k, i));
                    }
                }
                if k == key {
                    assert(key_at(entries, k, entries.len() - 1));
                } else if entries_map(shorter).dom().contains(k) {
                    let i = choose|i: int| key_at(shorter, k, i);
                    assert(key_at(shorter, k, i));
                    assert(key_at(entries, k, i));
                }
            }
        }
    }
}

/// A list of entries after `info` was put under `key` at the place `at`:
/// in the place of the entry that had the key, or at the end where none had
/// it. The list still holds no key twice, and it stands for the map with
/// `info` under `key`.
pub proof fn lemma_entry_put(
    before: Seq<(String, ToolUseInfo)>,
    after: Seq<(String, ToolUseInfo)>,
    at: int,
    key: String,
    info: ToolUseInfo,
)
    requires
        distinct_keys(before),
        key_at(before, key@, at) && after == before.update(at, (key, info)) || at == before.len()
            && (forall|i: int| !key_at(before, key@, i)) && after == before.push((key, info)),
    ensures
        distinct_keys(after),
        entries_map(after) == entries_map(before).insert(key@, info@),
{
    let replaced = at < before.len();
    assert(after[at].0@ == key@ && after[at].1@ == info@);
    assert forall|i: int, j: int| 0 <= i < j < after.len() implies (#[trigger] after[i]).0@ != (
    #[trigger] after[j]).0@ by {
        if i != at && j != at {
            assert(before[i].0@ != before[j].0@);
        } else if i == at && replaced {
            assert(before[i].0@ != before[j].0@);
        } else if j == at && replaced {
            assert(before[i].0@ != before[j].0@);
        } else if j == at {
            assert(!key_at(before, key@, i));
        }
    }
    assert forall|k: Seq<char>|
        entries_map(after).dom().contains(k) <==> entries_map(before).insert(
            key@,
            info@,
        ).dom().contains(k) by {
        if entries_map(after).dom().contains(k) {
            let i = choose|i: int| key_at(after, k, i);
            if i != at {
                assert(key_at(before, k, i));
            }
        }
        if k == key@ {
            assert(key_at(after, k, at));
        } else if entries_map(before).dom().contains(k) {
            let i = choose|i: int| key_at(before, k, i);
            assert(key_at(before, k, i));
            assert(key_at(after, k, i));
        }
    }
    assert forall|k: Seq<char>| entries_map(after).dom().contains(k) implies entries_map(after)[k]
        == entries_map(before).insert(key@, info@)[k] by {
        let i = choose|i: int| key_at(after, k, i);
        assert(key_at(after, k, i));
        lemma_entry_in_map(after, i);
        if k != key@ {
            assert(i != at);
            assert(key_at(before, k, i));
            lemma_entry_in_map(before, i);
        } else {
            lemma_entry_in_map(after, at);
        }
    }
    assert(entries_map(after) =~= entries_map(before).insert(key@, info@));
}

/// The tool invocations of a session by their identifiers. Stands in for a
/// hash map: no identifier is held twice, and a later entry for an
/// identifier takes the place of the earlier one.
#[derive(Debug)]
pub struct ToolUseMap {
    entries: Vec<(String, ToolUseInfo)>,
}

impl View for ToolUseMap {
    type V = Map<Seq<char>, ToolUseInfoView>;

    closed spec fn view(&self) -> Map<Seq<char>, ToolUseInfoView> {
        entries_map(self.entries@)
    }
}

impl ToolUseMap {
    /// No identifier is held twice.
    #[verifier::type_invariant]
    spec fn holds_no_key_twice(&self) -> bool {
        distinct_keys(self.entries@)
    }

    /// A map that holds nothing.
    pub fn new() -> (r: ToolUseMap)
        ensures
            r@ == Map::<Seq<char>, ToolUseInfoView>::empty(),
    {
        let r = ToolUseMap { entries: Vec::new() };
        proof {
            assert(r@ =~= Map::<Seq<char>, ToolUseInfoView>::empty());
        }
        r
    }

    /// A copy of the map.
    pub fn duplicate(&self) -> (r: ToolUseMap)
        ensures
            r@ == self@,
    {
        proof {
            use_type_invariant(self);
        }
        let mut entries: Vec<(String, ToolUseInfo)> = Vec::new();
        let mut i: usize = 0;
        while i < self.entries.len()
            invariant
                i <= self.entries@.len(),
                entries@.len() == i,
                forall|k: int|
                    0 <= k < i ==> (#[trigger] entries@[k]).0@ == self.entries@[k].0@
                        && entries@[k].1@ == self.entries@[k].1@,
            decreases self.entries@.len() - i,
        {
            entries.push((self.entries[i].0.clone(), self.entries[i].1.clone()));
            i = i + 1;
        }
        proof {
            lemma_same_entries(self.entries@, entries@);
        }
        ToolUseMap { entries }
    }

    /// The number of identifiers held.
    pub fn len(&self) -> (n: usize)
        ensures
            self@.dom().finite(),
            n == self@.dom().len(),
    {
        proof {
            use_type_invariant(self);
            lemma_entries_count(self.entries@);
        }
        self.entries.len()
    }

    /// The entries, each with its identifier: no identifier twice, and
    /// together the map.
    pub fn entries(&self) -> (r: &Vec<(String, ToolUseInfo)>)
        ensures
            distinct_keys(r@),
            entries_map(r@) == self@,
    {
        proof {
            use_type_invariant(self);
        }
        &self.entries
    }

    fn position(&self, key: &str) -> (r: Option<usize>)
        ensures
            match r {
                Some(i) => key_at(self.entries@, key@, i as int),
                None => forall|i: int| !key_at(self.entries@, key@, i),
            },
    {
        let mut i: usize = 0;
        while i < self.entries.len()
            invariant
                i <= self.entries@.len(),
                forall|k: int| 0 <= k < i ==> !key_at(self.entries@, key@, k),
            decreases self.entries@.len() - i,
        {
            if same_text(self.entries[i].0.as_str(), key) {
                return Some(i);
            }
            i = i + 1;
        }
        None
    }

    /// The entry of an identifier.
    pub fn get(&self, key: &str) -> (r: Option<&ToolUseInfo>)
        ensures
            match r {
                Some(info) => self@.dom().contains(key@) && self@[key@] == info@,
                None => !self@.dom().contains(key@),
            },
    {
        proof {
            use_type_invariant(self);
        }
        match self.position(key) {
            Some(i) => {
                proof {
                    lemma_entry_in_map(self.entries@, i as int);
                }
                Some(&self.entries[i].1)
            },
            None => None,
        }
    }

    /// Puts an entry under an identifier, in place of the one that was there.
    pub fn insert(&mut self, key: String, info: ToolUseInfo)
        ensures
            final(self)@ == old(self)@.insert(key@, info@),
    {
        proof {
            use_type_invariant(&*self);
        }
        let ghost before = self.entries@;
        let found = self.position(key.as_str());
        let mut entries: Vec<(String, ToolUseInfo)> = Vec::new();
        std::mem::swap(&mut self.entries, &mut entries);
        match found {
            Some(i) => {
                proof {
                    lemma_entry_put(before, before.update(i as int, (key, info)), i as int, key, info);
                }
                entries.set(i, (key, info));
            },
            None => {
                proof {
                    lemma_entry_put(
                        before,
                        before.push((key, info)),
                        before.len() as int,
                        key,
                        info,
                    );
                }
                entries.push((key, info));
            },
        }
        self.entries = entries;
    }
}

/// What a session file shows: its units in the order of the records, the
/// tool invocations by their identifiers, and the token totals.
#[derive(Debug)]
pub struct TransformedSession {
    pub display_messages: Vec<DisplayMessage>,
    pub tool_use_map: ToolUseMap,
    pub token_stats: TokenStats,
}

/// What a session file shows, as contracts speak of it.
pub struct TransformedSessionView {
    pub display_messages: Seq<DisplayMessageView>,
    pub tool_use_map: Map<Seq<char>, ToolUseInfoView>,
    pub token_stats: TokenStats,
}

impl View for TransformedSession {
    type V = TransformedSessionView;

    open spec fn view(&self) -> TransformedSessionView {
        TransformedSessionView {
            display_messages: messages_view(self.display_messages@),
            tool_use_map: self.tool_use_map@,
            token_stats: self.token_stats,
        }
    }
}

/// A copy of a list of units.
pub fn clone_messages(messages: &Vec<DisplayMessage>) -> (r: Vec<DisplayMessage>)
    ensures
        messages_view(r@) == messages_view(messages@),
{
    let mut copy: Vec<DisplayMessage> = Vec::new();
    let mut i: usize = 0;
    while i < messages.len()
        invariant
            i <= messages@.len(),
            copy@.len() == i,
            forall|k: int| 0 <= k < i ==> (#[trigger] copy@[k])@ == messages@[k]@,
        decreases messages@.len() - i,
    {
        copy.push(messages[i].clone());
        i = i + 1;
    }
    proof {
        assert(messages_view(copy@) =~= messages_view(messages@));
    }
    copy
}

impl TransformedSession {
    /// A copy of the session.
    pub fn duplicate(&self) -> (r: TransformedSession)
        ensures
            r@ == self@,
    {
        TransformedSession {
            display_messages: clone_messages(&self.display_messages),
            tool_use_map: self.tool_use_map.duplicate(),
            token_stats: self.token_stats,
        }
    }
}

/// Token counts summed over a session. Each counter is the sum modulo 2^64.
#[derive(Clone, Copy, Debug, PartialEq, Eq, Structural)]
pub struct TokenStats {
    pub input_tokens: u64,
    pub output_tokens: u64,
    pub cache_creation_input_tokens: u64,
    pub cache_read_input_tokens: u64,
}

/// `a + b` modulo 2^64.
pub open spec fn wrapping_sum(a: u64, b: u64) -> u64 {
    if a + b > u64::MAX {
        (a + b - 0x1_0000_0000_0000_0000) as u64
    } else {
        (a + b) as u64
    }
}

/// The counter `key` of a usage object; zero where it is missing or no
/// unsigned integer.
pub open spec fn counter(usage: JsonView, key: Seq<char>) -> u64 {
    match usage.get(key) {
        Some(v) => match v.as_u64() {
            Some(n) => n,
            None => 0,
        },
        None => 0,
    }
}

impl TokenStats {
    /// All four counters at zero.
    pub open spec fn zero() -> TokenStats {
        TokenStats {
            input_tokens: 0,
            output_tokens: 0,
            cache_creation_input_tokens: 0,
            cache_read_input_tokens: 0,
        }
    }

    /// The totals after one more usage object.
    pub open spec fn plus(self, usage: Option<JsonView>) -> TokenStats {
        match usage {
            Some(u) => TokenStats {
                input_tokens: wrapping_sum(self.input_tokens, counter(u, "input_tokens"@)),
                output_tokens: wrapping_sum(self.output_tokens, counter(u, "output_tokens"@)),
                cache_creation_input_tokens: wrapping_sum(
                    self.cache_creation_input_tokens,
                    counter(u, "cache_creation_input_tokens"@),
                ),
                cache_read_input_tokens: wrapping_sum(
                    self.cache_read_input_tokens,
                    counter(u, "cache_read_input_tokens"@),
                ),
            },
            None => self,
        }
    }

    /// Adds the counters of one usage object, where there is one.
    pub fn accumulate(&mut self, usage: &Option<Json>)
        ensures
            *final(self) == old(self).plus(opt_json(*usage)),
    {
        if let Some(u) = usage {
            self.input_tokens = self.input_tokens.wrapping_add(read_counter(u, "input_tokens"));
            self.output_tokens = self.output_tokens.wrapping_add(read_counter(u, "output_tokens"));
            self.cache_creation_input_tokens = self.cache_creation_input_tokens.wrapping_add(
                read_counter(u, "cache_creation_input_tokens"),
            );
            self.cache_read_input_tokens = self.cache_read_input_tokens.wrapping_add(
                read_counter(u, "cache_read_input_tokens"),
            );
        }
    }
}

/// The totals do not depend on the order in which usage objects are added.
pub proof fn law_totals_commute(totals: TokenStats, a: Option<JsonView>, b: Option<JsonView>)
    ensures
        totals.plus(a).plus(b) == totals.plus(b).plus(a),
{
}

impl Default for TokenStats {
    fn default() -> (r: Self)
        ensures
            r == TokenStats::zero(),
    {
        TokenStats {
            input_tokens: 0,
            output_tokens: 0,
            cache_creation_input_tokens: 0,
            cache_read_input_tokens: 0,
        }
    }
}

fn read_counter(usage: &Json, key: &str) -> (r: u64)
    ensures
        r == counter(usage@, key@),
{
    match usage.get(key) {
        Some(v) => match v.as_u64() {
            Some(n) => n,
            None => 0,
        },
        None => 0,
    }
}

} // verus!
