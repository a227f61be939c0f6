use serde_json::Value;
use vstd::prelude::*;
use vstd::string::*;
use crate::text::same_text;

verus! {

/// A JSON number as the session files hold it.
#[derive(Debug, PartialEq, Eq)]
pub enum Number {
    /// A non-negative integer.
    Unsigned(u64),
    /// A negative integer.
    Signed(i64),
    /// Any other number, kept as its decimal text.
    Decimal(String),
}

/// A number, with its decimal text as a sequence of characters.
pub enum NumberView {
    Unsigned(u64),
    Signed(i64),
    Decimal(Seq<char>),
}

impl View for Number {
    type V = NumberView;

    open spec fn view(&self) -> NumberView {
        match self {
            Number::Unsigned(n) => NumberView::Unsigned(*n),
            Number::Signed(n) => NumberView::Signed(*n),
            Number::Decimal(s) => NumberView::Decimal(s@),
        }
    }
}

/// A JSON value: one record of a session file, or a part of one. An object
/// is the list of its members in the order in which they were put in; where
/// a key stands twice, the later member decides.
#[derive(Debug, PartialEq, Eq)]
pub enum Json {
    Null,
    Bool(bool),
    Num(Number),
    Str(String),
    Arr(Vec<Json>),
    Obj(Vec<(String, Json)>),
}

/// A JSON value as contracts speak of it: texts as sequences of characters,
/// lists as sequences.
pub enum JsonView {
    Null,
    Bool(bool),
    Num(NumberView),
    Str(Seq<char>),
    Arr(Seq<JsonView>),
    Obj(Seq<(Seq<char>, JsonView)>),
}

impl View for Json {
    type V = JsonView;

    open spec fn view(&self) -> JsonView {
        json_view(*self)
    }
}

/// The view of a value.
pub open spec fn json_view(j: Json) -> JsonView
    decreases j,
{
    match j {
        Json::Null => JsonView::Null,
        Json::Bool(b) => JsonView::Bool(b),
        Json::Num(n) => JsonView::Num(n@),
        Json::Str(s) => JsonView::Str(s@),
        Json::Arr(items) => JsonView::Arr(items_view(items@)),
        Json::Obj(fields) => JsonView::Obj(fields_view(fields@)),
    }
}

/// The views of the items of a list, in order.
pub open spec fn items_view(items: Seq<Json>) -> Seq<JsonView>
    decreases items,
{
    if items.len() == 0 {
        Seq::empty()
    } else {
        items_view(items.drop_last()).push(json_view(items.last()))
    }
}

/// The views of the members of an object, in order.
pub open spec fn fields_view(fields: Seq<(String, Json)>) -> Seq<(Seq<char>, JsonView)>
    decreases fields,
{
    if fields.len() == 0 {
        Seq::empty()
    } else {
        fields_view(fields.drop_last()).push((fields.last().0@, json_view(fields.last().1)))
    }
}

/// The views of a list are as many as its items, each the view of its item.
pub proof fn lemma_items_view(items: Seq<Json>)
    ensures
        items_view(items).len() == items.len(),
        forall|i: int| 0 <= i < items.len() ==> (#[trigger] items_view(items)[i]) == items[i]@,
    decreases items.len(),
{
    if items.len() > 0 {
        lemma_items_view(items.drop_last());
    }
}

/// The views of a list that grew by one item.
pub proof fn lemma_items_view_push(items: Seq<Json>, next: Json)
    ensures
        items_view(items.push(next)) == items_view(items).push(next@),
{
    assert(items.push(next).drop_last() =~= items);
}

/// The views of the members are as many as the members, each the view of
/// its member.
pub proof fn lemma_fields_view(fields: Seq<(String, Json)>)
    ensures
        fields_view(fields).len() == fields.len(),
        forall|i: int|
            0 <= i < fields.len() ==> (#[trigger] fields_view(fields)[i]) == (
                fields[i].0@,
                fields[i].1@,
            ),
    decreases fields.len(),
{
    if fields.len() > 0 {
        lemma_fields_view(fields.drop_last());
    }
}

/// The view of a value that may be missing.
pub open spec fn view_of(o: Option<&Json>) -> Option<JsonView> {
    match o {
        Some(j) => Some(j@),
        None => None,
    }
}

/// The views of a list that may be missing.
pub open spec fn items_of(o: Option<&Vec<Json>>) -> Option<Seq<JsonView>> {
    match o {
        Some(items) => Some(items_view(items@)),
        None => None,
    }
}

/// The characters of a text that may be missing.
pub open spec fn text_of(o: Option<&str>) -> Option<Seq<char>> {
    match o {
        Some(s) => Some(s@),
        None => None,
    }
}

/// The value that an object holds under `key`: the last pair with that key
/// decides, as it does when the pairs are put into a map one after another.
pub open spec fn lookup(fields: Seq<(Seq<char>, JsonView)>, key: Seq<char>) -> Option<JsonView>
    decreases fields.len(),
{
    if fields.len() == 0 {
        None
    } else if fields.last().0 == key {
        Some(fields.last().1)
    } else {
        lookup(fields.drop_last(), key)
    }
}

impl JsonView {
    /// The member `key` of an object; `None` for a missing key and for
    /// anything but an object.
    pub open spec fn get(self, key: Seq<char>) -> Option<JsonView> {
        match self {
            JsonView::Obj(fields) => lookup(fields, key),
            _ => None,
        }
    }

    /// The characters of a string; `None` for anything else.
    pub open spec fn as_str(self) -> Option<Seq<char>> {
        match self {
            JsonView::Str(s) => Some(s),
            _ => None,
        }
    }

    /// The truth value of a boolean; `None` for anything else.
    pub open spec fn as_bool(self) -> Option<bool> {
        match self {
            JsonView::Bool(b) => Some(b),
            _ => None,
        }
    }

    /// The number of a non-negative integer; `None` for anything else.
    pub open spec fn as_u64(self) -> Option<u64> {
        match self {
            JsonView::Num(NumberView::Unsigned(n)) => Some(n),
            _ => None,
        }
    }

    /// The items of an array; `None` for anything else.
    pub open spec fn as_array(self) -> Option<Seq<JsonView>> {
        match self {
            JsonView::Arr(items) => Some(items),
            _ => None,
        }
    }

    /// The string under `key`, where the value is an object that holds a
    /// string there.
    pub open spec fn str_field(self, key: Seq<char>) -> Option<Seq<char>> {
        match self.get(key) {
            Some(v) => v.as_str(),
            None => None,
        }
    }

    /// True when the member `flag` is the boolean `true`.
    pub open spec fn flag(self, key: Seq<char>) -> bool {
        self.get(key) == Some(JsonView::Bool(true))
    }

    /// True when the member `type` is the string `kind`.
    pub open spec fn has_kind(self, kind: Seq<char>) -> bool {
        self.str_field("type"@) == Some(kind)
    }

    /// The member `content` of the member `message`.
    pub open spec fn content(self) -> Option<JsonView> {
        match self.get("message"@) {
            Some(m) => m.get("content"@),
            None => None,
        }
    }

    /// The block `{"type": "text", "text": text}`.
    pub open spec fn text_block(text: Seq<char>) -> JsonView {
        JsonView::Obj(seq![("type"@, JsonView::Str("text"@)), ("text"@, JsonView::Str(text))])
    }
}

impl Clone for Number {
    fn clone(&self) -> (r: Self)
        ensures
            r@ == self@,
    {
        match self {
            Number::Unsigned(n) => Number::Unsigned(*n),
            Number::Signed(n) => Number::Signed(*n),
            Number::Decimal(s) => Number::Decimal(s.clone()),
        }
    }
}

impl Clone for Json {
    fn clone(&self) -> (r: Self)
        ensures
            r@ == self@,
        decreases self,
    {
        match self {
            Json::Null => Json::Null,
            Json::Bool(b) => Json::Bool(*b),
            Json::Num(n) => Json::Num(n.clone()),
            Json::Str(s) => Json::Str(s.clone()),
            Json::Arr(items) => {
                let mut copy: Vec<Json> = Vec::new();
                let mut i: usize = 0;
                while i < items.len()
                    invariant
                        i <= items@.len(),
                        copy@.len() == i,
                        forall|k: int| 0 <= k < i ==> (#[trigger] copy@[k])@ == items@[k]@,
                        self == Json::Arr(*items),
                    decreases items@.len() - i,
                {
                    proof {
                        assert(decreases_to!(*self => self->Arr_0));
                        assert(decreases_to!(*items => items@));
                        assert(decreases_to!(items@ => items@[i as int]));
                    }
                    copy.push(items[i].clone());
                    i = i + 1;
                }
                proof {
                    lemma_items_view(items@);
                    lemma_items_view(copy@);
                    assert(items_view(copy@) =~= items_view(items@));
                }
                Json::Arr(copy)
            },
            Json::Obj(fields) => {
                let mut copy: Vec<(String, Json)> = Vec::new();
                let mut i: usize = 0;
                while i < fields.len()
                    invariant
                        i <= fields@.len(),
                        copy@.len() == i,
                        forall|k: int|
                            0 <= k < i ==> (#[trigger] copy@[k]).0@ == fields@[k].0@ && copy@[k].1@
                                == fields@[k].1@,
                        self == Json::Obj(*fields),
                    decreases fields@.len() - i,
                {
                    proof {
                        assert(decreases_to!(*self => self->Obj_0));
                        assert(decreases_to!(*fields => fields@));
                        assert(decreases_to!(fields@ => fields@[i as int]));
                        assert(decreases_to!(fields@[i as int] => fields@[i as int].1));
                    }
                    copy.push((fields[i].0.clone(), fields[i].1.clone()));
                    i = i + 1;
                }
                proof {
                    lemma_fields_view(fields@);
                    lemma_fields_view(copy@);
                    assert(fields_view(copy@) =~= fields_view(fields@));
                }
                Json::Obj(copy)
            },
        }
    }
}

impl Json {
    /// The member `key` of an object.
    pub fn get(&self, key: &str) -> (r: Option<&Json>)
        ensures
            view_of(r) == self@.get(key@),
    {
        match self {
            Json::Obj(fields) => {
                let ghost fs = fields_view(fields@);
                proof {
                    lemma_fields_view(fields@);
                    assert(fs.take(fs.len() as int) =~= fs);
                }
                let mut i: usize = fields.len();
                while i > 0
                    invariant
                        i <= fields@.len(),
                        fs.len() == fields@.len(),
                        forall|k: int|
                            0 <= k < fs.len() ==> (#[trigger] fs[k]) == (
                                fields@[k].0@,
                                fields@[k].1@,
                            ),
                        lookup(fs, key@) == lookup(fs.take(i as int), key@),
                        self@ == JsonView::Obj(fs),
                    decreases i,
                {
                    i = i - 1;
                    proof {
                        let t = fs.take(i as int + 1);
                        assert(t.last() == fs[i as int]);
                        assert(t.drop_last() =~= fs.take(i as int));
                    }
                    if same_text(fields[i].0.as_str(), key) {
                        return Some(&fields[i].1);
                    }
                }
                None
            },
            _ => None,
        }
    }

    /// The text of a string.
    pub fn as_str(&self) -> (r: Option<&str>)
        ensures
            text_of(r) == self@.as_str(),
    {
        match self {
            Json::Str(s) => Some(s.as_str()),
            _ => None,
        }
    }

    /// The truth value of a boolean.
    pub fn as_bool(&self) -> (r: Option<bool>)
        ensures
            r == self@.as_bool(),
    {
        match self {
            Json::Bool(b) => Some(*b),
            _ => None,
        }
    }

    /// The number of a non-negative integer.
    pub fn as_u64(&self) -> (r: Option<u64>)
        ensures
            r == self@.as_u64(),
    {
        match self {
            Json::Num(Number::Unsigned(n)) => Some(*n),
            _ => None,
        }
    }

    /// The items of an array.
    pub fn as_array(&self) -> (r: Option<&Vec<Json>>)
        ensures
            items_of(r) == self@.as_array(),
    {
        match self {
            Json::Arr(items) => Some(items),
            _ => None,
        }
    }

    /// The string that an object holds under `key`.
    pub fn str_field(&self, key: &str) -> (r: Option<&str>)
        ensures
            text_of(r) == self@.str_field(key@),
    {
        match self.get(key) {
            Some(v) => v.as_str(),
            None => None,
        }
    }

    /// Whether the member `key` is the boolean `true`.
    pub fn flag(&self, key: &str) -> (r: bool)
        ensures
            r == self@.flag(key@),
    {
        match self.get(key) {
            Some(v) => match v.as_bool() {
                Some(b) => b,
                None => false,
            },
            None => false,
        }
    }

    /// Whether the member `type` is the string `kind`.
    pub fn has_kind(&self, kind: &str) -> (r: bool)
        ensures
            r == self@.has_kind(kind@),
    {
        match self.str_field("type") {
            Some(s) => same_text(s, kind),
            None => false,
        }
    }

    /// The member `content` of the member `message`.
    pub fn content(&self) -> (r: Option<&Json>)
        ensures
            view_of(r) == self@.content(),
    {
        match self.get("message") {
            Some(m) => m.get("content"),
            None => None,
        }
    }

    /// The block `{"type": "text", "text": text}`.
    pub fn text_block(text: String) -> (r: Json)
        ensures
            r@ == JsonView::text_block(text@),
    {
        let mut fields: Vec<(String, Json)> = Vec::new();
        fields.push(("type".to_owned(), Json::Str("text".to_owned())));
        fields.push(("text".to_owned(), Json::Str(text)));
        proof {
            lemma_fields_view(fields@);
            assert(fields_view(fields@) =~= seq![
                ("type"@, JsonView::Str("text"@)),
                ("text"@, JsonView::Str(text@)),
            ]);
        }
        Json::Obj(fields)
    }
}

/// A value as JSON text without any space: what `serde_json` writes for the
/// `serde_json::Value` with the same members, which has the members of an
/// object in the order of their keys.
pub uninterp spec fn compact_text(value: JsonView) -> Seq<char>;

/// A list of values as one JSON array on many lines, indented by two
/// spaces: what `serde_json::to_string_pretty` writes for the values with
/// the same members; `None` where it gives an error.
pub uninterp spec fn pretty_text(values: Seq<JsonView>) -> Option<Seq<char>>;

/// Changes the type of a value to `serde_json::Value`, variant by variant. A
/// number goes through `Value::from` or, as a decimal text, through
/// `str::parse` for a `serde_json::Number`, which gives null for a text
/// that is no number.
#[verifier::external_body]
fn to_value(json: &Json) -> Value {
    match json {
        Json::Null => Value::Null,
        Json::Bool(b) => Value::Bool(*b),
        Json::Num(Number::Unsigned(n)) => Value::from(*n),
        Json::Num(Number::Signed(n)) => Value::from(*n),
        Json::Num(Number::Decimal(t)) => t.parse().map_or(Value::Null, Value::Number),
        Json::Str(s) => Value::String(s.clone()),
        Json::Arr(a) => Value::Array(a.iter().map(to_value).collect()),
        Json::Obj(o) => Value::Object(o.iter().map(|(k, v)| (k.clone(), to_value(v))).collect()),
    }
}

/// `serde_json::Value` as `Display` writes it: compact JSON text.
#[verifier::external_body]
fn compact_json(json: &Json) -> (r: String)
    ensures
        r@ == compact_text(json@),
{
    to_value(json).to_string()
}

/// `serde_json::to_string_pretty` on a list of values.
#[verifier::external_body]
pub(crate) fn pretty_json(values: &[Json]) -> (r: Option<String>)
    ensures
        match r {
            Some(text) => pretty_text(items_view(values@)) == Some(text@),
            None => pretty_text(items_view(values@)) is None,
        },
{
    let values: Vec<Value> = values.iter().map(to_value).collect();
    serde_json::to_string_pretty(&values).ok()
}

impl Json {
    /// Appends the value as compact JSON text.
    pub fn write_compact(&self, out: &mut String)
        ensures
            final(out)@ == old(out)@ + compact_text(self@),
    {
        out.append(compact_json(self).as_str());
    }

    /// The value as compact JSON text.
    pub fn to_json_text(&self) -> (r: String)
        ensures
            r@ == compact_text(self@),
    {
        compact_json(self)
    }
}

/// `serde_json::Value`, a JSON value as the parser hands it out. Nothing is
/// known of what is inside.
#[verifier::external_type_specification]
#[verifier::external_body]
pub struct ExValue(Value);

/// The value that a text stands for as JSON; `None` for a text that is no
/// JSON. What `serde_json::from_str` reads from it.
pub uninterp spec fn parsed(text: Seq<char>) -> Option<JsonView>;

/// Changes the type of a `serde_json::Value`, variant by variant. An integer
/// number stays an integer; any other number is kept as `Number` writes it.
#[verifier::external_body]
fn from_value(value: Value) -> Json {
    match value {
        Value::Null => Json::Null,
        Value::Bool(b) => Json::Bool(b),
        Value::Number(n) => match (n.as_u64(), n.as_i64()) {
            (Some(u), _) => Json::Num(Number::Unsigned(u)),
            (_, Some(i)) => Json::Num(Number::Signed(i)),
            _ => Json::Num(Number::Decimal(n.to_string())),
        },
        Value::String(s) => Json::Str(s),
        Value::Array(a) => Json::Arr(a.into_iter().map(from_value).collect()),
        Value::Object(o) => Json::Obj(o.into_iter().map(|(k, v)| (k, from_value(v))).collect()),
    }
}

/// `serde_json::from_str` for a `Value`: the value that the text stands for,
/// or `None` for a text that is no JSON.
#[verifier::external_body]
fn parse_value(text: &str) -> (r: Option<Json>)
    ensures
        match r {
            Some(value) => parsed(text@) == Some(value@),
            None => parsed(text@) is None,
        },
{
    match serde_json::from_str::<Value>(text) {
        Ok(value) => Some(from_value(value)),
        Err(_) => None,
    }
}

impl Json {
    /// The value that a text stands for as JSON.
    pub fn parse(text: &str) -> (r: Option<Json>)
        ensures
            match r {
                Some(value) => parsed(text@) == Some(value@),
                None => parsed(text@) is None,
            },
    {
        parse_value(text)
    }
}

/// The place of the pair that decides for `key`: the last one with that key;
/// `-1` where no pair has it.
pub open spec fn member_place(fields: Seq<(Seq<char>, JsonView)>, key: Seq<char>) -> int
    decreases fields.len(),
{
    if fields.len() == 0 {
        -1
    } else if fields.last().0 == key {
        fields.len() - 1
    } else {
        member_place(fields.drop_last(), key)
    }
}

/// The pairs after `value` was put under `key`: in the place of the pair
/// that decided for `key`, or at the end where there was none.
pub open spec fn put_member(fields: Seq<(Seq<char>, JsonView)>, key: Seq<char>, value: JsonView)
    -> Seq<(Seq<char>, JsonView)> {
    if member_place(fields, key) >= 0 {
        fields.update(member_place(fields, key), (key, value))
    } else {
        fields.push((key, value))
    }
}

/// The place that decides for a key holds what `lookup` finds.
pub proof fn lemma_member_place(fields: Seq<(Seq<char>, JsonView)>, key: Seq<char>)
    ensures
        -1 <= member_place(fields, key) < fields.len(),
        member_place(fields, key) >= 0 ==> fields[member_place(fields, key)].0 == key && lookup(
            fields,
            key,
        ) == Some(fields[member_place(fields, key)].1),
        member_place(fields, key) < 0 ==> lookup(fields, key) is None,
    decreases fields.len(),
{
    if fields.len() > 0 && fields.last().0 != key {
        lemma_member_place(fields.drop_last(), key);
    }
}

/// The place of the pair that decides for `key` in a list of members.
pub fn find_member(fields: &Vec<(String, Json)>, key: &str) -> (r: Option<usize>)
    ensures
        match r {
            Some(i) => member_place(fields_view(fields@), key@) == i,
            None => member_place(fields_view(fields@), key@) < 0,
        },
{
    let ghost fs = fields_view(fields@);
    proof {
        lemma_fields_view(fields@);
        assert(fs.take(fs.len() as int) =~= fs);
    }
    let mut i: usize = fields.len();
    while i > 0
        invariant
            i <= fields@.len(),
            fs.len() == fields@.len(),
            forall|k: int|
                0 <= k < fs.len() ==> (#[trigger] fs[k]) == (fields@[k].0@, fields@[k].1@),
            member_place(fs, key@) == member_place(fs.take(i as int), key@),
            fs == fields_view(fields@),
        decreases i,
    {
        i = i - 1;
        proof {
            let t = fs.take(i as int + 1);
            assert(t.last() == fs[i as int]);
            assert(t.drop_last() =~= fs.take(i as int));
        }
        if same_text(fields[i].0.as_str(), key) {
            return Some(i);
        }
    }
    None
}

/// Puts `value` under `key` in a list of members.
pub fn set_member(fields: &mut Vec<(String, Json)>, key: &str, value: Json)
    ensures
        fields_view(final(fields)@) == put_member(fields_view(old(fields)@), key@, value@),
{
    let ghost before = fields_view(fields@);
    proof {
        lemma_fields_view(fields@);
        lemma_member_place(before, key@);
    }
    match find_member(fields, key) {
        Some(i) => {
            fields.set(i, (key.to_owned(), value));
            proof {
                lemma_fields_view(fields@);
                assert(fields_view(fields@) =~= before.update(i as int, (key@, value@)));
            }
        },
        None => {
            fields.push((key.to_owned(), value));
            proof {
                lemma_fields_view(fields@);
                assert(fields_view(fields@) =~= before.push((key@, value@)));
            }
        },
    }
}

/// A value with its member `key` changed; a value without that member, or
/// one that is no object, as it is.
pub open spec fn with_member(v: JsonView, key: Seq<char>, value: JsonView) -> JsonView {
    match v {
        JsonView::Obj(fields) => if member_place(fields, key) >= 0 {
            JsonView::Obj(
                fields.update(
                    member_place(fields, key),
                    (fields[member_place(fields, key)].0, value),
                ),
            )
        } else {
            v
        },
        _ => v,
    }
}

} // verus!
