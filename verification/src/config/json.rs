//! JSON values.

use vstd::prelude::*;
use crate::error;
use crate::order;
use crate::text;

verus! {

/// A JSON value. Numbers are whole numbers, or decimals kept as text. The
/// fields of an object are ordered by name and no name occurs twice.
pub enum Json {
    Null,
    Bool(bool),
    Int(i64),
    UInt(u64),
    Float(String),
    Str(String),
    Array(Vec<Json>),
    Object(Vec<(String, Json)>),
}

/// The mathematical form of a JSON value.
pub enum JsonModel {
    Null,
    Bool(bool),
    Int(i64),
    UInt(u64),
    Float(Seq<char>),
    Str(Seq<char>),
    Array(Seq<JsonModel>),
    Object(Seq<(Seq<char>, JsonModel)>),
}

impl Json {
    /// The mathematical form of a value.
    pub open spec fn model(self) -> JsonModel
        decreases self,
    {
        match self {
            Json::Null => JsonModel::Null,
            Json::Bool(b) => JsonModel::Bool(b),
            Json::Int(n) => JsonModel::Int(n),
            Json::UInt(n) => JsonModel::UInt(n),
            Json::Float(s) => JsonModel::Float(s@),
            Json::Str(s) => JsonModel::Str(s@),
            Json::Array(items) => JsonModel::Array(item_models(items@)),
            Json::Object(fields) => JsonModel::Object(field_models(fields@)),
        }
    }
}

/// The mathematical form of the items of a list.
pub open spec fn item_models(items: Seq<Json>) -> Seq<JsonModel>
    decreases items,
{
    if items.len() == 0 {
        Seq::empty()
    } else {
        item_models(items.drop_last()).push(items.last().model())
    }
}

/// The mathematical form of the fields of an object.
pub open spec fn field_models(fields: Seq<(String, Json)>) -> Seq<(Seq<char>, JsonModel)>
    decreases fields,
{
    if fields.len() == 0 {
        Seq::empty()
    } else {
        field_models(fields.drop_last()).push((fields.last().0@, fields.last().1.model()))
    }
}

impl DeepView for Json {
    type V = JsonModel;

    open spec fn deep_view(&self) -> JsonModel {
        self.model()
    }
}

/// Each item has its own mathematical form.
pub proof fn lemma_item_models(items: Seq<Json>)
    ensures
        item_models(items).len() == items.len(),
        forall|i: int| 0 <= i < items.len() ==> #[trigger] item_models(items)[i] == items[i].model(),
    decreases items.len(),
{
    if items.len() > 0 {
        lemma_item_models(items.drop_last());
    }
}

/// Each field has its own mathematical form.
pub proof fn lemma_field_models(fields: Seq<(String, Json)>)
    ensures
        field_models(fields).len() == fields.len(),
        forall|i: int|
            0 <= i < fields.len() ==> #[trigger] field_models(fields)[i] == (
                fields[i].0@,
                fields[i].1.model(),
            ),
    decreases fields.len(),
{
    if fields.len() > 0 {
        lemma_field_models(fields.drop_last());
    }
}

/// A copy of a value.
pub fn duplicate(value: &Json) -> (out: Json)
    ensures
        out.model() == value.model(),
    decreases value,
{
    match value {
        Json::Null => Json::Null,
        Json::Bool(b) => Json::Bool(*b),
        Json::Int(n) => Json::Int(*n),
        Json::UInt(n) => Json::UInt(*n),
        Json::Float(s) => Json::Float(s.clone()),
        Json::Str(s) => Json::Str(s.clone()),
        Json::Array(items) => {
            let mut copy: Vec<Json> = Vec::new();
            let mut i: usize = 0;
            while i < items.len()
                invariant
                    i <= items@.len(),
                    item_models(copy@) == item_models(items@.take(i as int)),
                    decreases_to!(value => items),
                decreases items@.len() - i,
            {
                proof {
                    assert(items@.take(i + 1).drop_last() =~= items@.take(i as int));
                    assert(decreases_to!(items => items@));
                    assert(decreases_to!(items@ => items@[i as int]));
                }
                let item = duplicate(&items[i]);
                let ghost before = copy@;
                copy.push(item);
                proof {
                    assert(copy@.drop_last() =~= before);
                }
                i += 1;
            }
            proof {
                assert(items@.take(i as int) =~= items@);
            }
            Json::Array(copy)
        },
        Json::Object(fields) => {
            let mut copy: Vec<(String, Json)> = Vec::new();
            let mut i: usize = 0;
            while i < fields.len()
                invariant
                    i <= fields@.len(),
                    field_models(copy@) == field_models(fields@.take(i as int)),
                    decreases_to!(value => fields),
                decreases fields@.len() - i,
            {
                proof {
                    assert(fields@.take(i + 1).drop_last() =~= fields@.take(i as int));
                    assert(decreases_to!(fields => fields@));
                    assert(decreases_to!(fields@ => fields@[i as int]));
                    assert(decreases_to!(fields@[i as int] => fields@[i as int].1));
                }
                let item = duplicate(&fields[i].1);
                let name = fields[i].0.clone();
                let ghost before = copy@;
                copy.push((name, item));
                proof {
                    assert(copy@.drop_last() =~= before);
                }
                i += 1;
            }
            proof {
                assert(fields@.take(i as int) =~= fields@);
            }
            Json::Object(copy)
        },
    }
}

// ---------------------------------------------------------------------
// Objects
// ---------------------------------------------------------------------

/// The value of a field.
pub open spec fn lookup(fields: Seq<(Seq<char>, JsonModel)>, name: Seq<char>) -> Option<JsonModel>
    decreases fields.len(),
{
    if fields.len() == 0 {
        None
    } else if fields.last().0 == name {
        Some(fields.last().1)
    } else {
        lookup(fields.drop_last(), name)
    }
}

/// An object with a field set; a new field takes the place that its name
/// has in the order.
pub open spec fn put(
    fields: Seq<(Seq<char>, JsonModel)>,
    name: Seq<char>,
    value: JsonModel,
) -> Seq<(Seq<char>, JsonModel)>
    decreases fields.len(),
{
    if fields.len() == 0 || order::before(fields.last().0, name) {
        fields.push((name, value))
    } else if fields.last().0 == name {
        fields.drop_last().push((name, value))
    } else {
        put(fields.drop_last(), name, value).push(fields.last())
    }
}

/// Whether the names of the fields are in order, each once.
pub open spec fn names_in_order(fields: Seq<(Seq<char>, JsonModel)>) -> bool {
    forall|i: int, j: int|
        0 <= i < j < fields.len() ==> order::before((#[trigger] fields[i]).0, (#[trigger] fields[j]).0)
}

/// A field that is in an object in order is found there.
pub proof fn lemma_lookup_at(fields: Seq<(Seq<char>, JsonModel)>, i: int)
    requires
        names_in_order(fields),
        0 <= i < fields.len(),
    ensures
        lookup(fields, fields[i].0) == Some(fields[i].1),
    decreases fields.len(),
{
    if i < fields.len() - 1 {
        order::lemma_before_total(fields[i].0, fields.last().0);
        assert(order::before(fields[i].0, fields[fields.len() - 1].0));
        assert(fields.drop_last()[i] == fields[i]);
        lemma_lookup_at(fields.drop_last(), i);
    }
}

/// Finds the value of a field.
pub fn get<'a>(fields: &'a Vec<(String, Json)>, name: &str) -> (r: Option<&'a Json>)
    ensures
        match r {
            Some(v) => lookup(field_models(fields@), name@) == Some(v.model()),
            None => lookup(field_models(fields@), name@) is None,
        },
{
    let wanted = text::chars_of(name);
    let ghost all = field_models(fields@);
    let mut n: usize = fields.len();
    proof {
        lemma_field_models(fields@);
        assert(all.take(n as int) =~= all);
    }
    while n > 0
        invariant
            n <= fields@.len(),
            wanted@ == name@,
            all == field_models(fields@),
            all.len() == fields@.len(),
            forall|i: int|
                0 <= i < fields@.len() ==> #[trigger] all[i] == (
                    fields@[i].0@,
                    fields@[i].1.model(),
                ),
            lookup(all, name@) == lookup(all.take(n as int), name@),
        decreases n,
    {
        let this = text::chars_of(fields[n - 1].0.as_str());
        proof {
            assert(all.take(n as int).drop_last() =~= all.take(n - 1));
            assert(all.take(n as int).last() == all[n - 1]);
        }
        if text::same(this.as_slice(), wanted.as_slice()) {
            return Some(&fields[n - 1].1);
        }
        n -= 1;
    }
    None
}

/// Sets a field.
pub fn set(fields: &mut Vec<(String, Json)>, name: String, value: Json)
    ensures
        field_models(final(fields)@) == put(field_models(old(fields)@), name@, value.model()),
{
    let wanted = text::chars_of(name.as_str());
    let ghost all = field_models(fields@);
    let ghost v = value.model();
    let mut n: usize = fields.len();
    proof {
        lemma_field_models(fields@);
        assert(all.take(n as int) =~= all);
        assert(put(all.take(n as int), name@, v) + all.skip(n as int) =~= put(all, name@, v));
    }
    while n > 0
        invariant
            n <= fields@.len(),
            wanted@ == name@,
            fields@ == old(fields)@,
            v == value.model(),
            all == field_models(fields@),
            all.len() == fields@.len(),
            forall|i: int|
                0 <= i < fields@.len() ==> #[trigger] all[i] == (
                    fields@[i].0@,
                    fields@[i].1.model(),
                ),
            put(all, name@, v) == put(all.take(n as int), name@, v) + all.skip(n as int),
        decreases n,
    {
        let this = text::chars_of(fields[n - 1].0.as_str());
        let ghost front = all.take(n as int);
        proof {
            assert(front.drop_last() =~= all.take(n - 1));
            assert(front.last() == all[n - 1]);
        }
        if order::comes_before(this.as_slice(), wanted.as_slice()) {
            fields.insert(n, (name, value));
            proof {
                lemma_field_models(fields@);
                assert(field_models(fields@) =~= front.push((name@, v)) + all.skip(n as int));
            }
            return;
        }
        if text::same(this.as_slice(), wanted.as_slice()) {
            fields[n - 1] = (name, value);
            proof {
                lemma_field_models(fields@);
                assert(field_models(fields@) =~= front.drop_last().push((name@, v)) + all.skip(
                    n as int,
                ));
            }
            return;
        }
        proof {
            let rest = put(front.drop_last(), name@, v);
            assert(rest.push(front.last()) + all.skip(n as int) =~= rest + all.skip(n - 1));
        }
        n -= 1;
    }
    fields.insert(0, (name, value));
    proof {
        lemma_field_models(fields@);
        assert(all.take(0) =~= Seq::<(Seq<char>, JsonModel)>::empty());
        assert(field_models(fields@) =~= all.take(0).push((name@, v)) + all.skip(0));
    }
}

/// The text of a value that is a text.
pub open spec fn as_text(value: Option<JsonModel>) -> Option<Seq<char>> {
    match value {
        Some(JsonModel::Str(s)) => Some(s),
        _ => None,
    }
}

/// The text of a field that holds one, or the empty text.
pub open spec fn text_field(fields: Seq<(Seq<char>, JsonModel)>, name: Seq<char>) -> Seq<char> {
    match as_text(lookup(fields, name)) {
        Some(s) => s,
        None => Seq::empty(),
    }
}

/// Reads the text of a field, or the empty text.
pub fn get_text(fields: &Vec<(String, Json)>, name: &str) -> (r: String)
    ensures
        r@ == text_field(field_models(fields@), name@),
{
    match get(fields, name) {
        Some(Json::Str(s)) => s.clone(),
        _ => {
            let none = String::new();
            proof {
                assert(none@ =~= Seq::<char>::empty());
            }
            none
        },
    }
}

// ---------------------------------------------------------------------
// JSON text
// ---------------------------------------------------------------------

/// `serde_json::Value`: a JSON value as `serde_json` holds it.
#[verifier::external_type_specification]
#[verifier::external_body]
pub struct ExValue(serde_json::Value);

/// What `serde_json::from_str` gives for a text: a value, or the message of
/// its error.
pub uninterp spec fn parsed(s: Seq<char>) -> Result<JsonModel, Seq<char>>;

/// What `serde_json::to_string` gives for a value: its text, or the message
/// of its error.
pub uninterp spec fn printed(v: JsonModel) -> Result<Seq<char>, Seq<char>>;

/// The value that a `serde_json::Value` holds, field by field and item by
/// item. Nothing is stated of it here: `parse` and `print` state what
/// `serde_json` makes of a text and of a value.
#[verifier::external_body]
fn from_value(v: serde_json::Value) -> Json {
    match v {
        serde_json::Value::Null => Json::Null,
        serde_json::Value::Bool(b) => Json::Bool(b),
        serde_json::Value::Number(n) => match (n.as_i64(), n.as_u64()) {
            (Some(i), _) => Json::Int(i),
            (None, Some(u)) => Json::UInt(u),
            (None, None) => Json::Float(n.to_string()),
        },
        serde_json::Value::String(s) => Json::Str(s),
        serde_json::Value::Array(a) => Json::Array(a.into_iter().map(from_value).collect()),
        serde_json::Value::Object(o) => Json::Object(o.into_iter().map(|(k, v)| (k, from_value(v))).collect()),
    }
}

/// The `serde_json::Value` that holds a value. Nothing is stated of it here:
/// `print` states what `serde_json` makes of a value.
#[verifier::external_body]
fn to_value(v: &Json) -> serde_json::Value {
    match v {
        Json::Null => serde_json::Value::Null,
        Json::Bool(b) => serde_json::Value::Bool(*b),
        Json::Int(n) => serde_json::Value::from(*n),
        Json::UInt(n) => serde_json::Value::from(*n),
        Json::Float(s) => s.parse().map_or(serde_json::Value::Null, serde_json::Value::Number),
        Json::Str(s) => serde_json::Value::String(s.clone()),
        Json::Array(a) => serde_json::Value::Array(a.iter().map(to_value).collect()),
        Json::Object(o) => serde_json::Value::Object(o.iter().map(|f| (f.0.clone(), to_value(&f.1))).collect()),
    }
}

/// `serde_json::from_str`: reads a JSON text. The result depends on the text
/// alone. A text that begins with an underscore is no JSON. Which value a
/// text gives is not stated beyond that.
#[verifier::external_body]
pub(crate) fn parse(s: &str) -> (r: Result<Json, String>)
    ensures
        error::result_view(r) == parsed(s@),
        s@.len() > 0 && s@[0] == '_' ==> r is Err,
{
    match serde_json::from_str::<serde_json::Value>(s) {
        Ok(v) => Ok(from_value(v)),
        Err(e) => Err(e.to_string()),
    }
}

/// Reads a JSON text.
pub fn read_json(s: &str) -> (r: Result<Json, String>)
    ensures
        error::result_view(r) == parsed(s@),
{
    parse(s)
}

/// `serde_json::to_string`: writes a value as JSON text. The result depends
/// on the value alone. Which text a value gives is not stated.
#[verifier::external_body]
pub(crate) fn print(v: &Json) -> (r: Result<String, String>)
    ensures
        error::result_view(r) == printed(v.deep_view()),
{
    serde_json::to_string(&to_value(v)).map_err(|e| e.to_string())
}

/// What `serde_json::from_str` gives for a text read as a list of texts.
pub uninterp spec fn parsed_list(s: Seq<char>) -> Result<Seq<Seq<char>>, Seq<char>>;

/// `serde_json::from_str` into a list of strings. The result depends on the
/// text alone; which list a text gives is not stated.
#[verifier::external_body]
pub(crate) fn parse_list(s: &str) -> (r: Result<Vec<String>, String>)
    ensures
        error::result_view(r) == parsed_list(s@),
{
    serde_json::from_str::<Vec<String>>(s).map_err(|e| e.to_string())
}

} // verus!
