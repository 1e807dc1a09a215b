//! The JSON library, behind plain values.
//!
//! `serde_json` reads and writes JSON. Its values are taken apart and put
//! together layer by layer.

use serde_json::{Number, Value};
use vstd::prelude::*;

use crate::json::{
    entries_map, fields_view, is_last, items_view, keys_distinct, last_fields, lemma_array_view,
    lemma_entry_found, lemma_last_fields, lemma_object_view, Json, JsonModel,
};

verus! {

// ---------------------------------------------------------------------------
// Numbers
// ---------------------------------------------------------------------------

/// `serde_json::Number`.
#[verifier::external_type_specification]
#[verifier::external_body]
pub struct ExNumber(serde_json::Number);

/// What a number is: an integer, or the bits of its IEEE 754 double.
pub enum NumberModel {
    Integer(int),
    Real(u64),
}

/// What a `serde_json::Number` holds.
pub uninterp spec fn number_model(number: Number) -> NumberModel;

/// Calls `serde_json::Number::as_u64`: the integer, when it is not negative.
#[verifier::external_body]
pub(crate) fn number_u64(number: &Number) -> (r: Option<u64>)
    ensures
        match r {
            Some(n) => number_model(*number) == NumberModel::Integer(n as int),
            None => number_model(*number) matches NumberModel::Integer(n) ==> n < 0,
        },
{
    number.as_u64()
}

/// Calls `serde_json::Number::as_i64`: the integer, when it is small enough.
#[verifier::external_body]
pub(crate) fn number_i64(number: &Number) -> (r: Option<i64>)
    ensures
        match r {
            Some(n) => number_model(*number) == NumberModel::Integer(n as int),
            None => number_model(*number) matches NumberModel::Integer(n) ==> n > i64::MAX,
        },
{
    number.as_i64()
}

/// Calls `serde_json::Number::as_f64`. Nothing is said of integers, which it
/// rounds.
#[verifier::external_body]
pub(crate) fn number_bits(number: &Number) -> (bits: u64)
    ensures
        number_model(*number) matches NumberModel::Real(held) ==> bits == held,
{
    number.as_f64().unwrap_or_default().to_bits()
}

/// Calls `From<u64>` of `serde_json::Number`.
#[verifier::external_body]
fn number_of_u64(n: u64) -> (number: Number)
    ensures
        number_model(number) == NumberModel::Integer(n as int),
{
    Number::from(n)
}

/// Calls `From<i64>` of `serde_json::Number`.
#[verifier::external_body]
fn number_of_i64(n: i64) -> (number: Number)
    ensures
        number_model(number) == NumberModel::Integer(n as int),
{
    Number::from(n)
}

/// Calls `Clone` of `serde_json::Number`.
#[verifier::external_body]
pub(crate) fn copy_number(number: &Number) -> (copy: Number)
    ensures
        number_model(copy) == number_model(*number),
{
    number.clone()
}

// ---------------------------------------------------------------------------
// Values
// ---------------------------------------------------------------------------

/// `serde_json::Value`.
#[verifier::external_type_specification]
#[verifier::external_body]
pub struct ExValue(serde_json::Value);

/// What a `serde_json::Value` holds.
pub uninterp spec fn value_model(value: Value) -> JsonModel;

/// The outermost layer of a `serde_json::Value`.
pub enum ValueLayer {
    Null,
    Bool(bool),
    Number(Number),
    Text(String),
    Array(Vec<Value>),
    Object(Vec<(String, Value)>),
}

pub open spec fn model_of_number(number: NumberModel) -> JsonModel {
    match number {
        NumberModel::Integer(n) => JsonModel::Integer(n),
        NumberModel::Real(bits) => JsonModel::Real(bits),
    }
}

pub open spec fn values_model(values: Seq<Value>) -> Seq<JsonModel> {
    values.map_values(|value: Value| value_model(value))
}

pub open spec fn value_fields(entries: Seq<(String, Value)>) -> Seq<(Seq<char>, JsonModel)> {
    entries.map_values(|entry: (String, Value)| (entry.0@, value_model(entry.1)))
}

/// The value with the given outermost layer.
pub open spec fn layer_model(layer: ValueLayer) -> JsonModel {
    match layer {
        ValueLayer::Null => JsonModel::Null,
        ValueLayer::Bool(b) => JsonModel::Bool(b),
        ValueLayer::Number(number) => model_of_number(number_model(number)),
        ValueLayer::Text(s) => JsonModel::Text(s@),
        ValueLayer::Array(items) => JsonModel::Array(values_model(items@)),
        ValueLayer::Object(entries) => JsonModel::Object(entries_map(value_fields(entries@))),
    }
}

pub open spec fn layer_fits(layer: ValueLayer) -> bool {
    layer matches ValueLayer::Object(entries) ==> keys_distinct(value_fields(entries@))
}

/// Tells the variants of `serde_json::Value` apart and takes their contents
/// out. A `Value::Object` gives its entries, each key once.
#[verifier::external_body]
fn open_value(value: Value) -> (layer: ValueLayer)
    ensures
        layer_model(layer) == value_model(value),
        layer_fits(layer),
{
    match value {
        Value::Null => ValueLayer::Null,
        Value::Bool(b) => ValueLayer::Bool(b),
        Value::Number(number) => ValueLayer::Number(number),
        Value::String(s) => ValueLayer::Text(s),
        Value::Array(items) => ValueLayer::Array(items),
        Value::Object(entries) => ValueLayer::Object(entries.into_iter().collect()),
    }
}

/// Makes the variant of `serde_json::Value` for the given contents. A
/// `Value::Object` collects its entries.
#[verifier::external_body]
fn close_value(layer: ValueLayer) -> (value: Value)
    requires
        layer_fits(layer),
    ensures
        value_model(value) == layer_model(layer),
{
    match layer {
        ValueLayer::Null => Value::Null,
        ValueLayer::Bool(b) => Value::Bool(b),
        ValueLayer::Number(number) => Value::Number(number),
        ValueLayer::Text(s) => Value::String(s),
        ValueLayer::Array(items) => Value::Array(items),
        ValueLayer::Object(entries) => Value::Object(entries.into_iter().collect()),
    }
}

/// A value of `serde_json` as a value of the library.
pub fn from_value(value: Value) -> (r: Json)
    ensures
        r@ == value_model(value),
    decreases value_model(value),
{
    let ghost model = value_model(value);
    match open_value(value) {
        ValueLayer::Null => Json::Null,
        ValueLayer::Bool(b) => Json::Bool(b),
        ValueLayer::Number(number) => Json::Number(number),
        ValueLayer::Text(s) => Json::Text(s),
        ValueLayer::Array(items) => {
            let ghost all = values_model(items@);
            let mut out: Vec<Json> = Vec::new();
            for item in it: items
                invariant
                    it.seq() == items@,
                    all == values_model(items@),
                    model == value_model(value),
                    model == JsonModel::Array(all),
                    items_view(out@) == all.take(it.index() as int),
            {
                let ghost done = items_view(out@);
                proof {
                    assert(all[it.index() as int] == value_model(item));
                    assert(decreases_to!(model => model->Array_0));
                    assert(decreases_to!(model->Array_0 => model->Array_0[it.index() as int]));
                }
                let json = from_value(item);
                out.push(json);
                assert(items_view(out@) =~= done.push(json@));
                assert(items_view(out@) =~= all.take(it.index() + 1));
            }
            proof {
                assert(all.take(all.len() as int) =~= all);
                lemma_array_view(out);
            }
            Json::Array(out)
        },
        ValueLayer::Object(entries) => {
            let ghost all = value_fields(entries@);
            let mut out: Vec<(String, Json)> = Vec::new();
            for entry in it: entries
                invariant
                    it.seq() == entries@,
                    all == value_fields(entries@),
                    keys_distinct(all),
                    model == value_model(value),
                    model == JsonModel::Object(entries_map(all)),
                    fields_view(out@) == all.take(it.index() as int),
            {
                let ghost done = fields_view(out@);
                let (key, item) = entry;
                proof {
                    assert(all[it.index() as int] == (key@, value_model(item)));
                    lemma_entry_found(all, it.index() as int);
                    assert(entries_map(all).contains_key(key@));
                    assert(decreases_to!(model => model->Object_0[key@]));
                }
                let json = from_value(item);
                let ghost name = key@;
                out.push((key, json));
                assert(fields_view(out@) =~= done.push((name, json@)));
                assert(fields_view(out@) =~= all.take(it.index() + 1));
            }
            proof {
                assert(all.take(all.len() as int) =~= all);
                lemma_object_view(out);
            }
            Json::Object(out)
        },
    }
}

/// A value of the library as a value of `serde_json`.
pub fn to_value(json: &Json) -> (r: Value)
    ensures
        value_model(r) == json@,
    decreases json,
{
    let layer = match json {
        Json::Null => ValueLayer::Null,
        Json::Bool(b) => ValueLayer::Bool(*b),
        Json::Uint(n) => ValueLayer::Number(number_of_u64(*n)),
        Json::Int(n) => ValueLayer::Number(number_of_i64(*n)),
        Json::Number(number) => ValueLayer::Number(copy_number(number)),
        Json::Text(s) => ValueLayer::Text(s.clone()),
        Json::Array(items) => {
            let ghost all = items_view(items@);
            let mut out: Vec<Value> = Vec::new();
            let mut i: usize = 0;
            while i < items.len()
                invariant
                    i <= items@.len(),
                    *json == Json::Array(*items),
                    all == items_view(items@),
                    values_model(out@) == all.take(i as int),
                decreases items@.len() - i,
            {
                proof {
                    assert(decreases_to!(*json => (*json)->Array_0));
                    assert(decreases_to!((*json)->Array_0 => (*json)->Array_0@));
                    assert(decreases_to!(items@ => items@[i as int]));
                }
                let ghost done = values_model(out@);
                let value = to_value(&items[i]);
                out.push(value);
                assert(values_model(out@) =~= done.push(value_model(value)));
                assert(values_model(out@) =~= all.take(i + 1));
                i = i + 1;
            }
            proof {
                assert(all.take(i as int) =~= all);
                lemma_array_view(*items);
            }
            ValueLayer::Array(out)
        },
        Json::Object(entries) => {
            let ghost all = fields_view(entries@);
            let mut out: Vec<(String, Value)> = Vec::new();
            let mut i: usize = 0;
            while i < entries.len()
                invariant
                    i <= entries@.len(),
                    *json == Json::Object(*entries),
                    all == fields_view(entries@),
                    value_fields(out@) == last_fields(all, i as int),
                decreases entries@.len() - i,
            {
                let ghost done = value_fields(out@);
                // Of entries with the same key the last one counts.
                if is_last(entries, i) {
                    proof {
                        assert(decreases_to!(*json => (*json)->Object_0));
                        assert(decreases_to!((*json)->Object_0 => (*json)->Object_0@));
                        assert(decreases_to!(entries@ => entries@[i as int]));
                        assert(decreases_to!(entries@[i as int] => entries@[i as int].1));
                    }
                    let value = to_value(&entries[i].1);
                    out.push((entries[i].0.clone(), value));
                    assert(value_fields(out@) =~= done.push((all[i as int].0, value_model(value))));
                    assert(all[i as int] == (entries@[i as int].0@, entries@[i as int].1@));
                }
                i = i + 1;
            }
            proof {
                lemma_last_fields(all);
                lemma_object_view(*entries);
            }
            ValueLayer::Object(out)
        },
    };
    close_value(layer)
}

// ---------------------------------------------------------------------------
// JSON text
// ---------------------------------------------------------------------------

/// What `serde_json::from_slice` makes of some bytes: a value, or the text of
/// its error.
pub uninterp spec fn json_in(bytes: Seq<u8>) -> Result<JsonModel, Seq<char>>;

/// The bytes that `serde_json::to_vec` writes for a value.
pub uninterp spec fn json_bytes(value: JsonModel) -> Seq<u8>;

/// The text that a `serde_json::Value` is displayed as.
pub uninterp spec fn json_text(value: JsonModel) -> Seq<char>;

/// How deep the arrays and objects of a text may nest for `serde_json` to
/// read it.
pub const MAX_NESTING: usize = 127;

/// Whether all numbers in a value are integers, and its arrays and objects
/// nest at most `levels` deep.
pub open spec fn integral_within(value: JsonModel, levels: int) -> bool
    decreases value,
{
    match value {
        JsonModel::Real(_) => false,
        JsonModel::Array(items) => {
            &&& levels > 0
            &&& forall|i: int|
                0 <= i < items.len() ==> integral_within(#[trigger] items[i], levels - 1)
        },
        JsonModel::Object(fields) => {
            &&& levels > 0
            &&& forall|key: Seq<char>|
                fields.contains_key(key) ==> integral_within(#[trigger] fields[key], levels - 1)
        },
        _ => true,
    }
}

/// Whether some bytes are read as a value, if all its numbers are integers and
/// it nests no deeper than a reader allows.
pub open spec fn read_as(bytes: Seq<u8>, value: JsonModel) -> bool {
    integral_within(value, MAX_NESTING as int) ==> (json_in(bytes) matches Ok(read) && read
        == value)
}

/// Calls `serde_json::from_slice`. The result is the value that the bytes
/// hold, or the text of the error.
#[verifier::external_body]
fn value_in(bytes: &[u8]) -> (r: Result<Value, String>)
    ensures
        json_in(bytes@) == (match r {
            Ok(value) => Ok(value_model(value)),
            Err(error) => Err(error@),
        }),
{
    serde_json::from_slice(bytes).map_err(|error| error.to_string())
}

/// Calls `serde_json::to_vec`, which does not fail on a `Value`: its keys are
/// strings, and its numbers are finite. The bytes depend on what the value is;
/// an object is written in the order of its keys. They are read back as the
/// same value where all numbers are integers and the reader's limit on nesting
/// is kept. Of other numbers nothing is said: the reader may round them. The
/// writer calls itself once per level: how deep a value may nest is left to the
/// stack.
#[verifier::external_body]
fn value_bytes(value: &Value) -> (bytes: Vec<u8>)
    ensures
        bytes@ == json_bytes(value_model(*value)),
        read_as(bytes@, value_model(*value)),
{
    serde_json::to_vec(value).expect("a value can be written")
}

/// Calls `Display` of `serde_json::Value`: the value as compact JSON text.
#[verifier::external_body]
fn value_text(value: &Value) -> (text: String)
    ensures
        text@ == json_text(value_model(*value)),
{
    value.to_string()
}

pub open spec fn parsed_view(parsed: Result<Json, String>) -> Result<JsonModel, Seq<char>> {
    match parsed {
        Ok(json) => Ok(json@),
        Err(error) => Err(error@),
    }
}

/// Reads a JSON value; gives the text of the error when the bytes hold none.
pub fn read_json(bytes: &[u8]) -> (r: Result<Json, String>)
    ensures
        parsed_view(r) == json_in(bytes@),
{
    match value_in(bytes) {
        Ok(value) => Ok(from_value(value)),
        Err(error) => Err(error),
    }
}

/// Whether a value is read back from the bytes that are written for it.
pub open spec fn reads_back(value: JsonModel) -> bool {
    json_in(json_bytes(value)) matches Ok(read) && read == value
}

/// Writes a value as compact JSON. Values of integers that nest no deeper than
/// a reader allows are read back.
pub fn write_json(json: &Json) -> (bytes: Vec<u8>)
    ensures
        bytes@ == json_bytes(json@),
        integral_within(json@, MAX_NESTING as int) ==> reads_back(json@),
{
    value_bytes(&to_value(json))
}

/// A value as compact JSON text.
pub fn show_json(json: &Json) -> (text: String)
    ensures
        text@ == json_text(json@),
{
    value_text(&to_value(json))
}

} // verus!
