//! JSON values and the operations on them that messages and settings need.

use serde_json::Number;
use vstd::prelude::*;

use crate::text::same_text;
use crate::value::{
    copy_number, model_of_number, number_bits, number_i64, number_model, number_u64,
};

verus! {

/// A JSON value.
#[derive(Debug)]
pub enum Json {
    Null,
    Bool(bool),
    Uint(u64),
    Int(i64),
    /// A number as it was read.
    Number(Number),
    Text(String),
    Array(Vec<Json>),
    /// The entries of an object. Of entries with the same key the last one counts.
    Object(Vec<(String, Json)>),
}

/// What a JSON value is, however it is represented.
pub enum JsonModel {
    Null,
    Bool(bool),
    Integer(int),
    /// A number that is no integer, as the bits of its IEEE 754 double.
    Real(u64),
    Text(Seq<char>),
    Array(Seq<JsonModel>),
    Object(Map<Seq<char>, JsonModel>),
}

/// The bits of negative zero, which is the same number as zero.
pub const NEGATIVE_ZERO: u64 = 0x8000000000000000;

/// Whether doubles with these bits are the same number.
pub open spec fn same_real(a: u64, b: u64) -> bool {
    a == b || (a == 0 && b == NEGATIVE_ZERO) || (a == NEGATIVE_ZERO && b == 0)
}

/// Whether two values are the same JSON value. They are equal but for the sign
/// of zeros that are no integers.
pub open spec fn same_json(a: JsonModel, b: JsonModel) -> bool
    decreases a,
{
    match (a, b) {
        (JsonModel::Real(x), JsonModel::Real(y)) => same_real(x, y),
        (JsonModel::Array(x), JsonModel::Array(y)) => {
            &&& x.len() == y.len()
            &&& forall|i: int| 0 <= i < x.len() ==> same_json(#[trigger] x[i], y[i])
        },
        (JsonModel::Object(x), JsonModel::Object(y)) => {
            &&& x.dom() == y.dom()
            &&& forall|k: Seq<char>| x.contains_key(k) ==> same_json(#[trigger] x[k], y[k])
        },
        _ => a == b,
    }
}

/// The object with the given entries.
pub open spec fn entries_map(entries: Seq<(Seq<char>, JsonModel)>) -> Map<Seq<char>, JsonModel>
    decreases entries.len(),
{
    if entries.len() == 0 {
        Map::empty()
    } else {
        entries_map(entries.drop_last()).insert(entries.last().0, entries.last().1)
    }
}

/// The last entry with the given key.
pub open spec fn last_entry(entries: Seq<(Seq<char>, JsonModel)>, key: Seq<char>) -> Option<int>
    decreases entries.len(),
{
    if entries.len() == 0 {
        None
    } else if entries.last().0 == key {
        Some(entries.len() - 1)
    } else {
        last_entry(entries.drop_last(), key)
    }
}

proof fn lemma_last_entry(entries: Seq<(Seq<char>, JsonModel)>, key: Seq<char>)
    ensures
        match last_entry(entries, key) {
            Some(i) => {
                &&& 0 <= i < entries.len()
                &&& entries[i].0 == key
                &&& entries_map(entries).contains_key(key)
                &&& entries_map(entries)[key] == entries[i].1
            },
            None => {
                &&& !entries_map(entries).contains_key(key)
                &&& forall|i: int| 0 <= i < entries.len() ==> (#[trigger] entries[i]).0 != key
            },
        },
    decreases entries.len(),
{
    if entries.len() > 0 {
        lemma_last_entry(entries.drop_last(), key);
        if entries.last().0 != key && last_entry(entries, key) is None {
            assert forall|i: int| 0 <= i < entries.len() implies (#[trigger] entries[i]).0
                != key by {
                if i < entries.len() - 1 {
                    assert(entries.drop_last()[i].0 != key);
                }
            }
        }
    }
}

/// Every key of an object is the key of one of its entries.
proof fn lemma_entry_of_key(entries: Seq<(Seq<char>, JsonModel)>, key: Seq<char>)
    requires
        forall|i: int| 0 <= i < entries.len() ==> (#[trigger] entries[i]).0 != key,
    ensures
        last_entry(entries, key) is None,
    decreases entries.len(),
{
    if entries.len() > 0 {
        assert(entries[entries.len() - 1].0 != key);
        assert forall|i: int| 0 <= i < entries.drop_last().len() implies (
        #[trigger] entries.drop_last()[i]).0 != key by {
            assert(entries[i].0 != key);
        }
        lemma_entry_of_key(entries.drop_last(), key);
    }
}

/// Leaving out an entry with the given key changes at most what that key has.
proof fn lemma_entry_left_out(entries: Seq<(Seq<char>, JsonModel)>, i: int)
    requires
        0 <= i < entries.len(),
    ensures
        entries_map(entries.remove(i)).remove(entries[i].0) == entries_map(entries).remove(
            entries[i].0,
        ),
    decreases entries.len(),
{
    let key = entries[i].0;
    if i == entries.len() - 1 {
        assert(entries.remove(i) =~= entries.drop_last());
        assert(entries_map(entries.drop_last()).remove(key) =~= entries_map(entries).remove(key));
    } else {
        lemma_entry_left_out(entries.drop_last(), i);
        assert(entries.remove(i).drop_last() =~= entries.drop_last().remove(i));
        let last = entries.last();
        let less = entries_map(entries.drop_last().remove(i));
        let more = entries_map(entries.drop_last());
        let left = less.insert(last.0, last.1).remove(key);
        let right = more.insert(last.0, last.1).remove(key);
        assert(left =~= right) by {
            assert forall|k: Seq<char>| #[trigger] left.contains_key(k) == right.contains_key(
                k,
            ) by {
                assert(less.remove(key).contains_key(k) == more.remove(key).contains_key(k));
            }
            assert forall|k: Seq<char>| #[trigger] left.contains_key(k) implies left[k]
                == right[k] by {
                assert(less.remove(key).contains_key(k) == more.remove(key).contains_key(k));
                if k != last.0 {
                    assert(less.remove(key)[k] == more.remove(key)[k]);
                }
            }
        }
    }
}

impl Json {
    pub open spec fn view(&self) -> JsonModel
        decreases *self, 1int,
    {
        match *self {
            Json::Null => JsonModel::Null,
            Json::Bool(b) => JsonModel::Bool(b),
            Json::Uint(n) => JsonModel::Integer(n as int),
            Json::Int(n) => JsonModel::Integer(n as int),
            Json::Number(number) => model_of_number(number_model(number)),
            Json::Text(s) => JsonModel::Text(s@),
            Json::Array(items) => JsonModel::Array(
                Seq::new(
                    items@.len(),
                    |i: int|
                        if 0 <= i < items@.len() {
                            items@[i].view()
                        } else {
                            arbitrary()
                        },
                ),
            ),
            Json::Object(_) => JsonModel::Object(entries_map(self.entries())),
        }
    }

    /// The entries of an object.
    pub open spec fn entries(&self) -> Seq<(Seq<char>, JsonModel)>
        decreases *self, 0int,
    {
        match *self {
            Json::Object(entries) => Seq::new(
                entries@.len(),
                |i: int|
                    if 0 <= i < entries@.len() {
                        (entries@[i].0@, entries@[i].1.view())
                    } else {
                        arbitrary()
                    },
            ),
            _ => Seq::empty(),
        }
    }
}

pub open spec fn items_view(items: Seq<Json>) -> Seq<JsonModel> {
    items.map_values(|item: Json| item@)
}

pub open spec fn fields_view(entries: Seq<(String, Json)>) -> Seq<(Seq<char>, JsonModel)> {
    entries.map_values(|entry: (String, Json)| (entry.0@, entry.1@))
}

pub proof fn lemma_array_view(items: Vec<Json>)
    ensures
        Json::Array(items)@ == JsonModel::Array(items_view(items@)),
{
    assert(Json::Array(items)@->Array_0 =~= items_view(items@));
}

pub proof fn lemma_object_view(entries: Vec<(String, Json)>)
    ensures
        Json::Object(entries)@ == JsonModel::Object(entries_map(fields_view(entries@))),
{
    assert(Json::Object(entries).entries() =~= fields_view(entries@));
}

// ---------------------------------------------------------------------------
// Numbers
// ---------------------------------------------------------------------------

/// A number in the types of the machine.
enum PlainNumber {
    Uint(u64),
    Int(i64),
    /// The bits of a double.
    Real(u64),
}

impl PlainNumber {
    spec fn view(&self) -> JsonModel {
        match *self {
            PlainNumber::Uint(n) => JsonModel::Integer(n as int),
            PlainNumber::Int(n) => JsonModel::Integer(n as int),
            PlainNumber::Real(bits) => JsonModel::Real(bits),
        }
    }

    fn same(self, other: PlainNumber) -> (r: bool)
        ensures
            r == same_json(self@, other@),
    {
        match (self, other) {
            (PlainNumber::Uint(a), PlainNumber::Uint(b)) => a == b,
            (PlainNumber::Int(a), PlainNumber::Int(b)) => a == b,
            (PlainNumber::Uint(a), PlainNumber::Int(b)) => b >= 0 && a == b as u64,
            (PlainNumber::Int(a), PlainNumber::Uint(b)) => a >= 0 && a as u64 == b,
            (PlainNumber::Real(a), PlainNumber::Real(b)) => a == b || (a == 0 && b
                == NEGATIVE_ZERO) || (a == NEGATIVE_ZERO && b == 0),
            _ => false,
        }
    }
}

// ---------------------------------------------------------------------------
// Reading
// ---------------------------------------------------------------------------

/// The field of an object; nothing when there is none or the value is no object.
pub open spec fn field(value: JsonModel, key: Seq<char>) -> Option<JsonModel> {
    match value {
        JsonModel::Object(map) => if map.contains_key(key) {
            Some(map[key])
        } else {
            None
        },
        _ => None,
    }
}

/// The field of an object, or null.
pub open spec fn field_or_null(value: JsonModel, key: Seq<char>) -> JsonModel {
    match field(value, key) {
        Some(found) => found,
        None => JsonModel::Null,
    }
}

pub open spec fn text_of(value: JsonModel) -> Option<Seq<char>> {
    match value {
        JsonModel::Text(s) => Some(s),
        _ => None,
    }
}

pub open spec fn u64_of(value: JsonModel) -> Option<int> {
    match value {
        JsonModel::Integer(n) => if 0 <= n <= u64::MAX {
            Some(n)
        } else {
            None
        },
        _ => None,
    }
}

/// The value as an index: an unsigned integer in the width of the machine.
pub open spec fn index_of(value: JsonModel) -> Option<int> {
    match u64_of(value) {
        Some(n) => Some(((n as u64) as usize) as int),
        None => None,
    }
}

pub open spec fn i64_of(value: JsonModel) -> Option<int> {
    match value {
        JsonModel::Integer(n) => if i64::MIN <= n <= i64::MAX {
            Some(n)
        } else {
            None
        },
        _ => None,
    }
}

/// The items of an array; none for every other value.
pub open spec fn items_or_none(value: JsonModel) -> Seq<JsonModel> {
    match value {
        JsonModel::Array(items) => items,
        _ => Seq::empty(),
    }
}

pub open spec fn opt_view(value: Option<&Json>) -> Option<JsonModel> {
    match value {
        Some(value) => Some(value@),
        None => None,
    }
}

fn find(entries: &Vec<(String, Json)>, key: &str) -> (r: Option<usize>)
    ensures
        match r {
            Some(i) => {
                &&& i < entries@.len()
                &&& last_entry(fields_view(entries@), key@) == Some(i as int)
            },
            None => last_entry(fields_view(entries@), key@) is None,
        },
{
    let ghost fields = fields_view(entries@);
    let mut i: usize = entries.len();
    assert(fields.take(i as int) =~= fields);
    while i > 0
        invariant
            i <= entries@.len(),
            fields == fields_view(entries@),
            last_entry(fields, key@) == last_entry(fields.take(i as int), key@),
        decreases i,
    {
        assert(fields.take(i as int).drop_last() =~= fields.take(i - 1));
        if same_text(entries[i - 1].0.as_str(), key) {
            return Some(i - 1);
        }
        i = i - 1;
    }
    None
}

/// Whether no key occurs twice.
pub open spec fn keys_distinct(entries: Seq<(Seq<char>, JsonModel)>) -> bool {
    forall|i: int, j: int|
        0 <= i < j < entries.len() ==> (#[trigger] entries[i]).0 != (#[trigger] entries[j]).0
}

/// Of the first `count` entries those that count: no later entry has their key.
pub open spec fn last_fields(
    entries: Seq<(Seq<char>, JsonModel)>,
    count: int,
) -> Seq<(Seq<char>, JsonModel)>
    decreases count,
{
    if count <= 0 {
        Seq::empty()
    } else if last_entry(entries, entries[count - 1].0) == Some(count - 1) {
        last_fields(entries, count - 1).push(entries[count - 1])
    } else {
        last_fields(entries, count - 1)
    }
}

/// Where no key occurs twice, every entry counts.
pub proof fn lemma_entry_found(entries: Seq<(Seq<char>, JsonModel)>, i: int)
    requires
        keys_distinct(entries),
        0 <= i < entries.len(),
    ensures
        entries_map(entries).contains_key(entries[i].0),
        entries_map(entries)[entries[i].0] == entries[i].1,
{
    lemma_last_entry(entries, entries[i].0);
    let at = last_entry(entries, entries[i].0)->Some_0;
    if at < i {
        assert(entries[at].0 != entries[i].0);
    } else if i < at {
        assert(entries[i].0 != entries[at].0);
    }
}

proof fn lemma_last_fields_prefix(entries: Seq<(Seq<char>, JsonModel)>, count: int)
    requires
        0 <= count <= entries.len(),
    ensures
        keys_distinct(last_fields(entries, count)),
        forall|key: Seq<char>|
            #![trigger entries_map(last_fields(entries, count)).contains_key(key)]
            entries_map(last_fields(entries, count)).contains_key(key) <==> (last_entry(
                entries,
                key,
            ) matches Some(i) && i < count),
        forall|key: Seq<char>|
            #![trigger entries_map(last_fields(entries, count))[key]]
            entries_map(last_fields(entries, count)).contains_key(key) ==> entries_map(
                last_fields(entries, count),
            )[key] == entries_map(entries)[key],
    decreases count,
{
    if count > 0 {
        lemma_last_fields_prefix(entries, count - 1);
        let before = last_fields(entries, count - 1);
        let now = last_fields(entries, count);
        let own = entries[count - 1].0;
        lemma_last_entry(entries, own);
        if last_entry(entries, own) == Some(count - 1) {
            assert(now.drop_last() =~= before);
            lemma_last_entry(before, own);
            assert(!entries_map(before).contains_key(own));
            assert forall|i: int, j: int| 0 <= i < j < now.len() implies (#[trigger] now[i]).0 != (
            #[trigger] now[j]).0 by {
                assert(now[i] == before[i]);
                if j < before.len() {
                    assert(now[j] == before[j]);
                }
            }
        }
        assert forall|key: Seq<char>|
            #![trigger entries_map(now).contains_key(key)]
            entries_map(now).contains_key(key) <==> (last_entry(entries, key) matches Some(i) && i
                < count) by {
            lemma_last_entry(entries, key);
            assert(entries_map(before).contains_key(key) <==> (last_entry(
                entries,
                key,
            ) matches Some(i) && i < count - 1));
        }
        assert forall|key: Seq<char>|
            #![trigger entries_map(now)[key]]
            entries_map(now).contains_key(key) implies entries_map(now)[key] == entries_map(
            entries,
        )[key] by {
            lemma_last_entry(entries, key);
            assert(entries_map(before).contains_key(key) ==> entries_map(before)[key]
                == entries_map(entries)[key]);
        }
    } else {
        assert forall|key: Seq<char>| !(#[trigger] last_entry(entries, key) matches Some(i) && i
            < count) by {
            lemma_last_entry(entries, key);
        }
    }
}

/// The entries that count make up the object, each key once.
pub proof fn lemma_last_fields(entries: Seq<(Seq<char>, JsonModel)>)
    ensures
        keys_distinct(last_fields(entries, entries.len() as int)),
        entries_map(last_fields(entries, entries.len() as int)) == entries_map(entries),
{
    lemma_last_fields_prefix(entries, entries.len() as int);
    let kept = entries_map(last_fields(entries, entries.len() as int));
    assert forall|key: Seq<char>| #[trigger] kept.contains_key(key) == entries_map(
        entries,
    ).contains_key(key) by {
        lemma_last_entry(entries, key);
    }
    assert(kept =~= entries_map(entries));
}

/// Whether no later entry has the key of entry `i`.
pub fn is_last(entries: &Vec<(String, Json)>, i: usize) -> (r: bool)
    requires
        i < entries@.len(),
    ensures
        r == (last_entry(fields_view(entries@), fields_view(entries@)[i as int].0) == Some(
            i as int,
        )),
{
    match find(entries, entries[i].0.as_str()) {
        Some(at) => at == i,
        None => false,
    }
}

impl Json {
    /// The field of an object.
    pub fn get(&self, key: &str) -> (r: Option<&Json>)
        ensures
            opt_view(r) == field(self@, key@),
    {
        match self {
            Json::Object(entries) => {
                proof {
                    lemma_object_view(*entries);
                    lemma_last_entry(fields_view(entries@), key@);
                }
                match find(entries, key) {
                    Some(i) => Some(&entries[i].1),
                    None => None,
                }
            },
            _ => None,
        }
    }

    /// The field of an object, or null.
    pub fn at(&self, key: &str) -> (r: &Json)
        ensures
            r@ == field_or_null(self@, key@),
    {
        match self.get(key) {
            Some(value) => value,
            None => &Json::Null,
        }
    }

    pub fn as_str(&self) -> (r: Option<&str>)
        ensures
            match r {
                Some(s) => text_of(self@) == Some(s@),
                None => text_of(self@) is None,
            },
    {
        match self {
            Json::Text(s) => Some(s.as_str()),
            _ => None,
        }
    }

    pub fn as_u64(&self) -> (r: Option<u64>)
        ensures
            match r {
                Some(n) => u64_of(self@) == Some(n as int),
                None => u64_of(self@) is None,
            },
    {
        match self {
            Json::Uint(n) => Some(*n),
            Json::Int(n) => if *n >= 0 {
                Some(*n as u64)
            } else {
                None
            },
            Json::Number(number) => number_u64(number),
            _ => None,
        }
    }

    /// The value as an index: an unsigned integer in the width of the machine.
    pub fn as_index(&self) -> (r: Option<usize>)
        ensures
            match r {
                Some(i) => index_of(self@) == Some(i as int),
                None => index_of(self@) is None,
            },
    {
        match self.as_u64() {
            Some(n) => Some(n as usize),
            None => None,
        }
    }

    pub fn as_i64(&self) -> (r: Option<i64>)
        ensures
            match r {
                Some(n) => i64_of(self@) == Some(n as int),
                None => i64_of(self@) is None,
            },
    {
        match self {
            Json::Uint(n) => if *n <= i64::MAX as u64 {
                Some(*n as i64)
            } else {
                None
            },
            Json::Int(n) => Some(*n),
            Json::Number(number) => number_i64(number),
            _ => None,
        }
    }

    pub fn as_array(&self) -> (r: Option<&Vec<Json>>)
        ensures
            match r {
                Some(items) => self@ == JsonModel::Array(items_view(items@)),
                None => !(self@ is Array),
            },
    {
        match self {
            Json::Array(items) => {
                proof {
                    lemma_array_view(*items);
                }
                Some(items)
            },
            _ => None,
        }
    }

    pub fn is_object(&self) -> (r: bool)
        ensures
            r == (self@ is Object),
    {
        match self {
            Json::Object(_) => true,
            _ => false,
        }
    }

    pub fn is_null(&self) -> (r: bool)
        ensures
            r == (self@ is Null),
    {
        match self {
            Json::Null => true,
            _ => false,
        }
    }

    /// A copy of the value.
    pub fn duplicate(&self) -> (r: Json)
        ensures
            r@ == self@,
        decreases self,
    {
        match self {
            Json::Null => Json::Null,
            Json::Bool(b) => Json::Bool(*b),
            Json::Uint(n) => Json::Uint(*n),
            Json::Int(n) => Json::Int(*n),
            Json::Number(number) => Json::Number(copy_number(number)),
            Json::Text(s) => Json::Text(s.clone()),
            Json::Array(items) => {
                let mut copy: Vec<Json> = Vec::new();
                let mut i: usize = 0;
                while i < items.len()
                    invariant
                        i <= items@.len(),
                        *self == Json::Array(*items),
                        items_view(copy@) == items_view(items@).take(i as int),
                    decreases items@.len() - i,
                {
                    proof {
                        assert(decreases_to!(*self => (*self)->Array_0));
                        assert(decreases_to!((*self)->Array_0 => (*self)->Array_0@));
                        assert(decreases_to!(items@ => items@[i as int]));
                    }
                    let ghost done = items_view(copy@);
                    let item = items[i].duplicate();
                    copy.push(item);
                    assert(items_view(copy@) =~= done.push(item@));
                    assert(items_view(copy@) =~= items_view(items@).take(i + 1));
                    i = i + 1;
                }
                proof {
                    assert(items_view(items@).take(i as int) =~= items_view(items@));
                    lemma_array_view(copy);
                    lemma_array_view(*items);
                }
                Json::Array(copy)
            },
            Json::Object(entries) => {
                let mut copy: Vec<(String, Json)> = Vec::new();
                let mut i: usize = 0;
                while i < entries.len()
                    invariant
                        i <= entries@.len(),
                        *self == Json::Object(*entries),
                        fields_view(copy@) == fields_view(entries@).take(i as int),
                    decreases entries@.len() - i,
                {
                    proof {
                        assert(decreases_to!(*self => (*self)->Object_0));
                        assert(decreases_to!((*self)->Object_0 => (*self)->Object_0@));
                        assert(decreases_to!(entries@ => entries@[i as int]));
                        assert(decreases_to!(entries@[i as int] => entries@[i as int].1));
                    }
                    let ghost done = fields_view(copy@);
                    let value = entries[i].1.duplicate();
                    copy.push((entries[i].0.clone(), value));
                    assert(fields_view(copy@) =~= done.push((entries@[i as int].0@, value@)));
                    assert(fields_view(copy@) =~= fields_view(entries@).take(i + 1));
                    i = i + 1;
                }
                proof {
                    assert(fields_view(entries@).take(i as int) =~= fields_view(entries@));
                    lemma_object_view(copy);
                    lemma_object_view(*entries);
                }
                Json::Object(copy)
            },
        }
    }

    /// The number that the value is.
    fn plain_number(&self) -> (r: Option<PlainNumber>)
        ensures
            match r {
                Some(number) => self@ == number@,
                None => !(self@ is Integer) && !(self@ is Real),
            },
    {
        match self {
            Json::Uint(n) => Some(PlainNumber::Uint(*n)),
            Json::Int(n) => Some(PlainNumber::Int(*n)),
            Json::Number(number) => {
                if let Some(n) = number_u64(number) {
                    Some(PlainNumber::Uint(n))
                } else if let Some(n) = number_i64(number) {
                    Some(PlainNumber::Int(n))
                } else {
                    Some(PlainNumber::Real(number_bits(number)))
                }
            },
            _ => None,
        }
    }

    /// Whether two values are the same JSON value.
    pub fn same(&self, other: &Json) -> (r: bool)
        ensures
            r == same_json(self@, other@),
        decreases self,
    {
        match (self.plain_number(), other.plain_number()) {
            (Some(a), Some(b)) => return a.same(b),
            (None, None) => {},
            _ => return false,
        }
        match (self, other) {
            (Json::Null, Json::Null) => true,
            (Json::Bool(a), Json::Bool(b)) => *a == *b,
            (Json::Text(a), Json::Text(b)) => same_text(a.as_str(), b.as_str()),
            (Json::Array(a), Json::Array(b)) => {
                proof {
                    lemma_array_view(*a);
                    lemma_array_view(*b);
                }
                if a.len() != b.len() {
                    assert(items_view(a@).len() != items_view(b@).len());
                    return false;
                }
                let mut i: usize = 0;
                while i < a.len()
                    invariant
                        i <= a@.len() == b@.len(),
                        *self == Json::Array(*a),
                        *other == Json::Array(*b),
                        self@ == JsonModel::Array(items_view(a@)),
                        other@ == JsonModel::Array(items_view(b@)),
                        forall|k: int|
                            0 <= k < i ==> same_json(#[trigger] items_view(a@)[k], items_view(b@)[k]),
                    decreases a@.len() - i,
                {
                    proof {
                        assert(decreases_to!(*self => (*self)->Array_0));
                        assert(decreases_to!((*self)->Array_0 => (*self)->Array_0@));
                        assert(decreases_to!(a@ => a@[i as int]));
                    }
                    if !a[i].same(&b[i]) {
                        assert(!same_json(items_view(a@)[i as int], items_view(b@)[i as int]));
                        return false;
                    }
                    i = i + 1;
                }
                true
            },
            (Json::Object(a), Json::Object(b)) => {
                let ghost fa = fields_view(a@);
                let ghost fb = fields_view(b@);
                proof {
                    lemma_object_view(*a);
                    lemma_object_view(*b);
                }
                let mut i: usize = 0;
                while i < a.len()
                    invariant
                        i <= a@.len(),
                        *self == Json::Object(*a),
                        *other == Json::Object(*b),
                        fa == fields_view(a@),
                        fb == fields_view(b@),
                        self@ == JsonModel::Object(entries_map(fa)),
                        other@ == JsonModel::Object(entries_map(fb)),
                        forall|k: int|
                            0 <= k < i ==> entries_map(fb).contains_key((#[trigger] fa[k]).0)
                                && same_json(entries_map(fa)[fa[k].0], entries_map(fb)[fa[k].0]),
                    decreases a@.len() - i,
                {
                    let key = a[i].0.as_str();
                    proof {
                        lemma_last_entry(fa, key@);
                        lemma_last_entry(fb, key@);
                        assert(fa[i as int].0 == key@);
                    }
                    let here = find(a, key);
                    let there = find(b, key);
                    match (here, there) {
                        (Some(p), Some(q)) => {
                            proof {
                                assert(decreases_to!(*self => (*self)->Object_0));
                                assert(decreases_to!((*self)->Object_0 => (*self)->Object_0@));
                                assert(decreases_to!(a@ => a@[p as int]));
                                assert(decreases_to!(a@[p as int] => a@[p as int].1));
                            }
                            if !a[p].1.same(&b[q].1) {
                                assert(!same_json(entries_map(fa)[key@], entries_map(fb)[key@]));
                                return false;
                            }
                        },
                        _ => {
                            assert(entries_map(fa).dom().contains(key@));
                            assert(!entries_map(fb).dom().contains(key@));
                            return false;
                        },
                    }
                    i = i + 1;
                }
                let mut j: usize = 0;
                while j < b.len()
                    invariant
                        j <= b@.len(),
                        fa == fields_view(a@),
                        fb == fields_view(b@),
                        self@ == JsonModel::Object(entries_map(fa)),
                        other@ == JsonModel::Object(entries_map(fb)),
                        forall|k: int|
                            0 <= k < j ==> entries_map(fa).contains_key((#[trigger] fb[k]).0),
                    decreases b@.len() - j,
                {
                    let key = b[j].0.as_str();
                    proof {
                        lemma_last_entry(fa, key@);
                        lemma_last_entry(fb, key@);
                        assert(fb[j as int].0 == key@);
                    }
                    if find(a, key).is_none() {
                        assert(entries_map(fb).dom().contains(key@));
                        assert(!entries_map(fa).dom().contains(key@));
                        return false;
                    }
                    j = j + 1;
                }
                proof {
                    assert forall|k: Seq<char>| #[trigger]
                        entries_map(fa).contains_key(k) implies entries_map(fb).contains_key(k)
                        && same_json(entries_map(fa)[k], entries_map(fb)[k]) by {
                        lemma_last_entry(fa, k);
                        let at = last_entry(fa, k)->Some_0;
                        assert(fa[at].0 == k);
                    }
                    assert forall|k: Seq<char>| #[trigger]
                        entries_map(fb).contains_key(k) implies entries_map(fa).contains_key(k) by {
                        lemma_last_entry(fb, k);
                        let at = last_entry(fb, k)->Some_0;
                        assert(fb[at].0 == k);
                    }
                    assert(entries_map(fa).dom() =~= entries_map(fb).dom());
                }
                true
            },
            _ => false,
        }
    }
}

// ---------------------------------------------------------------------------
// Building
// ---------------------------------------------------------------------------

/// The value with a field set; only objects have fields.
pub open spec fn with_field(value: JsonModel, key: Seq<char>, item: JsonModel) -> JsonModel {
    match value {
        JsonModel::Object(map) => JsonModel::Object(map.insert(key, item)),
        _ => value,
    }
}

/// The value without a field.
pub open spec fn without_field(value: JsonModel, key: Seq<char>) -> JsonModel {
    match value {
        JsonModel::Object(map) => JsonModel::Object(map.remove(key)),
        _ => value,
    }
}

/// The value with a field set, unless it has that field already.
pub open spec fn with_default(value: JsonModel, key: Seq<char>, item: JsonModel) -> JsonModel {
    if field(value, key) is Some {
        value
    } else {
        with_field(value, key, item)
    }
}

fn remove_entries(entries: &mut Vec<(String, Json)>, key: &str)
    ensures
        entries_map(fields_view(final(entries)@)) == entries_map(fields_view(old(entries)@)).remove(
            key@,
        ),
{
    let ghost before = entries_map(fields_view(entries@)).remove(key@);
    let mut i: usize = 0;
    while i < entries.len()
        invariant
            i <= entries@.len(),
            before == entries_map(fields_view(entries@)).remove(key@),
            forall|k: int| 0 <= k < i ==> (#[trigger] fields_view(entries@)[k]).0 != key@,
        decreases entries@.len() - i,
    {
        let ghost fields = fields_view(entries@);
        if same_text(entries[i].0.as_str(), key) {
            let _ = entries.remove(i);
            proof {
                lemma_entry_left_out(fields, i as int);
                assert(fields_view(entries@) =~= fields.remove(i as int));
                assert forall|k: int| 0 <= k < i implies (#[trigger] fields_view(entries@)[k]).0
                    != key@ by {
                    assert(fields[k].0 != key@);
                }
            }
        } else {
            i = i + 1;
        }
    }
    proof {
        lemma_entry_of_key(fields_view(entries@), key@);
        lemma_last_entry(fields_view(entries@), key@);
        assert(entries_map(fields_view(entries@)) =~= before);
    }
}

impl Json {
    /// The object without fields.
    pub fn object() -> (r: Json)
        ensures
            r@ == JsonModel::Object(Map::empty()),
    {
        let entries: Vec<(String, Json)> = Vec::new();
        proof {
            lemma_object_view(entries);
        }
        Json::Object(entries)
    }

    pub fn string(s: &str) -> (r: Json)
        ensures
            r@ == JsonModel::Text(s@),
    {
        Json::Text(s.to_owned())
    }

    pub fn array(items: Vec<Json>) -> (r: Json)
        ensures
            r@ == JsonModel::Array(items_view(items@)),
    {
        proof {
            lemma_array_view(items);
        }
        Json::Array(items)
    }

    /// Sets a field of an object.
    pub fn with(self, key: &str, value: Json) -> (r: Json)
        ensures
            r@ == with_field(self@, key@, value@),
    {
        match self {
            Json::Object(entries) => {
                let mut entries = entries;
                proof {
                    lemma_object_view(entries);
                }
                let ghost before = entries_map(fields_view(entries@));
                remove_entries(&mut entries, key);
                let ghost fields = fields_view(entries@);
                entries.push((key.to_owned(), value));
                proof {
                    assert(fields_view(entries@) =~= fields.push((key@, value@)));
                    assert(fields.push((key@, value@)).drop_last() =~= fields);
                    lemma_object_view(entries);
                    assert(before.remove(key@).insert(key@, value@) =~= before.insert(
                        key@,
                        value@,
                    ));
                }
                Json::Object(entries)
            },
            other => other,
        }
    }

    /// Removes a field of an object.
    pub fn without(self, key: &str) -> (r: Json)
        ensures
            r@ == without_field(self@, key@),
    {
        match self {
            Json::Object(entries) => {
                let mut entries = entries;
                proof {
                    lemma_object_view(entries);
                }
                remove_entries(&mut entries, key);
                proof {
                    lemma_object_view(entries);
                }
                Json::Object(entries)
            },
            other => other,
        }
    }

    /// Sets a field of an object, unless it is there already.
    pub fn with_missing(self, key: &str, value: Json) -> (r: Json)
        ensures
            r@ == with_default(self@, key@, value@),
    {
        if self.get(key).is_some() {
            self
        } else {
            self.with(key, value)
        }
    }
}

/// Copies of some values.
pub fn duplicates(items: &Vec<Json>) -> (r: Vec<Json>)
    ensures
        items_view(r@) == items_view(items@),
{
    let mut copy: Vec<Json> = Vec::new();
    let mut i: usize = 0;
    while i < items.len()
        invariant
            i <= items@.len(),
            items_view(copy@) == items_view(items@).take(i as int),
        decreases items@.len() - i,
    {
        let ghost done = items_view(copy@);
        let item = items[i].duplicate();
        copy.push(item);
        assert(items_view(copy@) =~= done.push(item@));
        assert(items_view(copy@) =~= items_view(items@).take(i + 1));
        i = i + 1;
    }
    assert(items_view(items@).take(i as int) =~= items_view(items@));
    copy
}

/// Copies of the items of an array; none for every other value.
pub fn items_in(value: &Json) -> (r: Vec<Json>)
    ensures
        items_view(r@) == items_or_none(value@),
{
    match value.as_array() {
        Some(items) => duplicates(items),
        None => {
            let none: Vec<Json> = Vec::new();
            assert(items_view(none@) =~= Seq::<JsonModel>::empty());
            none
        },
    }
}

/// A copy of the field of an object, or null.
pub fn field_copy(value: &Json, key: &str) -> (r: Json)
    ensures
        r@ == field_or_null(value@, key@),
{
    value.at(key).duplicate()
}

// ---------------------------------------------------------------------------
// Laws
// ---------------------------------------------------------------------------

/// A field that is set is there, one that is removed is not, and all others
/// stay. A default only counts where there is no field yet.
pub proof fn law_fields_are_independent(
    map: Map<Seq<char>, JsonModel>,
    key: Seq<char>,
    item: JsonModel,
    other: Seq<char>,
)
    requires
        other != key,
    ensures
        ({
            let value = JsonModel::Object(map);
            let there = map.contains_key(key);
            &&& field(with_field(value, key, item), key) == Some(item)
            &&& field(with_field(value, key, item), other) == field(value, other)
            &&& field(without_field(value, key), key) is None
            &&& field(without_field(value, key), other) == field(value, other)
            &&& there ==> with_default(value, key, item) == value
            &&& !there ==> field(with_default(value, key, item), key) == Some(item)
            &&& field(with_default(value, key, item), other) == field(value, other)
            &&& there ==> field(value, key) == Some(map[key]) && field_or_null(value, key)
                == map[key]
            &&& !there ==> field(value, key) is None && field_or_null(value, key) == JsonModel::Null
        }),
{
}

/// Only objects have fields, and nothing can be set on anything else.
pub proof fn law_only_objects_have_fields(value: JsonModel, key: Seq<char>, item: JsonModel)
    requires
        !(value is Object),
    ensures
        field(value, key) is None,
        field_or_null(value, key) == JsonModel::Null,
        with_field(value, key, item) == value,
        without_field(value, key) == value,
        with_default(value, key, item) == value,
{
}

/// A value is a text, a number or a list of items only if it says so, and a
/// number only if it fits.
pub proof fn law_values_are_what_they_say(value: JsonModel, n: int)
    requires
        n <= usize::MAX,
    ensures
        value matches JsonModel::Text(text) ==> text_of(value) == Some(text),
        !(value is Text) ==> text_of(value) is None,
        value matches JsonModel::Array(items) ==> items_or_none(value) == items,
        !(value is Array) ==> items_or_none(value) == Seq::<JsonModel>::empty(),
        !(value is Integer) ==> i64_of(value) is None && index_of(value) is None,
        n >= 0 ==> index_of(JsonModel::Integer(n)) == Some(n),
        n < 0 ==> index_of(JsonModel::Integer(n)) is None,
        i64_of(JsonModel::Integer(n)) == (if i64::MIN <= n <= i64::MAX {
            Some(n)
        } else {
            None
        }),
{
}

/// Of two entries with the same key the later one counts.
pub proof fn law_later_entries_win(
    entries: Seq<(Seq<char>, JsonModel)>,
    i: int,
    key: Seq<char>,
)
    ensures
        0 <= i < entries.len() && (forall|k: int|
            i < k < entries.len() ==> (#[trigger] entries[k]).0 != entries[i].0) ==> entries_map(
            entries,
        ).contains_key(entries[i].0) && entries_map(entries)[entries[i].0] == entries[i].1,
        (forall|k: int| 0 <= k < entries.len() ==> (#[trigger] entries[k]).0 != key)
            ==> !entries_map(entries).contains_key(key),
    decreases entries.len(),
{
    if entries.len() > 0 {
        let before = entries.drop_last();
        law_later_entries_win(before, i, key);
        assert(entries[entries.len() - 1] == entries.last());
        if i < entries.len() - 1 && i >= 0 {
            assert(before[i] == entries[i]);
            assert(forall|k: int|
                i < k < before.len() ==> #[trigger] before[k] == entries[k]);
        }
        assert(forall|k: int| 0 <= k < before.len() ==> #[trigger] before[k] == entries[k]);
    }
}

/// Every value is the same as itself.
pub proof fn law_values_are_the_same_as_themselves(value: JsonModel)
    ensures
        same_json(value, value),
    decreases value,
{
    match value {
        JsonModel::Array(items) => {
            assert forall|i: int| 0 <= i < items.len() implies same_json(
                #[trigger] items[i],
                items[i],
            ) by {
                law_values_are_the_same_as_themselves(items[i]);
            }
        },
        JsonModel::Object(fields) => {
            assert forall|key: Seq<char>| fields.contains_key(key) implies same_json(
                #[trigger] fields[key],
                fields[key],
            ) by {
                law_values_are_the_same_as_themselves(fields[key]);
            }
        },
        _ => {},
    }
}

/// Numbers, texts, truth values and null are the same only as what they equal.
pub proof fn law_plain_values_are_the_same_if_equal(a: JsonModel, b: JsonModel)
    requires
        !(a is Array),
        !(a is Object),
        !(a is Real),
    ensures
        same_json(a, b) <==> a == b,
        same_json(b, a) <==> a == b,
{
}

/// Arrays are the same if their items are, one by one. Objects are the same if
/// they have the same keys, whatever their order, with the same values. Numbers
/// with a fraction are the same if they are equal or both zero.
pub proof fn law_compound_values_are_the_same_by_parts(
    a: Seq<JsonModel>,
    b: Seq<JsonModel>,
    x: Map<Seq<char>, JsonModel>,
    y: Map<Seq<char>, JsonModel>,
    m: u64,
    n: u64,
)
    ensures
        same_json(JsonModel::Array(a), JsonModel::Array(b)) <==> a.len() == b.len() && forall|
            i: int,
        |
            0 <= i < a.len() ==> same_json(#[trigger] a[i], b[i]),
        same_json(JsonModel::Object(x), JsonModel::Object(y)) <==> x.dom() == y.dom() && forall|
            key: Seq<char>,
        |
            x.contains_key(key) ==> same_json(#[trigger] x[key], y[key]),
        same_json(JsonModel::Real(m), JsonModel::Real(n)) <==> m == n || ((m == 0 || m
            == 0x8000_0000_0000_0000) && (n == 0 || n == 0x8000_0000_0000_0000)),
        !same_json(JsonModel::Array(a), JsonModel::Object(x)),
        !same_json(JsonModel::Object(x), JsonModel::Array(a)),
{
}

} // verus!
