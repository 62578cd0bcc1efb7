//! JSON values and their compact text.

use crate::entries;
use crate::entries::comes_before;
use crate::float;
use crate::float::Float;
use crate::hashing;
use crate::text;
use crate::text::{push_decimal, same_text};
use vstd::prelude::*;
use vstd::string::*;

verus! {

/// A JSON number: an integer that is not negative, a negative integer, or a finite
/// floating-point number.
#[derive(Clone, Copy, Debug)]
pub enum JsonNumber {
    /// An integer that is not negative.
    PosInt(u64),
    /// A negative integer.
    NegInt(i64),
    /// A floating-point number.
    Float(Float),
}

/// A JSON value.
#[derive(Debug)]
pub enum Json {
    /// `null`.
    Null,
    /// `true` or `false`.
    Bool(bool),
    /// A number.
    Number(JsonNumber),
    /// A string.
    Text(String),
    /// An array.
    List(Vec<Json>),
    /// An object. Its entries may be listed in any order, and of those with the same key the last
    /// one counts.
    Object(Vec<(String, Json)>),
}

/// What a JSON value or text stands for, the entries of an object in the order that it has.
pub ghost enum JsonModel {
    Null,
    Bool(bool),
    Number(JsonNumber),
    Text(Seq<char>),
    List(Seq<JsonModel>),
    Object(Seq<(Seq<char>, JsonModel)>),
}

impl View for Json {
    type V = JsonModel;

    open spec fn view(&self) -> JsonModel {
        json_model(*self)
    }
}

/// What a JSON value stands for: the entries of objects are in the order of their keys.
pub open spec fn json_model(json: Json) -> JsonModel
    decreases json,
{
    match json {
        Json::Null => JsonModel::Null,
        Json::Bool(b) => JsonModel::Bool(b),
        Json::Number(n) => JsonModel::Number(n),
        Json::Text(s) => JsonModel::Text(s@),
        Json::List(items) => JsonModel::List(list_model(items@)),
        Json::Object(entries) => JsonModel::Object(entries::ordered(entries_model(entries@))),
    }
}

/// What the items of an array stand for.
pub open spec fn list_model(items: Seq<Json>) -> Seq<JsonModel>
    decreases items,
{
    if items.len() == 0 {
        Seq::empty()
    } else {
        list_model(items.subrange(0, items.len() - 1)).push(json_model(items[items.len() - 1]))
    }
}

/// What the entries of an object stand for, as they are listed.
pub open spec fn entries_model(entries: Seq<(String, Json)>) -> Seq<(Seq<char>, JsonModel)>
    decreases entries,
{
    if entries.len() == 0 {
        Seq::empty()
    } else {
        entries_model(entries.subrange(0, entries.len() - 1)).push(
            (entries[entries.len() - 1].0@, json_model(entries[entries.len() - 1].1)),
        )
    }
}

/// The items of an array stand for what each of them stands for.
pub proof fn lemma_list_model(items: Seq<Json>)
    ensures
        list_model(items).len() == items.len(),
        forall|i: int| 0 <= i < items.len() ==> #[trigger] list_model(items)[i] == items[i]@,
    decreases items.len(),
{
    if items.len() > 0 {
        lemma_list_model(items.subrange(0, items.len() - 1));
    }
}

/// The entries of an object stand for what each of them stands for.
pub proof fn lemma_entries_model(entries: Seq<(String, Json)>)
    ensures
        entries_model(entries).len() == entries.len(),
        forall|i: int|
            0 <= i < entries.len() ==> #[trigger] entries_model(entries)[i] == (
                entries[i].0@,
                entries[i].1@,
            ),
    decreases entries.len(),
{
    if entries.len() > 0 {
        lemma_entries_model(entries.subrange(0, entries.len() - 1));
    }
}

/// What a JSON text stands for after it is read: the entries of its objects are in the order of
/// their keys, and of those with the same key the last one counts.
pub open spec fn canonical(json: JsonModel) -> JsonModel
    decreases json,
{
    match json {
        JsonModel::List(items) => JsonModel::List(canonical_list(items)),
        JsonModel::Object(entries) => JsonModel::Object(
            entries::ordered(canonical_entries(entries)),
        ),
        _ => json,
    }
}

/// What the items of an array stand for after they are read.
pub open spec fn canonical_list(items: Seq<JsonModel>) -> Seq<JsonModel>
    decreases items,
{
    if items.len() == 0 {
        Seq::empty()
    } else {
        canonical_list(items.subrange(0, items.len() - 1)).push(canonical(items[items.len() - 1]))
    }
}

/// What the entries of an object stand for after they are read, as they are listed.
pub open spec fn canonical_entries(entries: Seq<(Seq<char>, JsonModel)>) -> Seq<
    (Seq<char>, JsonModel),
>
    decreases entries,
{
    if entries.len() == 0 {
        Seq::empty()
    } else {
        canonical_entries(entries.subrange(0, entries.len() - 1)).push(
            (entries[entries.len() - 1].0, canonical(entries[entries.len() - 1].1)),
        )
    }
}

/// The entries of an object stand after they are read for what each of them stands for.
pub proof fn lemma_canonical_entries(entries: Seq<(Seq<char>, JsonModel)>)
    ensures
        canonical_entries(entries).len() == entries.len(),
        forall|i: int|
            0 <= i < entries.len() ==> #[trigger] canonical_entries(entries)[i] == (
                entries[i].0,
                canonical(entries[i].1),
            ),
    decreases entries.len(),
{
    if entries.len() > 0 {
        lemma_canonical_entries(entries.subrange(0, entries.len() - 1));
    }
}

/// The value of a field of an object after it is read.
pub proof fn lemma_canonical_field(entries: Seq<(Seq<char>, JsonModel)>, i: int)
    requires
        0 <= i < entries.len(),
        forall|j: int| i < j < entries.len() ==> (#[trigger] entries[j]).0 != entries[i].0,
    ensures
        canonical(JsonModel::Object(entries)).field(entries[i].0) == Some(
            canonical(entries[i].1),
        ),
    decreases entries.len(),
{
    let held = canonical_entries(entries);
    lemma_canonical_entries(entries);
    entries::law_entries_ordered(held, entries[i].0);
    entries::lemma_last_value(held, i);
}

/// The floating-point number that a number is or is nearest to.
pub open spec fn number_bits(n: JsonNumber) -> u64 {
    match n {
        JsonNumber::PosInt(i) => float::nearest(i as int),
        JsonNumber::NegInt(i) => float::nearest(i as int),
        JsonNumber::Float(f) => f.bits(),
    }
}

/// The integer that a number is, where it is one that 64 signed bits hold.
pub open spec fn signed_integer(n: JsonNumber) -> Option<i64> {
    match n {
        JsonNumber::PosInt(i) => if i <= i64::MAX {
            Some(i as i64)
        } else {
            None
        },
        JsonNumber::NegInt(i) => Some(i),
        JsonNumber::Float(_) => None,
    }
}

impl JsonModel {
    /// The value of the entry with a given key, if this is an object that has one.
    pub open spec fn field(self, key: Seq<char>) -> Option<JsonModel> {
        match self {
            JsonModel::Object(entries) => entries::lookup(entries, key),
            _ => None,
        }
    }

    /// The text, if this is a string.
    pub open spec fn string(self) -> Option<Seq<char>> {
        match self {
            JsonModel::Text(s) => Some(s),
            _ => None,
        }
    }

    /// The integer, if this is a number that is an integer and not negative.
    pub open spec fn unsigned(self) -> Option<u64> {
        match self {
            JsonModel::Number(JsonNumber::PosInt(n)) => Some(n),
            _ => None,
        }
    }

    /// The bits of the floating-point number, if this is a number.
    pub open spec fn float_bits(self) -> Option<u64> {
        match self {
            JsonModel::Number(n) => Some(number_bits(n)),
            _ => None,
        }
    }

    /// The text of the field with a given key, if there is one and it is a string.
    pub open spec fn string_field(self, key: Seq<char>) -> Option<Seq<char>> {
        match self.field(key) {
            Some(v) => v.string(),
            None => None,
        }
    }

    /// The integer of the field with a given key, if there is one and it is an integer that is
    /// not negative.
    pub open spec fn unsigned_field(self, key: Seq<char>) -> Option<u64> {
        match self.field(key) {
            Some(v) => v.unsigned(),
            None => None,
        }
    }

    /// The bits of the floating-point number of the field with a given key, if there is one and
    /// it is a number.
    pub open spec fn float_field(self, key: Seq<char>) -> Option<u64> {
        match self.field(key) {
            Some(v) => v.float_bits(),
            None => None,
        }
    }
}

/// The text of a character inside a JSON string.
pub open spec fn escaped(c: char) -> Seq<char> {
    if c == '"' {
        seq!['\\', '"']
    } else if c == '\\' {
        seq!['\\', '\\']
    } else if c as u32 == 8 {
        seq!['\\', 'b']
    } else if c as u32 == 9 {
        seq!['\\', 't']
    } else if c as u32 == 10 {
        seq!['\\', 'n']
    } else if c as u32 == 12 {
        seq!['\\', 'f']
    } else if c as u32 == 13 {
        seq!['\\', 'r']
    } else if (c as u32) < 32 {
        seq![
            '\\',
            'u',
            '0',
            '0',
            hashing::hex_digit(c as nat / 16),
            hashing::hex_digit(c as nat % 16),
        ]
    } else {
        seq![c]
    }
}

/// The text inside a JSON string.
pub open spec fn escaped_text(s: Seq<char>) -> Seq<char>
    decreases s.len(),
{
    if s.len() == 0 {
        Seq::empty()
    } else {
        escaped(s[0]) + escaped_text(s.drop_first())
    }
}

/// The JSON string that stands for a text.
pub open spec fn quoted(s: Seq<char>) -> Seq<char> {
    seq!['"'] + escaped_text(s) + seq!['"']
}

/// The text of a finite floating-point number: what `serde_json::to_string` returns for it.
pub uninterp spec fn float_text(bits: u64) -> Seq<char>;

/// The text of a number.
pub open spec fn number_text(n: JsonNumber) -> Seq<char> {
    match n {
        JsonNumber::PosInt(i) => text::decimal(i as nat),
        JsonNumber::NegInt(i) => if i < 0 {
            seq!['-'] + text::decimal((-i) as nat)
        } else {
            text::decimal(i as nat)
        },
        JsonNumber::Float(f) => float_text(f.bits()),
    }
}

/// The compact text of a JSON value.
pub open spec fn json_text(json: JsonModel) -> Seq<char>
    decreases json,
{
    match json {
        JsonModel::Null => "null"@,
        JsonModel::Bool(b) => if b {
            "true"@
        } else {
            "false"@
        },
        JsonModel::Number(n) => number_text(n),
        JsonModel::Text(s) => quoted(s),
        JsonModel::List(items) => "["@ + list_text(items) + "]"@,
        JsonModel::Object(entries) => "{"@ + entries_text(entries) + "}"@,
    }
}

/// The texts of the items of an array with commas between them.
pub open spec fn list_text(items: Seq<JsonModel>) -> Seq<char>
    decreases items,
{
    if items.len() == 0 {
        Seq::empty()
    } else if items.len() == 1 {
        json_text(items[0])
    } else {
        list_text(items.subrange(0, items.len() - 1)) + ","@ + json_text(items[items.len() - 1])
    }
}

/// The texts of the entries of an object with commas between them.
pub open spec fn entries_text(entries: Seq<(Seq<char>, JsonModel)>) -> Seq<char>
    decreases entries,
{
    if entries.len() == 0 {
        Seq::empty()
    } else if entries.len() == 1 {
        quoted(entries[0].0) + ":"@ + json_text(entries[0].1)
    } else {
        entries_text(entries.subrange(0, entries.len() - 1)) + ","@ + quoted(
            entries[entries.len() - 1].0,
        ) + ":"@ + json_text(entries[entries.len() - 1].1)
    }
}

/// The character can stand in the text of a floating-point number.
pub open spec fn is_numeral(c: char) -> bool {
    '0' <= c <= '9' || c == '.' || c == '-' || c == '+' || c == 'e'
}

/// `serde_json::to_string` of a text: the JSON string that stands for it.
#[verifier::external_body]
pub(crate) fn serde_quote(s: &str) -> (r: String)
    ensures
        r@ == quoted(s@),
{
    serde_json::to_string(s).unwrap()
}

/// `serde_json::to_string` of a finite floating-point number: a function of the number, made of
/// digits, signs, a point and the letter `e`. The number is made from its bits by
/// `wasmtime::Val::unwrap_f64`.
#[verifier::external_body]
pub(crate) fn serde_float_text(bits: u64) -> (r: String)
    requires
        float::is_finite(bits),
    ensures
        r@ == float_text(bits),
        forall|i: int| 0 <= i < r@.len() ==> is_numeral(#[trigger] r@[i]),
{
    serde_json::to_string(&wasmtime::Val::F64(bits).unwrap_f64()).unwrap()
}

/// A JSON number as `serde_json` holds it.
#[verifier::external_type_specification]
#[verifier::external_body]
pub struct ExSerdeNumber(serde_json::Number);

/// A JSON value as `serde_json` holds it.
#[verifier::external_type_specification]
#[verifier::external_body]
pub struct ExSerdeValue(serde_json::Value);

/// What a `serde_json::Number` holds.
pub uninterp spec fn held_number(number: serde_json::Number) -> JsonNumber;

/// What a `serde_json::Value` holds.
pub uninterp spec fn held_value(value: serde_json::Value) -> JsonModel;

/// What `serde_json::from_str` reads of a text: a value, or the message that tells why there is
/// none.
pub uninterp spec fn parsed(text: Seq<char>) -> core::result::Result<JsonModel, Seq<char>>;

/// `serde_json::Number::from` of an integer and `serde_json::Number::from_f64`: a number that
/// holds the given one. An integer that is not negative is held as such, whatever type it had. A
/// floating-point number is made from its bits by `wasmtime::Val::unwrap_f64`.
#[verifier::external_body]
fn serde_number(number: JsonNumber) -> (r: serde_json::Number)
    ensures
        held_number(r) == (match number {
            JsonNumber::NegInt(n) => if n >= 0 {
                JsonNumber::PosInt(n as u64)
            } else {
                number
            },
            _ => number,
        }),
{
    match number {
        JsonNumber::PosInt(n) => serde_json::Number::from(n),
        JsonNumber::NegInt(n) => serde_json::Number::from(n),
        JsonNumber::Float(f) => {
            serde_json::Number::from_f64(wasmtime::Val::F64(f.to_bits()).unwrap_f64()).unwrap()
        },
    }
}

/// `serde_json::Number::as_u64`: the integer that the number holds, if it is not negative.
#[verifier::external_body]
fn serde_as_u64(number: &serde_json::Number) -> (r: Option<u64>)
    ensures
        r == (match held_number(*number) {
            JsonNumber::PosInt(n) => Some(n),
            _ => None,
        }),
{
    number.as_u64()
}

/// `serde_json::Number::as_i64`: the integer that the number holds, if 64 signed bits hold it.
#[verifier::external_body]
fn serde_as_i64(number: &serde_json::Number) -> (r: Option<i64>)
    ensures
        r == signed_integer(held_number(*number)),
{
    number.as_i64()
}

/// `serde_json::Number::as_f64`: a floating-point number is kept, an integer gives the
/// floating-point number nearest to it.
#[verifier::external_body]
fn serde_as_float_bits(number: &serde_json::Number) -> (r: u64)
    ensures
        match held_number(*number) {
            JsonNumber::PosInt(n) => float::is_nearest(r, n as int),
            JsonNumber::NegInt(n) => float::is_nearest(r, n as int),
            JsonNumber::Float(f) => r == f.bits() && float::is_finite(r),
        },
{
    number.as_f64().unwrap().to_bits()
}

/// A value of `serde_json`, its variants told apart.
enum Node<'a> {
    Null,
    Bool(bool),
    Number(&'a serde_json::Number),
    Text(&'a String),
    List(&'a Vec<serde_json::Value>),
    Object(Vec<(&'a String, &'a serde_json::Value)>),
}

spec fn node_model(node: Node<'_>) -> JsonModel {
    match node {
        Node::Null => JsonModel::Null,
        Node::Bool(b) => JsonModel::Bool(b),
        Node::Number(n) => JsonModel::Number(held_number(*n)),
        Node::Text(s) => JsonModel::Text(s@),
        Node::List(items) => JsonModel::List(
            Seq::new(items@.len(), |i: int| held_value(items@[i])),
        ),
        Node::Object(entries) => JsonModel::Object(
            Seq::new(entries@.len(), |i: int| (entries@[i].0@, held_value(*entries@[i].1))),
        ),
    }
}

/// Tells the variants of a `serde_json::Value` apart. The entries of an object come in the order
/// of `serde_json::Map::iter`, which is that of a `std::collections::BTreeMap`: each key once, in
/// the order of their bytes.
#[verifier::external_body]
fn serde_node(value: &serde_json::Value) -> (r: Node<'_>)
    ensures
        held_value(*value) == node_model(r),
        node_model(r) matches JsonModel::Object(entries) ==> entries::keys_increase(entries),
{
    match value {
        serde_json::Value::Null => Node::Null,
        serde_json::Value::Bool(b) => Node::Bool(*b),
        serde_json::Value::Number(n) => Node::Number(n),
        serde_json::Value::String(s) => Node::Text(s),
        serde_json::Value::Array(items) => Node::List(items),
        serde_json::Value::Object(map) => Node::Object(map.iter().collect()),
    }
}

/// `serde_json::from_str`: the value that a text is, or the message of the error. It is a function
/// of the text.
#[verifier::external_body]
fn serde_parse(text: &str) -> (r: core::result::Result<serde_json::Value, String>)
    ensures
        match r {
            Ok(value) => parsed(text@) == Ok::<JsonModel, Seq<char>>(held_value(value)),
            Err(e) => parsed(text@) == Err::<JsonModel, Seq<char>>(e@),
        },
{
    serde_json::from_str(text).map_err(|e| e.to_string())
}

/// The number that a `serde_json::Number` holds.
fn from_serde_number(number: &serde_json::Number) -> (r: JsonNumber)
    ensures
        r == held_number(*number),
{
    match serde_as_u64(number) {
        Some(n) => JsonNumber::PosInt(n),
        None => match serde_as_i64(number) {
            Some(n) => JsonNumber::NegInt(n),
            None => {
                let bits = serde_as_float_bits(number);
                let f = Float::from_bits(bits).unwrap();
                proof {
                    if let JsonNumber::Float(g) = held_number(*number) {
                        float::lemma_same_bits(f, g);
                    }
                }
                JsonNumber::Float(f)
            },
        },
    }
}

/// The value that a `serde_json::Value` holds.
fn from_serde(value: &serde_json::Value) -> (r: Json)
    ensures
        r@ == held_value(*value),
    decreases held_value(*value),
{
    let node = serde_node(value);
    let ghost held = held_value(*value);
    match node {
        Node::Null => Json::Null,
        Node::Bool(b) => Json::Bool(b),
        Node::Number(n) => Json::Number(from_serde_number(n)),
        Node::Text(s) => Json::Text(s.clone()),
        Node::List(items) => {
            let ghost models = held->List_0;
            let mut copy: Vec<Json> = Vec::new();
            let mut k: usize = 0;
            while k < items.len()
                invariant
                    k <= items@.len(),
                    copy@.len() == k,
                    held == held_value(*value),
                    held == JsonModel::List(models),
                    models.len() == items@.len(),
                    forall|i: int|
                        0 <= i < items@.len() ==> #[trigger] models[i] == held_value(items@[i]),
                    forall|i: int| 0 <= i < k ==> (#[trigger] copy@[i])@ == models[i],
                decreases items@.len() - k,
            {
                assert(decreases_to!(held => held->List_0[k as int]));
                copy.push(from_serde(&items[k]));
                k = k + 1;
            }
            proof {
                lemma_list_model(copy@);
                assert(list_model(copy@) =~= models);
            }
            Json::List(copy)
        },
        Node::Object(entries) => {
            let ghost models = held->Object_0;
            let mut copy: Vec<(String, Json)> = Vec::new();
            let mut k: usize = 0;
            while k < entries.len()
                invariant
                    k <= entries@.len(),
                    copy@.len() == k,
                    held == held_value(*value),
                    held == JsonModel::Object(models),
                    entries::keys_increase(models),
                    models.len() == entries@.len(),
                    forall|i: int|
                        0 <= i < entries@.len() ==> #[trigger] models[i] == (
                            entries@[i].0@,
                            held_value(*entries@[i].1),
                        ),
                    forall|i: int|
                        0 <= i < k ==> (#[trigger] copy@[i]).0@ == models[i].0 && copy@[i].1@
                            == models[i].1,
                decreases entries@.len() - k,
            {
                assert(decreases_to!(held => held->Object_0[k as int].1));
                copy.push((entries[k].0.clone(), from_serde(entries[k].1)));
                k = k + 1;
            }
            proof {
                lemma_entries_model(copy@);
                assert(entries_model(copy@) =~= models);
                entries::law_ordered_entries_stay(models);
            }
            Json::Object(copy)
        },
    }
}

impl Json {
    /// The value that a text is, or why it is none.
    pub fn parse(text: &str) -> (r: core::result::Result<Json, String>)
        ensures
            match r {
                Ok(json) => parsed(text@) == Ok::<JsonModel, Seq<char>>(json@),
                Err(e) => parsed(text@) == Err::<JsonModel, Seq<char>>(e@),
            },
    {
        match serde_parse(text) {
            Ok(value) => Ok(from_serde(&value)),
            Err(e) => Err(e),
        }
    }
}

impl Json {
    /// The value of the last entry with a given key, if this is an object that has one.
    pub fn get(&self, key: &str) -> (r: Option<&Json>)
        ensures
            match r {
                Some(v) => self@.field(key@) == Some(v@),
                None => self@.field(key@) is None,
            },
    {
        match self {
            Json::Object(entries) => {
                let ghost model = entries_model(entries@);
                let wanted = key.to_owned();
                let mut k: usize = entries.len();
                proof {
                    lemma_entries_model(entries@);
                    entries::law_entries_ordered(model, key@);
                    assert(model.take(k as int) =~= model);
                }
                while k > 0
                    invariant
                        k <= entries@.len(),
                        wanted@ == key@,
                        model.len() == entries@.len(),
                        forall|i: int|
                            0 <= i < entries@.len() ==> #[trigger] model[i] == (
                                entries@[i].0@,
                                entries@[i].1@,
                            ),
                        self@.field(key@) == entries::last_value(model.take(k as int), key@),
                    decreases k,
                {
                    k = k - 1;
                    assert(model.take(k + 1).last() == model[k as int]);
                    if entries[k].0 == wanted {
                        return Some(&entries[k].1);
                    }
                    assert(model.take(k + 1).drop_last() =~= model.take(k as int));
                }
                None
            },
            _ => None,
        }
    }

    /// The text, if this is a string.
    pub fn as_str(&self) -> (r: Option<&str>)
        ensures
            match r {
                Some(s) => self@.string() == Some(s@),
                None => self@.string() is None,
            },
    {
        match self {
            Json::Text(s) => Some(s.as_str()),
            _ => None,
        }
    }

    /// The integer, if this is a number that is an integer and not negative.
    pub fn as_u64(&self) -> (r: Option<u64>)
        ensures
            r == self@.unsigned(),
    {
        match self {
            Json::Number(JsonNumber::PosInt(n)) => Some(*n),
            _ => None,
        }
    }

    /// The floating-point number, if this is a number.
    pub fn as_float(&self) -> (r: Option<Float>)
        ensures
            match r {
                Some(f) => self@.float_bits() == Some(f.bits()),
                None => self@.float_bits() is None,
            },
    {
        match self {
            Json::Number(n) => {
                let number = serde_number(*n);
                let bits = serde_as_float_bits(&number);
                proof {
                    match *n {
                        JsonNumber::PosInt(i) => float::lemma_nearest_unique(bits, i as int),
                        JsonNumber::NegInt(i) => float::lemma_nearest_unique(bits, i as int),
                        JsonNumber::Float(_) => {},
                    }
                }
                Float::from_bits(bits)
            },
            _ => None,
        }
    }

    /// The text of the field with a given key, if there is one and it is a string.
    pub fn string_field(&self, key: &str) -> (r: Option<&str>)
        ensures
            match r {
                Some(s) => self@.string_field(key@) == Some(s@),
                None => self@.string_field(key@) is None,
            },
    {
        match self.get(key) {
            Some(v) => v.as_str(),
            None => None,
        }
    }

    /// The integer of the field with a given key, if there is one and it is an integer that is
    /// not negative.
    pub fn unsigned_field(&self, key: &str) -> (r: Option<u64>)
        ensures
            r == self@.unsigned_field(key@),
    {
        match self.get(key) {
            Some(v) => v.as_u64(),
            None => None,
        }
    }

    /// The floating-point number of the field with a given key, if there is one and it is a
    /// number.
    pub fn float_field(&self, key: &str) -> (r: Option<Float>)
        ensures
            match r {
                Some(f) => self@.float_field(key@) == Some(f.bits()),
                None => self@.float_field(key@) is None,
            },
    {
        match self.get(key) {
            Some(v) => v.as_float(),
            None => None,
        }
    }
}

/// The character stands for itself inside a JSON string.
pub open spec fn is_plain(c: char) -> bool {
    c as u32 >= 32 && c != '"' && c != '\\'
}

/// A text of characters that stand for themselves is quoted as it is.
pub proof fn lemma_plain_quoted(s: Seq<char>)
    requires
        forall|i: int| 0 <= i < s.len() ==> is_plain(#[trigger] s[i]),
    ensures
        escaped_text(s) == s,
        quoted(s) == seq!['"'] + s + seq!['"'],
    decreases s.len(),
{
    if s.len() > 0 {
        assert(is_plain(s[0]));
        assert forall|i: int| 0 <= i < s.drop_first().len() implies is_plain(
            #[trigger] s.drop_first()[i],
        ) by {
            assert(is_plain(s[i + 1]));
        }
        lemma_plain_quoted(s.drop_first());
        assert(escaped_text(s) =~= s);
    } else {
        assert(escaped_text(s) =~= s);
    }
}

/// The text of an object up to its first `k` fields.
pub open spec fn opened(fields: Seq<(Seq<char>, JsonModel)>, k: int) -> Seq<char> {
    "{"@ + entries_text(fields.take(k))
}

/// The text of an object up to its first field, given what stands in front of the field's value.
pub proof fn lemma_opened_first(fields: Seq<(Seq<char>, JsonModel)>, label: Seq<char>)
    requires
        fields.len() > 0,
        label == "{"@ + quoted(fields[0].0) + ":"@,
    ensures
        opened(fields, 1) == label + json_text(fields[0].1),
{
    let value = json_text(fields[0].1);
    assert(entries_text(fields.take(1)) == quoted(fields[0].0) + ":"@ + value);
    assert("{"@ + (quoted(fields[0].0) + ":"@ + value) =~= "{"@ + quoted(fields[0].0) + ":"@
        + value);
}

/// The text of an object up to one more field, given what stands in front of the field's value.
pub proof fn lemma_opened_next(fields: Seq<(Seq<char>, JsonModel)>, k: int, label: Seq<char>)
    requires
        0 < k < fields.len(),
        label == ","@ + quoted(fields[k].0) + ":"@,
    ensures
        opened(fields, k + 1) == opened(fields, k) + label + json_text(fields[k].1),
{
    let before = fields.take(k);
    let after = fields.take(k + 1);
    let value = json_text(fields[k].1);
    assert(after.subrange(0, after.len() - 1) =~= before);
    assert(entries_text(after) == entries_text(before) + ","@ + quoted(fields[k].0) + ":"@ + value);
    assert("{"@ + (entries_text(before) + ","@ + quoted(fields[k].0) + ":"@ + value) =~= ("{"@
        + entries_text(before)) + (","@ + quoted(fields[k].0) + ":"@) + value);
}

/// The text of an object is that up to all its fields, closed.
pub proof fn lemma_object_closed(fields: Seq<(Seq<char>, JsonModel)>)
    ensures
        json_text(JsonModel::Object(fields)) == opened(fields, fields.len() as int) + "}"@,
{
    assert(fields.take(fields.len() as int) =~= fields);
}

/// A character is determined by a text that its escaped form starts.
proof fn lemma_escaped_prefix(a: char, s: Seq<char>, b: char, t: Seq<char>)
    requires
        escaped(a) + s == escaped(b) + t,
    ensures
        a == b,
        s == t,
{
    let x = escaped(a) + s;
    let y = escaped(b) + t;
    assert(x[0] == escaped(a)[0]);
    assert(y[0] == escaped(b)[0]);
    if escaped(a).len() > 1 || escaped(b).len() > 1 {
        assert(x[0] == y[0]);
        assert(escaped(a).len() > 1 && escaped(b).len() > 1);
        assert(x[1] == escaped(a)[1]);
        assert(y[1] == escaped(b)[1]);
        if escaped(a).len() == 6 {
            assert(escaped(b).len() == 6);
            assert(x[4] == escaped(a)[4] && y[4] == escaped(b)[4]);
            assert(x[5] == escaped(a)[5] && y[5] == escaped(b)[5]);
            assert(a as nat / 16 == b as nat / 16);
            assert(a as nat % 16 == b as nat % 16);
            assert(a as nat == b as nat);
        }
        assert(a as u32 == b as u32);
    }
    assert(a == b);
    text::lemma_same_start(escaped(a), s, t);
}

proof fn lemma_escaped_text_prefix(a: Seq<char>, s: Seq<char>, b: Seq<char>, t: Seq<char>)
    requires
        escaped_text(a) + (seq!['"'] + s) == escaped_text(b) + (seq!['"'] + t),
    ensures
        a == b,
        s == t,
    decreases a.len(),
{
    let x = escaped_text(a) + (seq!['"'] + s);
    let y = escaped_text(b) + (seq!['"'] + t);
    if a.len() == 0 && b.len() == 0 {
        assert(a =~= b);
        assert(x =~= seq!['"'] + s);
        assert(y =~= seq!['"'] + t);
        text::lemma_same_start(seq!['"'], s, t);
    } else if a.len() == 0 {
        assert(x[0] == '"');
        assert(y[0] == escaped(b[0])[0]);
    } else if b.len() == 0 {
        assert(y[0] == '"');
        assert(x[0] == escaped(a[0])[0]);
    } else {
        let u = escaped_text(a.drop_first()) + (seq!['"'] + s);
        let v = escaped_text(b.drop_first()) + (seq!['"'] + t);
        assert(x =~= escaped(a[0]) + u);
        assert(y =~= escaped(b[0]) + v);
        lemma_escaped_prefix(a[0], u, b[0], v);
        lemma_escaped_text_prefix(a.drop_first(), s, b.drop_first(), t);
        assert(a =~= seq![a[0]] + a.drop_first());
        assert(b =~= seq![b[0]] + b.drop_first());
    }
}

/// A text is determined by a longer one that its JSON string starts.
pub proof fn lemma_quoted_prefix(a: Seq<char>, s: Seq<char>, b: Seq<char>, t: Seq<char>)
    requires
        quoted(a) + s == quoted(b) + t,
    ensures
        a == b,
        s == t,
{
    let u = escaped_text(a) + (seq!['"'] + s);
    let v = escaped_text(b) + (seq!['"'] + t);
    assert(quoted(a) + s =~= seq!['"'] + u);
    assert(quoted(b) + t =~= seq!['"'] + v);
    text::lemma_same_start(seq!['"'], u, v);
    lemma_escaped_text_prefix(a, s, b, t);
}

/// Appends the JSON string that stands for a text.
pub fn push_quoted(out: &mut String, s: &str)
    ensures
        final(out)@ == old(out)@ + quoted(s@),
{
    let q = serde_quote(s);
    out.append(q.as_str());
}

/// The text of the floating-point number with the given bits is made of digits, signs, a point
/// and the letter `e`.
pub open spec fn has_numeral(bits: u64) -> bool {
    forall|i: int|
        0 <= i < float_text(bits).len() ==> is_numeral(#[trigger] float_text(bits)[i])
}

/// Appends the text of a floating-point number.
pub fn push_float(out: &mut String, f: &Float)
    ensures
        final(out)@ == old(out)@ + float_text(f.bits()),
        has_numeral(f.bits()),
{
    let t = serde_float_text(f.to_bits());
    out.append(t.as_str());
}

/// Appends the text of a number.
fn push_number(out: &mut String, n: JsonNumber)
    ensures
        final(out)@ == old(out)@ + number_text(n),
{
    match n {
        JsonNumber::PosInt(i) => push_decimal(out, i),
        JsonNumber::NegInt(i) => {
            if i < 0 {
                out.push('-');
                let magnitude: u64 = (-(i + 1)) as u64 + 1;
                push_decimal(out, magnitude);
                assert(out@ =~= old(out)@ + number_text(n));
            } else {
                push_decimal(out, i as u64);
            }
        },
        JsonNumber::Float(f) => push_float(out, &f),
    }
}

/// The positions of an object's entries in the order of their keys, without those that do not
/// count.
fn key_order(entries: &Vec<(String, Json)>) -> (r: Vec<usize>)
    ensures
        r@.len() == entries::ordered(entries_model(entries@)).len(),
        forall|i: int|
            0 <= i < r@.len() ==> (#[trigger] r@[i]) < entries@.len() && entries::ordered(
                entries_model(entries@),
            )[i] == (entries@[r@[i] as int].0@, entries@[r@[i] as int].1@),
{
    let ghost model = entries_model(entries@);
    proof {
        lemma_entries_model(entries@);
        assert(model.take(0) =~= Seq::empty());
    }
    let mut order: Vec<usize> = Vec::new();
    let mut k: usize = 0;
    while k < entries.len()
        invariant
            k <= entries@.len(),
            model.len() == entries@.len(),
            forall|i: int|
                0 <= i < entries@.len() ==> #[trigger] model[i] == (
                    entries@[i].0@,
                    entries@[i].1@,
                ),
            order@.len() == entries::ordered(model.take(k as int)).len(),
            forall|i: int|
                0 <= i < order@.len() ==> (#[trigger] order@[i]) < k && entries::ordered(
                    model.take(k as int),
                )[i] == model[order@[i] as int],
        decreases entries@.len() - k,
    {
        let ghost held = entries::ordered(model.take(k as int));
        let key = entries[k].0.as_str();
        let mut i: usize = 0;
        while i < order.len() && comes_before(entries[order[i]].0.as_str(), key)
            invariant
                i <= order@.len(),
                k < entries@.len(),
                key@ == entries@[k as int].0@,
                model.len() == entries@.len(),
                forall|j: int|
                    0 <= j < entries@.len() ==> #[trigger] model[j] == (
                        entries@[j].0@,
                        entries@[j].1@,
                    ),
                order@.len() == held.len(),
                forall|j: int|
                    0 <= j < order@.len() ==> (#[trigger] order@[j]) < k && held[j]
                        == model[order@[j] as int],
                forall|j: int| 0 <= j < i ==> entries::text_before((#[trigger] held[j]).0, key@),
            decreases order@.len() - i,
        {
            assert(held[i as int] == model[order@[i as int] as int]);
            i = i + 1;
        }
        let ghost before = order@;
        proof {
            if i < order@.len() {
                assert(held[i as int] == model[order@[i as int] as int]);
            }
            entries::lemma_placed(held, i as int, key@, model[k as int].1);
            let t = model.take(k + 1);
            assert(t.drop_last() =~= model.take(k as int));
            assert(t.last() == model[k as int]);
        }
        if i < order.len() && same_text(entries[order[i]].0.as_str(), key) {
            order.set(i, k);
            assert(order@ =~= before.update(i as int, k));
        } else {
            order.insert(i, k);
            assert(order@ =~= before.insert(i as int, k));
        }
        assert forall|j: int| 0 <= j < order@.len() implies (#[trigger] order@[j]) < k + 1
            && entries::ordered(model.take(k + 1))[j] == model[order@[j] as int] by {
            if j < i {
                assert(order@[j] == before[j]);
            } else if j > i {
                if order@.len() == before.len() {
                    assert(order@[j] == before[j]);
                } else {
                    assert(order@[j] == before[j - 1]);
                }
            }
        }
        k = k + 1;
    }
    assert(model.take(k as int) =~= model);
    order
}

/// Appends the compact text of a JSON value.
pub fn push_json(out: &mut String, json: &Json)
    ensures
        final(out)@ == old(out)@ + json_text(json@),
    decreases json,
{
    let ghost start = out@;
    match json {
        Json::Null => {
            out.append("null");
        },
        Json::Bool(b) => {
            if *b {
                out.append("true");
            } else {
                out.append("false");
            }
        },
        Json::Number(n) => push_number(out, *n),
        Json::Text(s) => push_quoted(out, s.as_str()),
        Json::List(items) => {
            out.append("[");
            let ghost model = list_model(items@);
            let ghost head = out@;
            let mut k: usize = 0;
            proof {
                lemma_list_model(items@);
                assert(out@ =~= head + list_text(model.subrange(0, 0)));
            }
            while k < items.len()
                invariant
                    k <= items@.len(),
                    decreases_to!(json => items@),
                    model.len() == items@.len(),
                    forall|i: int| 0 <= i < items@.len() ==> #[trigger] model[i] == items@[i]@,
                    out@ == head + list_text(model.subrange(0, k as int)),
                decreases items@.len() - k,
            {
                if k > 0 {
                    out.append(",");
                }
                assert(decreases_to!(json => items@[k as int]));
                push_json(out, &items[k]);
                proof {
                    let t = model.subrange(0, k + 1);
                    assert(t.subrange(0, t.len() - 1) =~= model.subrange(0, k as int));
                    assert(t[t.len() - 1] == items@[k as int]@);
                    assert(out@ =~= head + list_text(t));
                }
                k = k + 1;
            }
            assert(model.subrange(0, k as int) =~= model);
            out.append("]");
            assert(out@ =~= start + json_text(json@));
        },
        Json::Object(entries) => {
            out.append("{");
            let order = key_order(entries);
            let ghost model = entries::ordered(entries_model(entries@));
            let ghost head = out@;
            let mut k: usize = 0;
            assert(out@ =~= head + entries_text(model.subrange(0, 0)));
            while k < order.len()
                invariant
                    k <= order@.len(),
                    decreases_to!(json => entries@),
                    model.len() == order@.len(),
                    forall|i: int|
                        0 <= i < order@.len() ==> (#[trigger] order@[i]) < entries@.len()
                            && model[i] == (
                            entries@[order@[i] as int].0@,
                            entries@[order@[i] as int].1@,
                        ),
                    out@ == head + entries_text(model.subrange(0, k as int)),
                decreases order@.len() - k,
            {
                let p = order[k];
                if k > 0 {
                    out.append(",");
                }
                push_quoted(out, entries[p].0.as_str());
                out.append(":");
                assert(decreases_to!(json => entries@[p as int].1));
                push_json(out, &entries[p].1);
                proof {
                    let t = model.subrange(0, k + 1);
                    assert(t.subrange(0, t.len() - 1) =~= model.subrange(0, k as int));
                    assert(t[t.len() - 1] == (entries@[p as int].0@, entries@[p as int].1@));
                    assert(out@ =~= head + entries_text(t));
                }
                k = k + 1;
            }
            assert(model.subrange(0, k as int) =~= model);
            out.append("}");
            assert(out@ =~= start + json_text(json@));
        },
    }
}

impl Json {
    /// The compact text.
    pub fn to_text(&self) -> (r: String)
        ensures
            r@ == json_text(self@),
    {
        let mut r = String::new();
        push_json(&mut r, self);
        assert(r@ =~= json_text(self@));
        r
    }
}

impl Clone for Json {
    fn clone(&self) -> (r: Json)
        ensures
            r@ == self@,
        decreases self,
    {
        match self {
            Json::Null => Json::Null,
            Json::Bool(b) => Json::Bool(*b),
            Json::Number(n) => Json::Number(*n),
            Json::Text(s) => Json::Text(s.clone()),
            Json::List(items) => {
                let mut copy: Vec<Json> = Vec::new();
                let mut k: usize = 0;
                while k < items.len()
                    invariant
                        k <= items@.len(),
                        copy@.len() == k,
                        decreases_to!(self => items@),
                        forall|i: int| 0 <= i < k ==> (#[trigger] copy@[i])@ == items@[i]@,
                    decreases items@.len() - k,
                {
                    assert(decreases_to!(self => items@[k as int]));
                    copy.push(items[k].clone());
                    k = k + 1;
                }
                proof {
                    lemma_list_model(items@);
                    lemma_list_model(copy@);
                    assert(list_model(copy@) =~= list_model(items@));
                }
                Json::List(copy)
            },
            Json::Object(entries) => {
                let mut copy: Vec<(String, Json)> = Vec::new();
                let mut k: usize = 0;
                while k < entries.len()
                    invariant
                        k <= entries@.len(),
                        copy@.len() == k,
                        decreases_to!(self => entries@),
                        forall|i: int|
                            0 <= i < k ==> (#[trigger] copy@[i]).0@ == entries@[i].0@
                                && copy@[i].1@ == entries@[i].1@,
                    decreases entries@.len() - k,
                {
                    assert(decreases_to!(self => entries@[k as int].1));
                    copy.push((entries[k].0.clone(), entries[k].1.clone()));
                    k = k + 1;
                }
                proof {
                    lemma_entries_model(entries@);
                    lemma_entries_model(copy@);
                    assert(entries_model(copy@) =~= entries_model(entries@));
                }
                Json::Object(copy)
            },
        }
    }
}

/// The texts of arrays: that of one item is the item's, and those of items in a row have a comma
/// between them.
pub proof fn law_array_text(item: JsonModel, a: Seq<JsonModel>, b: Seq<JsonModel>)
    ensures
        list_text(seq![item]) == json_text(item),
        a.len() > 0 && b.len() > 0 ==> list_text(a + b) == list_text(a) + ","@ + list_text(b),
        json_text(JsonModel::List(a)) == "["@ + list_text(a) + "]"@,
    decreases b.len(),
{
    if a.len() > 0 && b.len() > 0 {
        let whole = a + b;
        let r = b.subrange(0, b.len() - 1);
        assert(whole.subrange(0, whole.len() - 1) =~= a + r);
        if b.len() == 1 {
            assert(a + r =~= a);
        } else {
            law_array_text(item, a, r);
            assert(list_text(a) + ","@ + list_text(r) + ","@ + json_text(b.last()) =~= list_text(a)
                + ","@ + (list_text(r) + ","@ + json_text(b.last())));
        }
    }
}

/// The texts of objects: that of one entry is the key in quotes, a colon and the value's, and those
/// of entries in a row have a comma between them.
pub proof fn law_object_text(
    key: Seq<char>,
    value: JsonModel,
    a: Seq<(Seq<char>, JsonModel)>,
    b: Seq<(Seq<char>, JsonModel)>,
)
    ensures
        entries_text(seq![(key, value)]) == quoted(key) + ":"@ + json_text(value),
        a.len() > 0 && b.len() > 0 ==> entries_text(a + b) == entries_text(a) + ","@
            + entries_text(b),
        json_text(JsonModel::Object(a)) == "{"@ + entries_text(a) + "}"@,
    decreases b.len(),
{
    if a.len() > 0 && b.len() > 0 {
        let whole = a + b;
        let r = b.subrange(0, b.len() - 1);
        let last = b[b.len() - 1];
        assert(whole.subrange(0, whole.len() - 1) =~= a + r);
        assert(whole[whole.len() - 1] == last);
        let tail = quoted(last.0) + ":"@ + json_text(last.1);
        if b.len() == 1 {
            assert(a + r =~= a);
            assert(entries_text(a) + ","@ + quoted(last.0) + ":"@ + json_text(last.1)
                =~= entries_text(a) + ","@ + tail);
        } else {
            law_object_text(key, value, a, r);
            assert(entries_text(a) + ","@ + entries_text(r) + ","@ + quoted(last.0) + ":"@
                + json_text(last.1) =~= entries_text(a) + ","@ + (entries_text(r) + ","@ + quoted(
                last.0,
            ) + ":"@ + json_text(last.1)));
        }
    }
}

/// The texts of the JSON values that hold no others.
pub proof fn law_value_texts(b: bool, n: u64, i: i64, f: Float, s: Seq<char>)
    ensures
        json_text(JsonModel::Null) == "null"@,
        json_text(JsonModel::Bool(b)) == (if b {
            "true"@
        } else {
            "false"@
        }),
        json_text(JsonModel::Number(JsonNumber::PosInt(n))) == text::decimal(n as nat),
        i < 0 ==> json_text(JsonModel::Number(JsonNumber::NegInt(i))) == seq!['-'] + text::decimal(
            (-i) as nat,
        ),
        json_text(JsonModel::Number(JsonNumber::Float(f))) == float_text(f.bits()),
        json_text(JsonModel::Text(s)) == quoted(s),
{
}

/// The field of an object with a given key is the value of the last entry with that key, and there
/// is none if no entry has it.
pub proof fn law_fields(json: Json, entries: Vec<(String, Json)>, key: Seq<char>, i: int)
    requires
        json == Json::Object(entries),
    ensures
        0 <= i < entries@.len() && entries@[i].0@ == key && (forall|j: int|
            i < j < entries@.len() ==> (#[trigger] entries@[j]).0@ != key) ==> json@.field(key)
            == Some(entries@[i].1@),
        (forall|j: int| 0 <= j < entries@.len() ==> (#[trigger] entries@[j]).0@ != key)
            ==> json@.field(key) is None,
{
    let model = entries_model(entries@);
    lemma_entries_model(entries@);
    entries::law_entries_ordered(model, key);
    if 0 <= i < entries@.len() && entries@[i].0@ == key && (forall|j: int|
        i < j < entries@.len() ==> (#[trigger] entries@[j]).0@ != key) {
        assert(model[i] == (entries@[i].0@, entries@[i].1@));
        assert forall|j: int| i < j < model.len() implies (#[trigger] model[j]).0 != model[i].0 by {
            assert(entries@[j].0@ != key);
        }
        entries::lemma_last_value(model, i);
    }
    if forall|j: int| 0 <= j < entries@.len() ==> (#[trigger] entries@[j]).0@ != key {
        assert forall|j: int| 0 <= j < model.len() implies (#[trigger] model[j]).0 != key by {
            assert(entries@[j].0@ != key);
        }
        entries::lemma_no_value(model, key);
    }
}

/// What the typed fields of an object are: its text, its integer that is not negative, and the bits
/// of its floating-point number, which an integer gives by the nearest one.
pub proof fn law_typed_fields(json: JsonModel, key: Seq<char>)
    ensures
        json.string_field(key) == (match json.field(key) {
            Some(JsonModel::Text(s)) => Some(s),
            _ => None,
        }),
        json.unsigned_field(key) == (match json.field(key) {
            Some(JsonModel::Number(JsonNumber::PosInt(n))) => Some(n),
            _ => None,
        }),
        json.float_field(key) == (match json.field(key) {
            Some(JsonModel::Number(JsonNumber::Float(f))) => Some(f.bits()),
            Some(JsonModel::Number(JsonNumber::PosInt(n))) => Some(float::nearest(n as int)),
            Some(JsonModel::Number(JsonNumber::NegInt(n))) => Some(float::nearest(n as int)),
            _ => None,
        }),
{
}

} // verus!
