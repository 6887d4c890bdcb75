//! JSON values: reading them, writing them compactly, and turning them into cells.

use vstd::prelude::*;
use vstd::string::*;

use crate::table::{CellModel, CellValue};
use crate::text::{self, concat2, decimal_of};

verus! {

/// A JSON value. A number that is no 64-bit integer is kept as its numeral.
#[derive(Debug, PartialEq, Eq)]
pub enum JsonValue {
    Null,
    Bool(bool),
    Integer(i64),
    Decimal(String),
    Text(String),
    Array(Vec<JsonValue>),
    Object(Vec<(String, JsonValue)>),
}

/// The model of a JSON value.
pub enum Json {
    Null,
    Bool(bool),
    Integer(i64),
    Decimal(Seq<char>),
    Text(Seq<char>),
    Array(Seq<Json>),
    Object(Seq<(Seq<char>, Json)>),
}

impl JsonValue {
    /// The model of the value.
    pub open spec fn model(self) -> Json
        decreases self,
    {
        match self {
            JsonValue::Null => Json::Null,
            JsonValue::Bool(b) => Json::Bool(b),
            JsonValue::Integer(n) => Json::Integer(n),
            JsonValue::Decimal(s) => Json::Decimal(s@),
            JsonValue::Text(s) => Json::Text(s@),
            JsonValue::Array(items) => Json::Array(
                Seq::new(
                    items@.len(),
                    |i: int|
                        if 0 <= i < items@.len() {
                            items@[i].model()
                        } else {
                            Json::Null
                        },
                ),
            ),
            JsonValue::Object(members) => Json::Object(
                Seq::new(
                    members@.len(),
                    |i: int|
                        if 0 <= i < members@.len() {
                            (members@[i].0@, members@[i].1.model())
                        } else {
                            (Seq::empty(), Json::Null)
                        },
                ),
            ),
        }
    }
}

impl View for JsonValue {
    type V = Json;

    open spec fn view(&self) -> Json {
        self.model()
    }
}

/// The models of a list of values.
pub open spec fn json_views(v: Seq<JsonValue>) -> Seq<Json> {
    Seq::new(v.len(), |i: int| v[i]@)
}

/// The models of the members of an object.
pub open spec fn member_views(v: Seq<(String, JsonValue)>) -> Seq<(Seq<char>, Json)> {
    Seq::new(v.len(), |i: int| (v[i].0@, v[i].1@))
}

/// The model of an array is made of the models of its items.
pub proof fn lemma_array_model(items: Vec<JsonValue>)
    ensures
        JsonValue::Array(items)@ == Json::Array(json_views(items@)),
{
    let m = JsonValue::Array(items)@->Array_0;
    assert(m =~= json_views(items@));
}

/// The model of an object is made of the models of its members.
pub proof fn lemma_object_model(members: Vec<(String, JsonValue)>)
    ensures
        JsonValue::Object(members)@ == Json::Object(member_views(members@)),
{
    let m = JsonValue::Object(members)@->Object_0;
    assert(m =~= member_views(members@));
}

fn copy_json(value: &JsonValue) -> (r: JsonValue)
    ensures
        r@ == value@,
    decreases value,
{
    match value {
        JsonValue::Null => JsonValue::Null,
        JsonValue::Bool(b) => JsonValue::Bool(*b),
        JsonValue::Integer(n) => JsonValue::Integer(*n),
        JsonValue::Decimal(s) => JsonValue::Decimal(s.clone()),
        JsonValue::Text(s) => JsonValue::Text(s.clone()),
        JsonValue::Array(items) => {
            let mut copied: Vec<JsonValue> = Vec::new();
            let mut i: usize = 0;
            while i < items.len()
                invariant
                    i <= items@.len(),
                    copied@.len() == i,
                    forall|k: int| 0 <= k < i ==> (#[trigger] copied@[k])@ == items@[k]@,
                    decreases_to!(value => items),
                decreases items@.len() - i,
            {
                assert(decreases_to!(items => items@[i as int]));
                copied.push(copy_json(&items[i]));
                i = i + 1;
            }
            proof {
                lemma_array_model(*items);
                lemma_array_model(copied);
                assert(json_views(copied@) =~= json_views(items@));
            }
            JsonValue::Array(copied)
        },
        JsonValue::Object(members) => {
            let mut copied: Vec<(String, JsonValue)> = Vec::new();
            let mut i: usize = 0;
            while i < members.len()
                invariant
                    i <= members@.len(),
                    copied@.len() == i,
                    forall|k: int|
                        0 <= k < i ==> (#[trigger] copied@[k]).0@ == members@[k].0@
                            && copied@[k].1@ == members@[k].1@,
                    decreases_to!(value => members),
                decreases members@.len() - i,
            {
                assert(decreases_to!(members => members@[i as int].1));
                copied.push((members[i].0.clone(), copy_json(&members[i].1)));
                i = i + 1;
            }
            proof {
                lemma_object_model(*members);
                lemma_object_model(copied);
                assert(member_views(copied@) =~= member_views(members@));
            }
            JsonValue::Object(copied)
        },
    }
}

impl Clone for JsonValue {
    fn clone(&self) -> (r: Self)
        ensures
            r@ == self@,
    {
        copy_json(self)
    }
}

/// Why a JSON text could not be read; `eof` says that it only broke off.
#[derive(Debug, Clone, PartialEq, Eq)]
pub struct JsonFault {
    pub message: String,
    pub eof: bool,
}

/// The model of a JSON fault.
pub struct FaultModel {
    pub message: Seq<char>,
    pub eof: bool,
}

impl View for JsonFault {
    type V = FaultModel;

    open spec fn view(&self) -> FaultModel {
        FaultModel { message: self.message@, eof: self.eof }
    }
}

// ---------------------------------------------------------------------------
// Reading
// ---------------------------------------------------------------------------

/// A JSON value as `serde_json` holds it.
#[verifier::external_type_specification]
#[verifier::external_body]
pub struct ExSerdeValue(serde_json::Value);

/// What a value of `serde_json` holds.
pub uninterp spec fn json_held(value: serde_json::Value) -> Json;

/// What `serde_json::from_slice` reads from bytes that are one JSON text.
pub uninterp spec fn json_read(bytes: Seq<u8>) -> Result<Json, FaultModel>;

/// What the first JSON text in the bytes is, as `serde_json` reads it, whatever
/// follows it.
pub uninterp spec fn json_first(bytes: Seq<u8>) -> Result<Json, FaultModel>;

/// The JSON texts that follow each other in the bytes, as `serde_json` reads
/// them, each with the position behind it, and the fault that ends them.
pub uninterp spec fn json_stream(bytes: Seq<u8>) -> (Seq<(Json, usize)>, Option<FaultModel>);

/// What a stream of `serde_json` gives first on the bytes: a value, a fault or
/// nothing, and the position at which it stands afterwards.
pub uninterp spec fn json_next(bytes: Seq<u8>) -> (Option<Result<Json, FaultModel>>, usize);

/// What a stream of `serde_json` that keeps no values gives first on the bytes: that
/// a value was passed over, a fault or nothing, and the position at which it stands
/// afterwards.
pub uninterp spec fn json_passed(bytes: Seq<u8>) -> (Option<Result<(), FaultModel>>, usize);

/// The string that `serde_json::from_slice` reads from the bytes of a JSON string.
pub uninterp spec fn json_string_read(bytes: Seq<u8>) -> Result<Seq<char>, FaultModel>;

/// The JSON string that `serde_json::to_string` writes for a text.
pub uninterp spec fn json_quoted(text: Seq<char>) -> Seq<char>;

/// The value in a result of `serde_json`.
pub open spec fn held_result(r: Result<serde_json::Value, JsonFault>) -> Result<Json, FaultModel> {
    match r {
        Ok(v) => Ok(json_held(v)),
        Err(e) => Err(e@),
    }
}

/// The values that a stream of `serde_json` gave.
pub open spec fn held_stream(v: Seq<(serde_json::Value, usize)>) -> Seq<(Json, usize)> {
    Seq::new(v.len(), |i: int| (json_held(v[i].0), v[i].1))
}

/// Turns a value of `serde_json::Value` into the library's own, variant by
/// variant: an integer of 64 bits by `Number::as_i64`, any other number by the
/// numeral that `Number` shows, and members in the order that the map holds.
#[verifier::external_body]
fn own_value(value: serde_json::Value) -> (r: JsonValue)
    ensures
        r@ == json_held(value),
{
    match value {
        serde_json::Value::Null => JsonValue::Null,
        serde_json::Value::Bool(b) => JsonValue::Bool(b),
        serde_json::Value::Number(n) => n.as_i64().map(JsonValue::Integer).unwrap_or_else(
            || JsonValue::Decimal(n.to_string()),
        ),
        serde_json::Value::String(s) => JsonValue::Text(s),
        serde_json::Value::Array(a) => JsonValue::Array(a.into_iter().map(own_value).collect()),
        serde_json::Value::Object(o) => JsonValue::Object(
            o.into_iter().map(|(key, member)| (key, own_value(member))).collect(),
        ),
    }
}

/// `serde_json::from_slice` into a `serde_json::Value`: the value of bytes that
/// are one JSON text, or the text of the error and whether it is an end of input.
/// Which bytes are a JSON text is left to that function.
#[verifier::external_body]
fn read_document(bytes: &[u8]) -> (r: Result<serde_json::Value, JsonFault>)
    ensures
        held_result(r) == json_read(bytes@),
{
    serde_json::from_slice::<serde_json::Value>(bytes).map_err(
        |e| JsonFault { message: e.to_string(), eof: e.is_eof() },
    )
}

/// `serde_json::Value::deserialize` from a `serde_json::Deserializer` on the
/// bytes: the value of the first JSON text in them, whatever follows it.
#[verifier::external_body]
fn read_first(bytes: &[u8]) -> (r: Result<serde_json::Value, JsonFault>)
    ensures
        held_result(r) == json_first(bytes@),
{
    let mut deserializer = serde_json::Deserializer::from_slice(bytes);
    <serde_json::Value as serde::Deserialize>::deserialize(&mut deserializer).map_err(
        |e| JsonFault { message: e.to_string(), eof: e.is_eof() },
    )
}

/// `serde_json::Deserializer::into_iter` on the bytes: the values of the JSON
/// texts that follow each other, each with `StreamDeserializer::byte_offset`
/// behind it, up to the end of the bytes or to the first error.
#[verifier::external_body]
fn read_stream(bytes: &[u8]) -> (r: (Vec<(serde_json::Value, usize)>, Option<JsonFault>))
    ensures
        held_stream(r.0@) == json_stream(bytes@).0,
        match (r.1, json_stream(bytes@).1) {
            (Some(e), Some(m)) => e@ == m,
            (None, None) => true,
            _ => false,
        },
        forall|i: int| 0 <= i < r.0@.len() ==> (#[trigger] r.0@[i]).1 <= bytes@.len(),
{
    let mut stream = serde_json::Deserializer::from_slice(bytes).into_iter::<serde_json::Value>();
    let mut documents = Vec::new();
    while let Some(document) = stream.next() {
        match document {
            Ok(value) => documents.push((value, stream.byte_offset())),
            Err(e) => {
                return (documents, Some(JsonFault { message: e.to_string(), eof: e.is_eof() }));
            },
        }
    }
    (documents, None)
}

/// The first call of `next` on `serde_json::Deserializer::into_iter` on the
/// bytes: the value of the first JSON text, an error, or nothing where only white
/// space is left; and `StreamDeserializer::byte_offset` after it, which is within
/// the bytes and, after a value, not at their start.
#[verifier::external_body]
fn read_next(bytes: &[u8]) -> (r: (Option<Result<serde_json::Value, JsonFault>>, usize))
    ensures
        match (r.0, json_next(bytes@).0) {
            (Some(found), Some(m)) => held_result(found) == m,
            (None, None) => true,
            _ => false,
        },
        r.1 == json_next(bytes@).1,
        r.1 <= bytes@.len(),
        r.0 matches Some(Ok(_)) ==> r.1 > 0,
{
    let mut stream = serde_json::Deserializer::from_slice(bytes).into_iter::<serde_json::Value>();
    let found = stream.next();
    (
        found.map(
            |r| r.map_err(|e| JsonFault { message: e.to_string(), eof: e.is_eof() }),
        ),
        stream.byte_offset(),
    )
}

/// The model of a result without a value.
pub open spec fn passed_view(r: Option<Result<(), JsonFault>>) -> Option<Result<(), FaultModel>> {
    match r {
        Some(Ok(_)) => Some(Ok(())),
        Some(Err(e)) => Some(Err(e@)),
        None => None,
    }
}

/// The first call of `next` on `serde_json::Deserializer::into_iter` on the bytes,
/// into `serde::de::IgnoredAny`: whether a JSON text was passed over, an error, or
/// nothing where only white space is left; and `StreamDeserializer::byte_offset`
/// after it, which is within the bytes and, after a value, not at their start.
/// Strings and numbers that cannot be held as values are passed over too; which
/// bytes are passed over is left to that function.
#[verifier::external_body]
pub(crate) fn pass_json(bytes: &[u8]) -> (r: (Option<Result<(), JsonFault>>, usize))
    ensures
        passed_view(r.0) == json_passed(bytes@).0,
        r.1 == json_passed(bytes@).1,
        r.1 <= bytes@.len(),
        r.0 matches Some(Ok(_)) ==> r.1 > 0,
{
    let mut stream = serde_json::Deserializer::from_slice(bytes).into_iter::<serde::de::IgnoredAny>();
    let found = stream.next();
    (
        found.map(
            |r| r.map(|_| ()).map_err(|e| JsonFault { message: e.to_string(), eof: e.is_eof() }),
        ),
        stream.byte_offset(),
    )
}

/// `serde_json::from_slice` into a `String`: the text of a JSON string.
#[verifier::external_body]
pub(crate) fn read_json_text(bytes: &[u8]) -> (r: Result<String, JsonFault>)
    ensures
        match (r, json_string_read(bytes@)) {
            (Ok(s), Ok(m)) => s@ == m,
            (Err(e), Err(m)) => e@ == m,
            _ => false,
        },
{
    serde_json::from_slice::<String>(bytes).map_err(
        |e| JsonFault { message: e.to_string(), eof: e.is_eof() },
    )
}

/// `serde_json::to_string` on a text, which cannot fail for one: a JSON string,
/// in which the control characters of ASCII up to U+001F are escaped. Which other
/// characters it escapes is left to that function.
#[verifier::external_body]
pub(crate) fn quote_json(text: &str) -> (r: String)
    ensures
        r@ == json_quoted(text@),
        forall|i: int| 0 <= i < r@.len() ==> #[trigger] r@[i] as u32 >= 0x20,
{
    serde_json::to_string(text).unwrap_or_default()
}

/// The model of a parse result.
pub open spec fn json_result(r: Result<JsonValue, JsonFault>) -> Result<Json, FaultModel> {
    match r {
        Ok(v) => Ok(v@),
        Err(e) => Err(e@),
    }
}

/// Reads bytes that are one JSON text.
pub fn parse_json(bytes: &[u8]) -> (r: Result<JsonValue, JsonFault>)
    ensures
        json_result(r) == json_read(bytes@),
{
    match read_document(bytes) {
        Ok(value) => Ok(own_value(value)),
        Err(e) => Err(e),
    }
}

/// Reads the first JSON text in the bytes, whatever follows it.
pub fn parse_first_json(bytes: &[u8]) -> (r: Result<JsonValue, JsonFault>)
    ensures
        json_result(r) == json_first(bytes@),
{
    match read_first(bytes) {
        Ok(value) => Ok(own_value(value)),
        Err(e) => Err(e),
    }
}

/// What a stream of documents gives first.
pub open spec fn next_result(r: Option<Result<JsonValue, JsonFault>>) -> Option<
    Result<Json, FaultModel>,
> {
    match r {
        Some(found) => Some(json_result(found)),
        None => None,
    }
}

/// Reads the next JSON text in the bytes, and says where it ends.
pub fn parse_next_json(bytes: &[u8]) -> (r: (Option<Result<JsonValue, JsonFault>>, usize))
    ensures
        next_result(r.0) == json_next(bytes@).0,
        r.1 == json_next(bytes@).1,
        r.1 <= bytes@.len(),
        r.0 matches Some(Ok(_)) ==> r.1 > 0,
{
    let (found, end) = read_next(bytes);
    match found {
        Some(Ok(value)) => (Some(Ok(own_value(value))), end),
        Some(Err(e)) => (Some(Err(e)), end),
        None => (None, end),
    }
}

/// The model of documents with the positions behind them.
pub open spec fn document_views(v: Seq<(JsonValue, usize)>) -> Seq<(Json, usize)> {
    Seq::new(v.len(), |i: int| (v[i].0@, v[i].1))
}

/// The model of an optional fault.
pub open spec fn fault_view(e: Option<JsonFault>) -> Option<FaultModel> {
    match e {
        Some(e) => Some(e@),
        None => None,
    }
}

/// Reads the JSON texts that follow each other in the bytes.
pub fn parse_json_stream(bytes: &[u8]) -> (r: (Vec<(JsonValue, usize)>, Option<JsonFault>))
    ensures
        document_views(r.0@) == json_stream(bytes@).0,
        fault_view(r.1) == json_stream(bytes@).1,
        forall|i: int| 0 <= i < r.0@.len() ==> (#[trigger] r.0@[i]).1 <= bytes@.len(),
{
    let (mut held, fault) = read_stream(bytes);
    let ghost all = held@;
    let mut back: Vec<(JsonValue, usize)> = Vec::new();
    while held.len() > 0
        invariant
            held@.len() <= all.len(),
            held@ == all.take(held@.len() as int),
            back@.len() == all.len() - held@.len(),
            forall|k: int|
                0 <= k < back@.len() ==> (#[trigger] back@[k]).0@ == json_held(
                    all[all.len() - 1 - k].0,
                ) && back@[k].1 == all[all.len() - 1 - k].1,
        decreases held@.len(),
    {
        let ghost n = held@.len();
        if let Some((value, end)) = held.pop() {
            assert(held@ =~= all.take(n - 1));
            assert(all[n - 1] == (value, end));
            back.push((own_value(value), end));
        }
    }
    let ghost reversed = back@;
    let mut out: Vec<(JsonValue, usize)> = Vec::new();
    while back.len() > 0
        invariant
            reversed.len() == all.len(),
            back@.len() <= reversed.len(),
            back@ == reversed.take(back@.len() as int),
            out@.len() == reversed.len() - back@.len(),
            forall|k: int|
                0 <= k < reversed.len() ==> (#[trigger] reversed[k]).0@ == json_held(
                    all[all.len() - 1 - k].0,
                ) && reversed[k].1 == all[all.len() - 1 - k].1,
            forall|k: int|
                0 <= k < out@.len() ==> (#[trigger] out@[k]).0@ == json_held(all[k].0) && out@[k].1
                    == all[k].1,
        decreases back@.len(),
    {
        let ghost n = back@.len();
        if let Some(document) = back.pop() {
            assert(back@ =~= reversed.take(n - 1));
            assert(reversed[n - 1] == document);
            out.push(document);
        }
    }
    proof {
        assert(document_views(out@) =~= held_stream(all));
        assert forall|i: int| 0 <= i < out@.len() implies (#[trigger] out@[i]).1 <= bytes@.len() by {
            assert(all[i].1 <= bytes@.len());
        }
    }
    (out, fault)
}

// ---------------------------------------------------------------------------
// Writing
// ---------------------------------------------------------------------------

/// An integer written in decimal.
pub open spec fn signed_decimal(n: int) -> Seq<char> {
    if n < 0 {
        "-"@ + text::decimal((-n) as nat)
    } else {
        text::decimal(n as nat)
    }
}

/// A value as compact JSON text, without white space between its parts.
pub open spec fn compact(value: Json) -> Seq<char>
    decreases value, 1int,
{
    match value {
        Json::Null => "null"@,
        Json::Bool(b) => if b {
            "true"@
        } else {
            "false"@
        },
        Json::Integer(n) => signed_decimal(n as int),
        Json::Decimal(s) => s,
        Json::Text(s) => json_quoted(s),
        Json::Array(items) => "["@ + compact_items(items, items.len() as int) + "]"@,
        Json::Object(members) => "{"@ + compact_members(members, members.len() as int) + "}"@,
    }
}

/// The first `n` items of an array as compact JSON text, with commas between them.
pub open spec fn compact_items(items: Seq<Json>, n: int) -> Seq<char>
    decreases items, n,
{
    if n <= 0 || n > items.len() {
        Seq::empty()
    } else if n == 1 {
        compact(items[0])
    } else {
        compact_items(items, n - 1) + ","@ + compact(items[n - 1])
    }
}

/// The first `n` members of an object as compact JSON text, with commas between them.
pub open spec fn compact_members(members: Seq<(Seq<char>, Json)>, n: int) -> Seq<char>
    decreases members, n,
{
    if n <= 0 || n > members.len() {
        Seq::empty()
    } else if n == 1 {
        json_quoted(members[0].0) + ":"@ + compact(members[0].1)
    } else {
        compact_members(members, n - 1) + ","@ + json_quoted(members[n - 1].0) + ":"@ + compact(
            members[n - 1].1,
        )
    }
}

/// An integer written in decimal.
pub fn signed_decimal_of(n: i64) -> (r: String)
    ensures
        r@ == signed_decimal(n as int),
{
    if n < 0 {
        let wide: i128 = -(n as i128);
        concat2("-", &decimal_of(wide as u64))
    } else {
        decimal_of(n as u64)
    }
}

/// A value as compact JSON text.
pub fn json_text(value: &JsonValue) -> (r: String)
    ensures
        r@ == compact(value@),
    decreases value,
{
    match value {
        JsonValue::Null => "null".to_owned(),
        JsonValue::Bool(b) => if *b {
            "true".to_owned()
        } else {
            "false".to_owned()
        },
        JsonValue::Integer(n) => signed_decimal_of(*n),
        JsonValue::Decimal(s) => s.as_str().to_owned(),
        JsonValue::Text(s) => quote_json(s),
        JsonValue::Array(items) => {
            proof {
                lemma_array_model(*items);
            }
            let ghost model = json_views(items@);
            let mut out = "[".to_owned();
            let ghost open = out@;
            let mut i: usize = 0;
            assert(open + compact_items(model, 0) =~= open);
            while i < items.len()
                invariant
                    i <= items@.len(),
                    model == json_views(items@),
                    out@ == open + compact_items(model, i as int),
                    decreases_to!(value => items),
                decreases items@.len() - i,
            {
                if i > 0 {
                    out.append(",");
                }
                proof {
                    assert(model[i as int] == items@[i as int]@);
                }
                assert(decreases_to!(items => items@[i as int]));
                out.append(&json_text(&items[i]));
                assert(out@ =~= open + compact_items(model, i + 1));
                i = i + 1;
            }
            out.append("]");
            out
        },
        JsonValue::Object(members) => {
            proof {
                lemma_object_model(*members);
            }
            let ghost model = member_views(members@);
            let mut out = "{".to_owned();
            let ghost open = out@;
            let mut i: usize = 0;
            assert(open + compact_members(model, 0) =~= open);
            while i < members.len()
                invariant
                    i <= members@.len(),
                    model == member_views(members@),
                    out@ == open + compact_members(model, i as int),
                    decreases_to!(value => members),
                decreases members@.len() - i,
            {
                if i > 0 {
                    out.append(",");
                }
                proof {
                    assert(model[i as int] == (members@[i as int].0@, members@[i as int].1@));
                }
                assert(decreases_to!(members => members@[i as int].1));
                out.append(&quote_json(&members[i].0));
                out.append(":");
                out.append(&json_text(&members[i].1));
                assert(out@ =~= open + compact_members(model, i + 1));
                i = i + 1;
            }
            out.append("}");
            out
        },
    }
}

// ---------------------------------------------------------------------------
// Cells
// ---------------------------------------------------------------------------

/// The cell of a value: containers are kept as JSON text.
pub open spec fn cell_of(value: Json) -> CellModel {
    match value {
        Json::Null => CellModel::Null,
        Json::Bool(b) => CellModel::Boolean(b),
        Json::Integer(n) => CellModel::Integer(n),
        Json::Decimal(s) => CellModel::Float(s),
        Json::Text(s) => CellModel::Text(s),
        Json::Array(_) => CellModel::Json(compact(value)),
        Json::Object(_) => CellModel::Json(compact(value)),
    }
}

/// The cell of a value.
pub fn cell_from_value(value: &JsonValue) -> (r: CellValue)
    ensures
        r@ == cell_of(value@),
{
    match value {
        JsonValue::Null => CellValue::Null,
        JsonValue::Bool(b) => CellValue::Boolean(*b),
        JsonValue::Integer(n) => CellValue::Integer(*n),
        JsonValue::Decimal(s) => CellValue::Float(s.as_str().to_owned()),
        JsonValue::Text(s) => CellValue::Text(s.as_str().to_owned()),
        JsonValue::Array(_) => CellValue::Json(json_text(value)),
        JsonValue::Object(_) => CellValue::Json(json_text(value)),
    }
}

/// The kinds of JSON values.
#[derive(Debug, Clone, Copy, PartialEq, Eq, Structural)]
pub enum JsonValueKind {
    Null,
    Boolean,
    Number,
    Text,
    Array,
    Object,
}

/// The kind of a value.
pub open spec fn kind_of(value: Json) -> JsonValueKind {
    match value {
        Json::Null => JsonValueKind::Null,
        Json::Bool(_) => JsonValueKind::Boolean,
        Json::Integer(_) => JsonValueKind::Number,
        Json::Decimal(_) => JsonValueKind::Number,
        Json::Text(_) => JsonValueKind::Text,
        Json::Array(_) => JsonValueKind::Array,
        Json::Object(_) => JsonValueKind::Object,
    }
}

/// The kind of a value.
pub fn json_value_kind(value: &JsonValue) -> (r: JsonValueKind)
    ensures
        r == kind_of(value@),
{
    match value {
        JsonValue::Null => JsonValueKind::Null,
        JsonValue::Bool(_) => JsonValueKind::Boolean,
        JsonValue::Integer(_) => JsonValueKind::Number,
        JsonValue::Decimal(_) => JsonValueKind::Number,
        JsonValue::Text(_) => JsonValueKind::Text,
        JsonValue::Array(_) => JsonValueKind::Array,
        JsonValue::Object(_) => JsonValueKind::Object,
    }
}

/// Whether a value is neither an array nor an object.
pub open spec fn is_scalar(value: Json) -> bool {
    !(value is Array) && !(value is Object)
}

/// Two scalars with the same cell are the same value.
pub proof fn different_scalars_have_different_cells(a: Json, b: Json)
    requires
        is_scalar(a),
        is_scalar(b),
        cell_of(a) == cell_of(b),
    ensures
        a == b,
{
}

/// The cell of a boolean is that boolean.
pub proof fn booleans_stay_as_they_are(b: bool)
    ensures
        cell_of(Json::Bool(b)) == CellModel::Boolean(b),
{
}

/// A scalar is kept whole in a cell of its own kind: null, an integer, a decimal or a
/// text.
pub proof fn scalars_keep_their_kind(n: i64, s: Seq<char>)
    ensures
        cell_of(Json::Null) == CellModel::Null,
        cell_of(Json::Integer(n)) == CellModel::Integer(n),
        cell_of(Json::Decimal(s)) == CellModel::Float(s),
        cell_of(Json::Text(s)) == CellModel::Text(s),
{
}

/// The cell of an array or an object is its JSON text, never mistaken for a scalar.
pub proof fn containers_become_json_text(value: Json, scalar: Json)
    requires
        !is_scalar(value),
        is_scalar(scalar),
    ensures
        cell_of(value) == CellModel::Json(compact(value)),
        cell_of(value) != cell_of(scalar),
{
}

proof fn lemma_items_join(items: Seq<Json>, n: int)
    requires
        0 <= n <= items.len(),
    ensures
        compact_items(items, n) == text::joined(
            Seq::new(n as nat, |i: int| compact(items[i])),
            seq![','],
        ),
    decreases n,
{
    reveal_strlit(",");
    assert(","@ =~= seq![',']);
    let now = Seq::new(n as nat, |i: int| compact(items[i]));
    if n > 0 {
        lemma_items_join(items, n - 1);
        assert(now.drop_last() =~= Seq::new((n - 1) as nat, |i: int| compact(items[i])));
    }
}

/// The text of a member: its quoted name, a colon and the text of its value.
pub open spec fn member_text(member: (Seq<char>, Json)) -> Seq<char> {
    json_quoted(member.0) + (seq![':'] + compact(member.1))
}

proof fn lemma_members_join(members: Seq<(Seq<char>, Json)>, n: int)
    requires
        0 <= n <= members.len(),
    ensures
        compact_members(members, n) == text::joined(
            Seq::new(n as nat, |i: int| member_text(members[i])),
            seq![','],
        ),
    decreases n,
{
    reveal_strlit(",");
    reveal_strlit(":");
    assert(","@ =~= seq![',']);
    assert(":"@ =~= seq![':']);
    let now = Seq::new(n as nat, |i: int| member_text(members[i]));
    if n > 0 {
        lemma_members_join(members, n - 1);
        let before = Seq::new((n - 1) as nat, |i: int| member_text(members[i]));
        assert(now.drop_last() =~= before);
        if n == 1 {
            assert(compact_members(members, n) =~= member_text(members[0]));
        } else {
            assert(compact_members(members, n) =~= compact_members(members, n - 1) + seq![',']
                + member_text(members[n - 1]));
        }
    }
}

/// The text of an array holds the texts of its items in their order, with commas
/// between them and brackets around them.
pub proof fn arrays_join_their_items(items: Seq<Json>)
    ensures
        compact(Json::Array(items)) == seq!['['] + text::joined(
            Seq::new(items.len(), |i: int| compact(items[i])),
            seq![','],
        ) + seq![']'],
{
    reveal_strlit("[");
    reveal_strlit("]");
    assert("["@ =~= seq!['[']);
    assert("]"@ =~= seq![']']);
    lemma_items_join(items, items.len() as int);
}

/// The text of an object holds its members in their order, each under its quoted name,
/// with commas between them and braces around them.
pub proof fn objects_join_their_members(members: Seq<(Seq<char>, Json)>)
    ensures
        compact(Json::Object(members)) == seq!['{'] + text::joined(
            Seq::new(
                members.len(),
                |i: int| json_quoted(members[i].0) + (seq![':'] + compact(members[i].1)),
            ),
            seq![','],
        ) + seq!['}'],
{
    reveal_strlit("{");
    reveal_strlit("}");
    assert("{"@ =~= seq!['{']);
    assert("}"@ =~= seq!['}']);
    lemma_members_join(members, members.len() as int);
    assert(Seq::new(
        members.len(),
        |i: int| json_quoted(members[i].0) + (seq![':'] + compact(members[i].1)),
    ) =~= Seq::new(members.len(), |i: int| member_text(members[i])));
}

/// The text of a scalar: the three words, the digits of an integer with its sign, a
/// decimal as it was written, and a text in quotes.
pub proof fn scalars_are_written_plainly(n: i64, s: Seq<char>)
    ensures
        compact(Json::Null) == seq!['n', 'u', 'l', 'l'],
        compact(Json::Bool(true)) == seq!['t', 'r', 'u', 'e'],
        compact(Json::Bool(false)) == seq!['f', 'a', 'l', 's', 'e'],
        n >= 0 ==> compact(Json::Integer(n)) == text::decimal(n as nat),
        n < 0 ==> compact(Json::Integer(n)) == seq!['-'] + text::decimal((-n) as nat),
        compact(Json::Decimal(s)) == s,
        compact(Json::Text(s)) == json_quoted(s),
{
    reveal_strlit("null");
    reveal_strlit("true");
    reveal_strlit("false");
    reveal_strlit("-");
    assert("null"@ =~= seq!['n', 'u', 'l', 'l']);
    assert("true"@ =~= seq!['t', 'r', 'u', 'e']);
    assert("false"@ =~= seq!['f', 'a', 'l', 's', 'e']);
    assert("-"@ =~= seq!['-']);
}

/// The kind of a value says which of the forms of JSON it has.
pub proof fn kinds_tell_the_forms(value: Json)
    ensures
        kind_of(value) is Null <==> value is Null,
        kind_of(value) is Boolean <==> value is Bool,
        kind_of(value) is Number <==> value is Integer || value is Decimal,
        kind_of(value) is Text <==> value is Text,
        kind_of(value) is Array <==> value is Array,
        kind_of(value) is Object <==> value is Object,
{
}

} // verus!
