//! Rows of JSON values: flattened cells, selected tables and row streams.

use vstd::prelude::*;
use vstd::slice::*;
use vstd::string::*;
use vstd::utf8::*;

use crate::json_scan::{
    self, JsonError, JsonErrorModel, expect_json_byte, read_json_string, read_non_whitespace,
    skip_json_value, skip_whitespace,
};
use crate::json_value::{
    self, FaultModel, Json, JsonFault, JsonValue, JsonValueKind, cell_from_value, json_text,
    json_value_kind, parse_json, parse_json_stream,
};
use crate::options::{self, JsonPointer};
use crate::table::{CellModel, CellValue, ColumnSourceIdentity, IdentityModel};
use crate::text::{self, concat2, concat3, decimal_of_usize, parse_usize, same};

verus! {

/// One value of a row, with the path that leads to it.
#[derive(Debug, PartialEq, Eq)]
pub struct FlatCell {
    pub path: String,
    pub value: CellValue,
    pub identity: ColumnSourceIdentity,
}

/// The model of a flat cell.
pub struct FlatModel {
    pub path: Seq<char>,
    pub value: CellModel,
    pub identity: IdentityModel,
}

impl View for FlatCell {
    type V = FlatModel;

    open spec fn view(&self) -> FlatModel {
        FlatModel { path: self.path@, value: self.value@, identity: self.identity@ }
    }
}

impl Clone for FlatCell {
    fn clone(&self) -> (r: Self)
        ensures
            r@ == self@,
    {
        FlatCell {
            path: self.path.clone(),
            value: self.value.clone(),
            identity: self.identity.clone(),
        }
    }
}

/// The models of a list of flat cells.
pub open spec fn flat_views(v: Seq<FlatCell>) -> Seq<FlatModel> {
    Seq::new(v.len(), |i: int| v[i]@)
}

proof fn lemma_flat_push(v: Seq<FlatCell>, cell: FlatCell)
    ensures
        flat_views(v.push(cell)) == flat_views(v).push(cell@),
{
    assert(flat_views(v.push(cell)) =~= flat_views(v).push(cell@));
}

/// A row of values with the paths that lead to them, and its size in the source.
#[derive(Debug, PartialEq, Eq)]
pub struct FlatRow {
    pub cells: Vec<FlatCell>,
    pub source_bytes: u64,
}

/// The model of a flat row.
pub struct FlatRowModel {
    pub cells: Seq<FlatModel>,
    pub source_bytes: u64,
}

impl View for FlatRow {
    type V = FlatRowModel;

    open spec fn view(&self) -> FlatRowModel {
        FlatRowModel { cells: flat_views(self.cells@), source_bytes: self.source_bytes }
    }
}

impl Clone for FlatRow {
    fn clone(&self) -> (r: Self)
        ensures
            r@ == self@,
    {
        let mut cells: Vec<FlatCell> = Vec::new();
        let mut i: usize = 0;
        while i < self.cells.len()
            invariant
                i <= self.cells@.len(),
                cells@.len() == i,
                forall|k: int| 0 <= k < i ==> (#[trigger] cells@[k])@ == self.cells@[k]@,
            decreases self.cells@.len() - i,
        {
            cells.push(self.cells[i].clone());
            i = i + 1;
        }
        assert(flat_views(cells@) =~= flat_views(self.cells@));
        FlatRow { cells, source_bytes: self.source_bytes }
    }
}

/// The models of a list of flat rows.
pub open spec fn flat_row_views(v: Seq<FlatRow>) -> Seq<FlatRowModel> {
    Seq::new(v.len(), |i: int| v[i]@)
}

// ---------------------------------------------------------------------------
// Flattening
// ---------------------------------------------------------------------------

/// The cells of the first `n` members of an object, those of nested objects in
/// the place of the object, each under the pointer to it.
pub open spec fn flat_members(members: Seq<(Seq<char>, Json)>, n: int, prefix: Seq<char>) -> Seq<
    FlatModel,
>
    decreases members, n,
{
    if n <= 0 || n > members.len() {
        Seq::empty()
    } else {
        flat_members(members, n - 1, prefix) + flat_member(
            members[n - 1].1,
            prefix + seq!['/'] + options::escaped(members[n - 1].0),
        )
    }
}

/// The cells of one member: an object without members counts as a value.
pub open spec fn flat_member(value: Json, path: Seq<char>) -> Seq<FlatModel>
    decreases value, 0int,
{
    match value {
        Json::Object(nested) => if nested.len() == 0 {
            seq![
                FlatModel {
                    path,
                    value: CellModel::Json("{}"@),
                    identity: IdentityModel::StructuredPath(path),
                },
            ]
        } else {
            flat_members(nested, nested.len() as int, path)
        },
        _ => seq![
            FlatModel {
                path,
                value: json_value::cell_of(value),
                identity: IdentityModel::StructuredPath(path),
            },
        ],
    }
}

/// The cells of the first `n` items of an array, by their positions.
pub open spec fn flat_items(items: Seq<Json>, n: int) -> Seq<FlatModel> {
    Seq::new(
        n as nat,
        |i: int|
            FlatModel {
                path: seq!['/'] + text::decimal(i as nat),
                value: json_value::cell_of(items[i]),
                identity: IdentityModel::Positional(i as usize),
            },
    )
}

/// The cells of a row: the members of an object, the items of an array, or a
/// scalar in the first position.
pub open spec fn flat_cells(value: Json) -> Seq<FlatModel> {
    match value {
        Json::Object(members) => flat_members(members, members.len() as int, Seq::empty()),
        Json::Array(items) => flat_items(items, items.len() as int),
        _ => seq![
            FlatModel {
                path: "/0"@,
                value: json_value::cell_of(value),
                identity: IdentityModel::Positional(0),
            },
        ],
    }
}

/// How many bytes a text takes in UTF-8.
pub open spec fn text_size(s: Seq<char>) -> u64 {
    (encode_utf8(s).len() as usize) as u64
}

/// The row of a value; its size is that of its compact text.
pub open spec fn flat_row(value: Json) -> FlatRowModel {
    FlatRowModel { cells: flat_cells(value), source_bytes: text_size(json_value::compact(value)) }
}

/// The row of an object's entry: its key, and the members of its value or the
/// value itself.
pub open spec fn keyed_row(key: Seq<char>, value: Json, source_bytes: u64) -> FlatRowModel {
    FlatRowModel {
        cells: seq![
            FlatModel {
                path: "@key"@,
                value: CellModel::Text(key),
                identity: IdentityModel::ObjectKey,
            },
        ] + match value {
            Json::Object(members) => flat_members(members, members.len() as int, Seq::empty()),
            _ => seq![
                FlatModel {
                    path: "/value"@,
                    value: json_value::cell_of(value),
                    identity: IdentityModel::StructuredPath("/value"@),
                },
            ],
        },
        source_bytes,
    }
}

fn structured(path: &str, Ghost(keys): Ghost<Seq<Seq<char>>>) -> (r: ColumnSourceIdentity)
    requires
        path@ == options::pointer_of(keys),
    ensures
        r@ == IdentityModel::StructuredPath(path@),
{
    proof {
        options::pointer_round_trips(keys);
    }
    match JsonPointer::parse(path) {
        Ok(pointer) => ColumnSourceIdentity::StructuredPath(pointer),
        Err(_) => {
            assert(false);
            ColumnSourceIdentity::ObjectKey
        },
    }
}

fn flatten_object(
    members: &Vec<(String, JsonValue)>,
    prefix: &str,
    cells: &mut Vec<FlatCell>,
    Ghost(keys): Ghost<Seq<Seq<char>>>,
)
    requires
        prefix@ == options::pointer_of(keys),
    ensures
        flat_views(final(cells)@) == flat_views(old(cells)@) + flat_members(
            json_value::member_views(members@),
            members@.len() as int,
            prefix@,
        ),
    decreases members,
{
    let ghost model = json_value::member_views(members@);
    let ghost start = flat_views(cells@);
    let mut i: usize = 0;
    assert(start + flat_members(model, 0, prefix@) =~= start);
    while i < members.len()
        invariant
            i <= members@.len(),
            model == json_value::member_views(members@),
            prefix@ == options::pointer_of(keys),
            flat_views(cells@) == start + flat_members(model, i as int, prefix@),
        decreases members@.len() - i,
    {
        let ghost before = flat_views(cells@);
        assert(model[i as int] == (members@[i as int].0@, members@[i as int].1@));
        let encoded = JsonPointer::encode_segment(&members[i].0);
        let path = concat3(prefix, "/", &encoded);
        let ghost deeper = keys.push(members@[i as int].0@);
        proof {
            reveal_strlit("/");
            assert("/"@ =~= seq!['/']);
            assert(deeper.drop_last() =~= keys);
            assert(deeper.last() == members@[i as int].0@);
            assert(path@ == options::pointer_of(deeper));
        }
        match &members[i].1 {
            JsonValue::Object(nested) => {
                proof {
                    json_value::lemma_object_model(*nested);
                }
                if nested.len() == 0 {
                    let identity = structured(&path, Ghost(deeper));
                    let cell = FlatCell { path, value: CellValue::Json("{}".to_owned()), identity };
                    proof {
                        lemma_flat_push(cells@, cell);
                    }
                    cells.push(cell);
                    assert(flat_views(cells@) =~= before + flat_member(
                        model[i as int].1,
                        prefix@ + seq!['/'] + options::escaped(model[i as int].0),
                    ));
                } else {
                    assert(decreases_to!(members => members@[i as int].1));
                    flatten_object(nested, &path, cells, Ghost(deeper));
                }
            },
            value => {
                let identity = structured(&path, Ghost(deeper));
                let cell = FlatCell { path, value: cell_from_value(value), identity };
                proof {
                    lemma_flat_push(cells@, cell);
                }
                cells.push(cell);
                assert(flat_views(cells@) =~= before + flat_member(
                    model[i as int].1,
                    prefix@ + seq!['/'] + options::escaped(model[i as int].0),
                ));
            },
        }
        assert(flat_views(cells@) =~= start + flat_members(model, i + 1, prefix@));
        i = i + 1;
    }
}

fn flatten_array(items: &Vec<JsonValue>) -> (r: Vec<FlatCell>)
    ensures
        flat_views(r@) == flat_items(json_value::json_views(items@), items@.len() as int),
{
    let mut cells: Vec<FlatCell> = Vec::new();
    let mut i: usize = 0;
    while i < items.len()
        invariant
            i <= items@.len(),
            cells@.len() == i,
            flat_views(cells@) == flat_items(json_value::json_views(items@), i as int),
        decreases items@.len() - i,
    {
        let path = concat2("/", &decimal_of_usize(i));
        proof {
            reveal_strlit("/");
            assert("/"@ =~= seq!['/']);
        }
        let cell = FlatCell {
            path,
            value: cell_from_value(&items[i]),
            identity: ColumnSourceIdentity::Positional(i),
        };
        proof {
            lemma_flat_push(cells@, cell);
        }
        cells.push(cell);
        assert(flat_views(cells@) =~= flat_items(json_value::json_views(items@), i + 1));
        i = i + 1;
    }
    cells
}

/// The row of a value.
pub fn flatten_row(value: &JsonValue) -> (r: FlatRow)
    ensures
        r@ == flat_row(value@),
{
    let text = json_text(value);
    let source_bytes: u64 = text.as_str().len() as u64;
    let mut cells: Vec<FlatCell> = Vec::new();
    match value {
        JsonValue::Object(members) => {
            proof {
                json_value::lemma_object_model(*members);
            }
            assert(flat_views(cells@) =~= Seq::<FlatModel>::empty());
            let ghost none = Seq::<Seq<char>>::empty();
            let root = String::new();
            flatten_object(members, &root, &mut cells, Ghost(none));
            assert(flat_views(cells@) =~= flat_cells(value@));
        },
        JsonValue::Array(items) => {
            proof {
                json_value::lemma_array_model(*items);
            }
            cells = flatten_array(items);
        },
        scalar => {
            let cell = FlatCell {
                path: "/0".to_owned(),
                value: cell_from_value(scalar),
                identity: ColumnSourceIdentity::Positional(0),
            };
            cells.push(cell);
            assert(flat_views(cells@) =~= flat_cells(value@));
        },
    }
    FlatRow { cells, source_bytes }
}

/// The row of an entry of an object.
pub fn flatten_keyed_entry(key: &str, value: &JsonValue, source_bytes: u64) -> (r: FlatRow)
    ensures
        r@ == keyed_row(key@, value@, source_bytes),
{
    let mut cells: Vec<FlatCell> = Vec::new();
    cells.push(
        FlatCell {
            path: "@key".to_owned(),
            value: CellValue::Text(key.to_owned()),
            identity: ColumnSourceIdentity::ObjectKey,
        },
    );
    let ghost first = flat_views(cells@);
    assert(first =~= seq![
        FlatModel {
            path: "@key"@,
            value: CellModel::Text(key@),
            identity: IdentityModel::ObjectKey,
        },
    ]);
    match value {
        JsonValue::Object(members) => {
            proof {
                json_value::lemma_object_model(*members);
            }
            let ghost none = Seq::<Seq<char>>::empty();
            let root = String::new();
            assert(root@ =~= Seq::<char>::empty());
            flatten_object(members, &root, &mut cells, Ghost(none));
        },
        other => {
            let path = "/value".to_owned();
            let ghost keys = seq!["value"@];
            proof {
                reveal_with_fuel(options::pointer_of, 2);
                reveal_strlit("/value");
                reveal_strlit("value");
                lemma_plain_key("value"@);
                assert(keys.drop_last() =~= Seq::<Seq<char>>::empty());
                assert("/value"@ =~= Seq::<char>::empty() + seq!['/'] + "value"@);
            }
            let identity = structured(&path, Ghost(keys));
            let cell = FlatCell { path, value: cell_from_value(other), identity };
            proof {
                lemma_flat_push(cells@, cell);
            }
            cells.push(cell);
            assert(flat_views(cells@) =~= first + seq![
                FlatModel {
                    path: "/value"@,
                    value: json_value::cell_of(value@),
                    identity: IdentityModel::StructuredPath("/value"@),
                },
            ]);
        },
    }
    FlatRow { cells, source_bytes }
}

proof fn lemma_replaced_absent(s: Seq<char>, c: char, to: Seq<char>)
    requires
        !s.contains(c),
    ensures
        text::replaced(s, c, to) == s,
    decreases s.len(),
{
    if s.len() > 0 {
        assert(s[s.len() - 1] != c);
        assert forall|i: int| 0 <= i < s.drop_last().len() implies s.drop_last()[i] != c by {
            assert(s[i] != c);
        }
        lemma_replaced_absent(s.drop_last(), c, to);
        assert(text::replaced(s, c, to) =~= s);
    }
}

proof fn lemma_plain_key(key: Seq<char>)
    requires
        !key.contains('~'),
        !key.contains('/'),
    ensures
        options::escaped(key) == key,
{
    lemma_replaced_absent(key, '~', "~0"@);
    lemma_replaced_absent(key, '/', "~1"@);
}

// ---------------------------------------------------------------------------
// Pointers
// ---------------------------------------------------------------------------

/// The place of the first member of the given name, or the number of members.
pub open spec fn member_place(members: Seq<(Seq<char>, Json)>, key: Seq<char>) -> int
    decreases members.len(),
{
    if members.len() == 0 {
        0
    } else if members[0].0 == key {
        0
    } else {
        1 + member_place(members.drop_first(), key)
    }
}

/// The value that one key selects: a member by its name, an item by its index.
pub open spec fn child(value: Json, key: Seq<char>) -> Option<Json> {
    match value {
        Json::Object(members) => {
            let n = member_place(members, key);
            if n < members.len() {
                Some(members[n].1)
            } else {
                None
            }
        },
        Json::Array(items) => match text::unsigned_value(key, usize::MAX as nat) {
            Some(n) => if n < items.len() {
                Some(items[n as int])
            } else {
                None
            },
            None => None,
        },
        _ => None,
    }
}

/// The value that a path of keys selects.
pub open spec fn selected(root: Json, keys: Seq<Seq<char>>) -> Option<Json>
    decreases keys.len(),
{
    if keys.len() == 0 {
        Some(root)
    } else {
        match child(root, keys[0]) {
            Some(value) => selected(value, keys.drop_first()),
            None => None,
        }
    }
}

fn find_member(members: &Vec<(String, JsonValue)>, key: &str) -> (r: usize)
    ensures
        r == member_place(json_value::member_views(members@), key@),
        r <= members@.len(),
{
    let ghost all = json_value::member_views(members@);
    let mut i: usize = 0;
    assert(all.skip(0) =~= all);
    while i < members.len()
        invariant
            i <= members@.len(),
            all == json_value::member_views(members@),
            member_place(all, key@) == i + member_place(all.skip(i as int), key@),
        decreases members@.len() - i,
    {
        assert(all.skip(i as int)[0] == all[i as int]);
        if same(&members[i].0, key) {
            return i;
        }
        assert(all.skip(i as int).drop_first() =~= all.skip(i + 1));
        i = i + 1;
    }
    i
}

fn find_child<'a>(value: &'a JsonValue, key: &str) -> (r: Option<&'a JsonValue>)
    ensures
        match (r, child(value@, key@)) {
            (Some(v), Some(m)) => v@ == m,
            (None, None) => true,
            _ => false,
        },
{
    match value {
        JsonValue::Object(members) => {
            proof {
                json_value::lemma_object_model(*members);
            }
            let n: usize = find_member(members, key);
            if n < members.len() {
                Some(&members[n].1)
            } else {
                None
            }
        },
        JsonValue::Array(items) => {
            proof {
                json_value::lemma_array_model(*items);
            }
            match parse_usize(key) {
                Some(n) => if n < items.len() {
                    Some(&items[n])
                } else {
                    None
                },
                None => None,
            }
        },
        _ => None,
    }
}

/// The value that an optional path selects.
pub fn resolve_pointer<'a>(root: &'a JsonValue, pointer: &Option<JsonPointer>) -> (r: Result<
    &'a JsonValue,
    JsonError,
>)
    ensures
        match (r, selected(root@, json_scan::keys_of(*pointer))) {
            (Ok(v), Some(m)) => v@ == m,
            (Err(e), None) => pointer is Some && e@ == JsonErrorModel::PathMissing(pointer->0@),
            _ => false,
        },
{
    let chosen = match pointer {
        Some(p) => p,
        None => {
            return Ok(root);
        },
    };
    let keys = chosen.segments();
    let ghost path = text::views(keys@);
    let mut here = root;
    let mut i: usize = 0;
    assert(path.skip(0) =~= path);
    while i < keys.len()
        invariant
            i <= keys@.len(),
            path == text::views(keys@),
            path == chosen.keys(),
            *pointer == Some(*chosen),
            selected(root@, path) == selected(here@, path.skip(i as int)),
        decreases keys@.len() - i,
    {
        assert(path.skip(i as int)[0] == keys@[i as int]@);
        assert(path.skip(i as int).drop_first() =~= path.skip(i + 1));
        match find_child(here, &keys[i]) {
            Some(value) => {
                here = value;
            },
            None => {
                return Err(JsonError::PathMissing(chosen.as_str().to_owned()));
            },
        }
        i = i + 1;
    }
    Ok(here)
}

// ---------------------------------------------------------------------------
// The leaves of an object
// ---------------------------------------------------------------------------

/// Whether no object of a value, at any depth of objects, holds a name twice.
pub open spec fn names_differ(value: Json) -> bool
    decreases value,
{
    match value {
        Json::Object(members) => {
            &&& forall|i: int, j: int|
                0 <= i < j < members.len() ==> #[trigger] members[i].0 != #[trigger] members[j].0
            &&& forall|i: int| 0 <= i < members.len() ==> names_differ(#[trigger] members[i].1)
        },
        _ => true,
    }
}

/// The leaf that a path of names leads to through objects alone: a value that is
/// no object, or an object without members.
pub open spec fn leaf(value: Json, keys: Seq<Seq<char>>) -> Option<Json>
    decreases keys.len(),
{
    match value {
        Json::Object(members) => if keys.len() == 0 {
            if members.len() == 0 {
                Some(value)
            } else {
                None
            }
        } else {
            let n = member_place(members, keys[0]);
            if n < members.len() {
                leaf(members[n].1, keys.drop_first())
            } else {
                None
            }
        },
        _ => if keys.len() == 0 {
            Some(value)
        } else {
            None
        },
    }
}

/// Paths behind one more name.
spec fn below(key: Seq<char>, paths: Seq<Seq<Seq<char>>>) -> Seq<Seq<Seq<char>>> {
    Seq::new(paths.len(), |i: int| seq![key] + paths[i])
}

/// The paths to the leaves of a value.
spec fn leaf_paths(value: Json) -> Seq<Seq<Seq<char>>>
    decreases value, 0int,
{
    match value {
        Json::Object(members) => if members.len() == 0 {
            seq![Seq::empty()]
        } else {
            member_paths(members, members.len() as int)
        },
        _ => seq![Seq::empty()],
    }
}

/// The paths to the leaves of the first `n` members.
spec fn member_paths(members: Seq<(Seq<char>, Json)>, n: int) -> Seq<Seq<Seq<char>>>
    decreases members, n,
{
    if n <= 0 || n > members.len() {
        Seq::empty()
    } else {
        member_paths(members, n - 1) + below(members[n - 1].0, leaf_paths(members[n - 1].1))
    }
}

proof fn lemma_place_of(members: Seq<(Seq<char>, Json)>, m: int)
    requires
        0 <= m < members.len(),
        forall|i: int, j: int|
            0 <= i < j < members.len() ==> #[trigger] members[i].0 != #[trigger] members[j].0,
    ensures
        member_place(members, members[m].0) == m,
    decreases members.len(),
{
    if m > 0 {
        let rest = members.drop_first();
        assert(members[0].0 != members[m].0);
        assert(rest[m - 1] == members[m]);
        assert forall|i: int, j: int| 0 <= i < j < rest.len() implies #[trigger] rest[i].0
            != #[trigger] rest[j].0 by {
            assert(members[i + 1].0 != members[j + 1].0);
        }
        lemma_place_of(rest, m - 1);
    }
}

proof fn lemma_place_found(members: Seq<(Seq<char>, Json)>, key: Seq<char>)
    ensures
        0 <= member_place(members, key) <= members.len(),
        member_place(members, key) < members.len() ==> members[member_place(members, key)].0 == key,
    decreases members.len(),
{
    if members.len() > 0 && members[0].0 != key {
        lemma_place_found(members.drop_first(), key);
    }
}

proof fn lemma_leaf_paths(value: Json)
    requires
        names_differ(value),
    ensures
        forall|i: int|
            0 <= i < leaf_paths(value).len() ==> leaf(value, #[trigger] leaf_paths(value)[i]) is Some,
        forall|keys: Seq<Seq<char>>| #[trigger]
            leaf(value, keys) is Some ==> leaf_paths(value).contains(keys),
        leaf_paths(value).no_duplicates(),
    decreases value, 0int,
{
    match value {
        Json::Object(members) => {
            if members.len() == 0 {
                let none = Seq::<Seq<char>>::empty();
                assert(leaf_paths(value)[0] == none);
                assert forall|keys: Seq<Seq<char>>| #[trigger]
                    leaf(value, keys) is Some implies leaf_paths(value).contains(keys) by {
                    assert(keys =~= none);
                }
            } else {
                let n = members.len() as int;
                lemma_member_paths(members, n);
                let paths = leaf_paths(value);
                assert forall|i: int| 0 <= i < paths.len() implies leaf(
                    value,
                    #[trigger] paths[i],
                ) is Some by {
                    assert(leads(members, n, paths[i]));
                }
                assert forall|keys: Seq<Seq<char>>| #[trigger]
                    leaf(value, keys) is Some implies paths.contains(keys) by {
                    lemma_place_found(members, keys[0]);
                    assert(leads(members, n, keys));
                }
            }
        },
        _ => {
            let none = Seq::<Seq<char>>::empty();
            assert(leaf_paths(value)[0] == none);
            assert forall|keys: Seq<Seq<char>>| #[trigger]
                leaf(value, keys) is Some implies leaf_paths(value).contains(keys) by {
                assert(keys =~= none);
            }
        },
    }
}

/// Whether a path leads through one of the first `n` members to a leaf.
spec fn leads(members: Seq<(Seq<char>, Json)>, n: int, keys: Seq<Seq<char>>) -> bool {
    &&& keys.len() > 0
    &&& 0 <= member_place(members, keys[0]) < n
    &&& leaf(members[member_place(members, keys[0])].1, keys.drop_first()) is Some
}

proof fn lemma_member_paths(members: Seq<(Seq<char>, Json)>, n: int)
    requires
        0 <= n <= members.len(),
        forall|i: int, j: int|
            0 <= i < j < members.len() ==> #[trigger] members[i].0 != #[trigger] members[j].0,
        forall|i: int| 0 <= i < members.len() ==> names_differ(#[trigger] members[i].1),
    ensures
        forall|i: int|
            0 <= i < member_paths(members, n).len() ==> leads(
                members,
                n,
                #[trigger] member_paths(members, n)[i],
            ),
        forall|keys: Seq<Seq<char>>| #[trigger]
            leads(members, n, keys) ==> member_paths(members, n).contains(keys),
        member_paths(members, n).no_duplicates(),
    decreases members, n,
{
    if n > 0 {
        let (key, value) = members[n - 1];
        let before = member_paths(members, n - 1);
        let inner = leaf_paths(value);
        let block = below(key, inner);
        let paths = member_paths(members, n);
        lemma_member_paths(members, n - 1);
        assert(decreases_to!(members => members[n - 1].1));
        lemma_leaf_paths(value);
        lemma_place_of(members, n - 1);
        assert forall|i: int| 0 <= i < block.len() implies (#[trigger] block[i]).len() > 0
            && block[i][0] == key && block[i].drop_first() == inner[i] by {
            assert(block[i].drop_first() =~= inner[i]);
        }
        assert forall|i: int| 0 <= i < paths.len() implies leads(
            members,
            n,
            #[trigger] paths[i],
        ) by {
            if i < before.len() {
                assert(paths[i] == before[i]);
            } else {
                assert(paths[i] == block[i - before.len()]);
                assert(leaf(value, inner[i - before.len()]) is Some);
            }
        }
        assert forall|keys: Seq<Seq<char>>| #[trigger]
            leads(members, n, keys) implies paths.contains(keys) by {
            if member_place(members, keys[0]) < n - 1 {
                assert(leads(members, n - 1, keys));
                let i = choose|i: int| 0 <= i < before.len() && before[i] == keys;
                assert(paths[i] == keys);
            } else {
                lemma_place_found(members, keys[0]);
                assert(leaf(value, keys.drop_first()) is Some);
                let i = choose|i: int| 0 <= i < inner.len() && inner[i] == keys.drop_first();
                assert(block[i] =~= keys);
                assert(paths[i + before.len()] == keys);
            }
        }
        assert forall|i: int, j: int| 0 <= i < j < paths.len() implies paths[i] != paths[j] by {
            if j < before.len() {
                assert(before[i] != before[j]);
            } else if i >= before.len() {
                assert(paths[i] == block[i - before.len()]);
                assert(paths[j] == block[j - before.len()]);
                assert(inner[i - before.len()] != inner[j - before.len()]);
            } else {
                assert(leads(members, n - 1, before[i]));
                assert(paths[j] == block[j - before.len()]);
            }
        }
    }
}

/// What a leaf leads to is what its path selects.
proof fn lemma_leaf_selected(value: Json, keys: Seq<Seq<char>>)
    requires
        leaf(value, keys) is Some,
    ensures
        selected(value, keys) == leaf(value, keys),
    decreases keys.len(),
{
    if keys.len() > 0 {
        let members = value->Object_0;
        lemma_leaf_selected(members[member_place(members, keys[0])].1, keys.drop_first());
    }
}

/// The cell of a leaf under its path.
spec fn leaf_cell(value: Json, prefix: Seq<Seq<char>>, keys: Seq<Seq<char>>) -> FlatModel {
    FlatModel {
        path: options::pointer_of(prefix + keys),
        value: json_value::cell_of(leaf(value, keys)->0),
        identity: IdentityModel::StructuredPath(options::pointer_of(prefix + keys)),
    }
}

proof fn lemma_flat_member_leaves(value: Json, prefix: Seq<Seq<char>>)
    requires
        names_differ(value),
    ensures
        flat_member(value, options::pointer_of(prefix)) == Seq::new(
            leaf_paths(value).len(),
            |i: int| leaf_cell(value, prefix, leaf_paths(value)[i]),
        ),
    decreases value, 0int,
{
    let path = options::pointer_of(prefix);
    let cells = flat_member(value, path);
    let paths = leaf_paths(value);
    let none = Seq::<Seq<char>>::empty();
    assert(prefix + none =~= prefix);
    match value {
        Json::Object(members) => {
            if members.len() == 0 {
                lemma_compact_empty(members);
                assert(paths[0] == none);
                assert(cells =~= seq![leaf_cell(value, prefix, none)]);
            } else {
                let n = members.len() as int;
                lemma_flat_members_leaves(members, n, prefix);
                lemma_member_paths(members, n);
                assert(cells.len() == paths.len());
                assert forall|i: int| 0 <= i < cells.len() implies #[trigger] cells[i]
                    == leaf_cell(value, prefix, paths[i]) by {
                    assert(leads(members, n, paths[i]));
                }
            }
        },
        _ => {
            assert(paths[0] == none);
            assert(cells =~= seq![leaf_cell(value, prefix, none)]);
        },
    }
    assert(cells =~= Seq::new(paths.len(), |i: int| leaf_cell(value, prefix, paths[i])));
}

proof fn lemma_flat_members_leaves(
    members: Seq<(Seq<char>, Json)>,
    n: int,
    prefix: Seq<Seq<char>>,
)
    requires
        0 <= n <= members.len(),
        forall|i: int, j: int|
            0 <= i < j < members.len() ==> #[trigger] members[i].0 != #[trigger] members[j].0,
        forall|i: int| 0 <= i < members.len() ==> names_differ(#[trigger] members[i].1),
    ensures
        flat_members(members, n, options::pointer_of(prefix)) == Seq::new(
            member_paths(members, n).len(),
            |i: int| leaf_cell(Json::Object(members), prefix, member_paths(members, n)[i]),
        ),
    decreases members, n,
{
    let object = Json::Object(members);
    let cells = flat_members(members, n, options::pointer_of(prefix));
    let paths = member_paths(members, n);
    if n > 0 {
        let (key, value) = members[n - 1];
        let before = member_paths(members, n - 1);
        let inner = leaf_paths(value);
        lemma_flat_members_leaves(members, n - 1, prefix);
        let deeper = prefix.push(key);
        assert(deeper.drop_last() =~= prefix);
        assert(decreases_to!(members => members[n - 1].1));
        lemma_flat_member_leaves(value, deeper);
        lemma_place_of(members, n - 1);
        assert forall|i: int| 0 <= i < inner.len() implies leaf_cell(
            value,
            deeper,
            #[trigger] inner[i],
        ) == leaf_cell(object, prefix, paths[i + before.len()]) by {
            let keys = paths[i + before.len()];
            assert(keys == seq![key] + inner[i]);
            assert(keys.drop_first() =~= inner[i]);
            assert(prefix + keys =~= deeper + inner[i]);
        }
        assert(cells =~= Seq::new(paths.len(), |i: int| leaf_cell(object, prefix, paths[i])));
    } else {
        assert(cells =~= Seq::new(paths.len(), |i: int| leaf_cell(object, prefix, paths[i])));
    }
}

proof fn lemma_compact_empty(members: Seq<(Seq<char>, Json)>)
    requires
        members.len() == 0,
    ensures
        json_value::compact(Json::Object(members)) == "{}"@,
{
    reveal_strlit("{}");
    reveal_strlit("{");
    reveal_strlit("}");
    assert(json_value::compact(Json::Object(members)) =~= "{}"@);
}

/// The row of an object holds its leaves, each once, under the pointer that
/// selects it.
///
/// Every cell has the path of a leaf, is identified by that path, and holds the
/// cell of the value that the path selects; every leaf has a cell; and no path
/// comes twice.
pub proof fn flat_row_holds_the_leaves(value: Json)
    requires
        value is Object,
        names_differ(value),
    ensures
        forall|i: int|
            0 <= i < flat_row(value).cells.len() ==> {
                let cell = #[trigger] flat_row(value).cells[i];
                let keys = options::pointer_keys(cell.path);
                &&& keys is Some
                &&& keys->0.len() > 0
                &&& cell.path == options::pointer_of(keys->0)
                &&& cell.identity == IdentityModel::StructuredPath(cell.path)
                &&& leaf(value, keys->0) is Some
                &&& selected(value, keys->0) == leaf(value, keys->0)
                &&& cell.value == json_value::cell_of(leaf(value, keys->0)->0)
            },
        forall|keys: Seq<Seq<char>>|
            keys.len() > 0 && #[trigger] leaf(value, keys) is Some ==> exists|i: int|
                0 <= i < flat_row(value).cells.len() && (#[trigger] flat_row(value).cells[i]).path
                    == options::pointer_of(keys),
        forall|i: int, j: int|
            0 <= i < j < flat_row(value).cells.len() ==> (#[trigger] flat_row(value).cells[i]).path
                != (#[trigger] flat_row(value).cells[j]).path,
{
    let members = value->Object_0;
    let n = members.len() as int;
    let cells = flat_row(value).cells;
    let paths = member_paths(members, n);
    let none = Seq::<Seq<char>>::empty();
    lemma_member_paths(members, n);
    lemma_flat_members_leaves(members, n, none);
    assert(options::pointer_of(none) =~= Seq::<char>::empty());
    assert forall|i: int| 0 <= i < cells.len() implies {
        &&& options::pointer_keys((#[trigger] cells[i]).path) == Some(paths[i])
        &&& cells[i].path == options::pointer_of(paths[i])
        &&& cells[i] == leaf_cell(value, none, paths[i])
        &&& leads(members, n, paths[i])
        &&& selected(value, paths[i]) == leaf(value, paths[i])
    } by {
        assert(none + paths[i] =~= paths[i]);
        options::pointer_round_trips(paths[i]);
        assert(leads(members, n, paths[i]));
        lemma_leaf_selected(value, paths[i]);
    }
    assert forall|keys: Seq<Seq<char>>|
        keys.len() > 0 && #[trigger] leaf(value, keys) is Some implies exists|i: int|
        0 <= i < flat_row(value).cells.len() && (#[trigger] flat_row(value).cells[i]).path
            == options::pointer_of(keys) by {
        lemma_place_found(members, keys[0]);
        assert(leads(members, n, keys));
        let i = choose|i: int| 0 <= i < paths.len() && paths[i] == keys;
        assert(cells[i].path == options::pointer_of(keys));
    }
    assert forall|i: int, j: int| 0 <= i < j < cells.len() implies (#[trigger] cells[i]).path != (
    #[trigger] cells[j]).path by {
        assert(paths[i] != paths[j]);
    }
}

// ---------------------------------------------------------------------------
// Row streams
// ---------------------------------------------------------------------------

/// A path as it is written, and its keys.
pub struct PathModel {
    pub text: Seq<char>,
    pub keys: Seq<Seq<char>>,
}

/// The model of an optional path: that of the empty path for none.
pub open spec fn path_model(pointer: Option<JsonPointer>) -> PathModel {
    match pointer {
        Some(p) => PathModel { text: p@, keys: p.keys() },
        None => PathModel { text: Seq::empty(), keys: Seq::empty() },
    }
}

/// The row that a document of a stream gives: the object or the array that the
/// path selects in it.
pub open spec fn document_row(document: Json, path: PathModel) -> Result<
    FlatRowModel,
    JsonErrorModel,
> {
    match selected(document, path.keys) {
        None => Err(JsonErrorModel::PathMissing(path.text)),
        Some(value) => if value is Object || value is Array {
            Ok(flat_row(value))
        } else {
            Err(JsonErrorModel::NotContainer)
        },
    }
}

/// The rows of the first `n` documents of a stream, up to the first that has none.
pub open spec fn document_rows(
    documents: Seq<(Json, usize)>,
    n: int,
    path: PathModel,
) -> Result<Seq<FlatRowModel>, JsonErrorModel>
    decreases n,
{
    if n <= 0 || n > documents.len() {
        Ok(Seq::empty())
    } else {
        match document_rows(documents, n - 1, path) {
            Err(e) => Err(e),
            Ok(rows) => match document_row(documents[n - 1].0, path) {
                Err(e) => Err(e),
                Ok(row) => Ok(rows.push(row)),
            },
        }
    }
}

/// The rows of a stream of documents: it is refused for the first document that
/// gives no row, or else for the fault that ends it.
pub open spec fn stream_rows(
    stream: (Seq<(Json, usize)>, Option<FaultModel>),
    path: PathModel,
) -> Result<Seq<FlatRowModel>, JsonErrorModel> {
    match document_rows(stream.0, stream.0.len() as int, path) {
        Err(e) => Err(e),
        Ok(rows) => match stream.1 {
            Some(fault) => Err(JsonErrorModel::Json(fault)),
            None => Ok(rows),
        },
    }
}

/// The model of a result with rows.
pub open spec fn rows_result(r: Result<Vec<FlatRow>, JsonError>) -> Result<
    Seq<FlatRowModel>,
    JsonErrorModel,
> {
    match r {
        Ok(rows) => Ok(flat_row_views(rows@)),
        Err(e) => Err(e@),
    }
}

proof fn lemma_document_rows_fail(
    documents: Seq<(Json, usize)>,
    n: int,
    m: int,
    path: PathModel,
)
    requires
        0 <= n <= m <= documents.len(),
        document_rows(documents, n, path) is Err,
    ensures
        document_rows(documents, m, path) == document_rows(documents, n, path),
    decreases m,
{
    if n < m {
        lemma_document_rows_fail(documents, n, m - 1, path);
    }
}

/// The row that a document of a stream gives.
pub fn flatten_document(document: &JsonValue, pointer: &Option<JsonPointer>) -> (r: Result<
    FlatRow,
    JsonError,
>)
    ensures
        match (r, document_row(document@, path_model(*pointer))) {
            (Ok(row), Ok(m)) => row@ == m,
            (Err(e), Err(m)) => e@ == m,
            _ => false,
        },
{
    match resolve_pointer(document, pointer) {
        Err(e) => Err(e),
        Ok(value) => match value {
            JsonValue::Object(_) => Ok(flatten_row(value)),
            JsonValue::Array(_) => Ok(flatten_row(value)),
            _ => Err(JsonError::NotContainer),
        },
    }
}

/// The rows of documents that were read from a stream, and of what ended it.
pub fn rows_from_documents(
    documents: &Vec<(JsonValue, usize)>,
    fault: Option<JsonFault>,
    pointer: &Option<JsonPointer>,
) -> (r: Result<Vec<FlatRow>, JsonError>)
    ensures
        rows_result(r) == stream_rows((json_value::document_views(documents@), json_value::fault_view(fault)), path_model(*pointer)),
{
    let ghost all = json_value::document_views(documents@);
    let mut rows: Vec<FlatRow> = Vec::new();
    let mut i: usize = 0;
    assert(flat_row_views(rows@) =~= Seq::<FlatRowModel>::empty());
    while i < documents.len()
        invariant
            i <= documents@.len(),
            all == json_value::document_views(documents@),
            document_rows(all, i as int, path_model(*pointer)) == Ok::<Seq<FlatRowModel>, JsonErrorModel>(
                flat_row_views(rows@),
            ),
        decreases documents@.len() - i,
    {
        match flatten_document(&documents[i].0, pointer) {
            Ok(row) => {
                assert(flat_row_views(rows@.push(row)) =~= flat_row_views(rows@).push(row@));
                rows.push(row);
            },
            Err(e) => {
                proof {
                    lemma_document_rows_fail(all, i + 1, all.len() as int, path_model(*pointer));
                }
                return Err(e);
            },
        }
        i = i + 1;
    }
    match fault {
        Some(fault) => Err(JsonError::Json(fault)),
        None => Ok(rows),
    }
}

/// The rows of a stream of JSON documents.
pub fn parse_ndjson_rows(bytes: &[u8], pointer: &Option<JsonPointer>) -> (r: Result<
    Vec<FlatRow>,
    JsonError,
>)
    ensures
        rows_result(r) == stream_rows(json_value::json_stream(bytes@), path_model(*pointer)),
{
    let (documents, fault) = parse_json_stream(bytes);
    rows_from_documents(&documents, fault, pointer)
}

// ---------------------------------------------------------------------------
// Entries of objects and items of arrays
// ---------------------------------------------------------------------------

/// An entry of an object: its key, its value, and its size in the source.
#[derive(Debug, PartialEq, Eq)]
pub struct ObjectEntry {
    pub key: String,
    pub value: JsonValue,
    pub encoded_len: u64,
}

/// The model of an entry.
pub struct EntryModel {
    pub key: Seq<char>,
    pub value: Json,
    pub encoded_len: u64,
}

impl View for ObjectEntry {
    type V = EntryModel;

    open spec fn view(&self) -> EntryModel {
        EntryModel { key: self.key@, value: self.value@, encoded_len: self.encoded_len }
    }
}

/// The models of a list of entries.
pub open spec fn entry_views(v: Seq<ObjectEntry>) -> Seq<EntryModel> {
    Seq::new(v.len(), |i: int| v[i]@)
}

/// One step through the parts of a container: its end, with the position behind
/// it, or a part from `start` to `end`, with the position of the next part.
pub enum PartStep {
    End(int),
    Part { start: int, end: int, next: int, last: bool },
}

/// The next item of an array.
pub open spec fn item_step(bytes: Seq<u8>, at: int) -> Result<PartStep, JsonErrorModel> {
    let start = json_scan::solid(bytes, at);
    if start >= bytes.len() {
        Err(JsonErrorModel::UnterminatedSelectedArray)
    } else if bytes[start] == 0x5d {
        Ok(PartStep::End(start + 1))
    } else {
        match json_scan::value_range(bytes, start) {
            Err(e) => Err(e),
            Ok((start, end)) => match json_scan::next_byte(bytes, end) {
                Some((0x2c, next)) => Ok(PartStep::Part { start, end, next, last: false }),
                Some((0x5d, next)) => Ok(PartStep::Part { start, end, next, last: true }),
                _ => Err(JsonErrorModel::SelectedArraySeparator),
            },
        }
    }
}

/// What stands before the items or the entries that are still to be read.
pub open spec fn prepend<T>(before: Seq<T>, rest: Result<Seq<T>, JsonErrorModel>) -> Result<
    Seq<T>,
    JsonErrorModel,
> {
    match rest {
        Ok(rest) => Ok(before + rest),
        Err(e) => Err(e),
    }
}

/// Steps through an array go forward and stay within the bytes.
pub proof fn lemma_item_step(bytes: Seq<u8>, at: int)
    requires
        0 <= at <= bytes.len(),
    ensures
        item_step(bytes, at) matches Ok(PartStep::Part { start, end, next, .. }) ==> at <= start
            < end < next <= bytes.len(),
        item_step(bytes, at) matches Ok(PartStep::End(next)) ==> at < next <= bytes.len(),
{
    json_scan::lemma_solid(bytes, at);
    let start = json_scan::solid(bytes, at);
    if start < bytes.len() {
        json_scan::lemma_value_range(bytes, start);
        if let Ok((_, end)) = json_scan::value_range(bytes, start) {
            json_scan::lemma_next_byte(bytes, end);
        }
    }
}

/// The rows of the items of an array, read from `at`.
pub open spec fn array_rows(bytes: Seq<u8>, at: int) -> Result<Seq<FlatRowModel>, JsonErrorModel>
    decreases bytes.len() - at,
    when 0 <= at <= bytes.len()
{
    proof {
        lemma_item_step(bytes, at);
    }
    match item_step(bytes, at) {
        Err(e) => Err(e),
        Ok(PartStep::End(_)) => Ok(Seq::empty()),
        Ok(PartStep::Part { start, end, next, last }) => match json_value::json_read(
            bytes.subrange(start, end),
        ) {
            Err(e) => Err(JsonErrorModel::Json(e)),
            Ok(value) => if last {
                Ok(seq![flat_row(value)])
            } else {
                prepend(seq![flat_row(value)], array_rows(bytes, next))
            },
        },
    }
}

pub(crate) fn read_array_rows(bytes: &[u8], at: usize) -> (r: Result<Vec<FlatRow>, JsonError>)
    requires
        at <= bytes@.len(),
    ensures
        rows_result(r) == array_rows(bytes@, at as int),
{
    let mut rows: Vec<FlatRow> = Vec::new();
    let mut here: usize = at;
    assert(array_rows(bytes@, at as int) == prepend(
        flat_row_views(rows@),
        array_rows(bytes@, here as int),
    )) by {
        if let Ok(all) = array_rows(bytes@, at as int) {
            assert(flat_row_views(rows@) + all =~= all);
        }
    }
    loop
        invariant
            here <= bytes@.len(),
            array_rows(bytes@, at as int) == prepend(
                flat_row_views(rows@),
                array_rows(bytes@, here as int),
            ),
        decreases bytes@.len() - here,
    {
        proof {
            json_scan::lemma_solid(bytes@, here as int);
            lemma_item_step(bytes@, here as int);
        }
        let start: usize = match skip_whitespace(bytes, here) {
            Some(n) => n,
            None => {
                return Err(JsonError::UnterminatedSelectedArray);
            },
        };
        if bytes[start] == 0x5d {
            assert(flat_row_views(rows@) + Seq::<FlatRowModel>::empty() =~= flat_row_views(rows@));
            return Ok(rows);
        }
        let (from, end) = match skip_json_value(bytes, start) {
            Ok(range) => range,
            Err(e) => {
                return Err(e);
            },
        };
        let (next, last) = match read_non_whitespace(bytes, end) {
            Some((0x2c, next)) => (next, false),
            Some((0x5d, next)) => (next, true),
            _ => {
                return Err(JsonError::SelectedArraySeparator);
            },
        };
        let value = match parse_json(slice_subrange(bytes, from, end)) {
            Ok(value) => value,
            Err(e) => {
                return Err(JsonError::Json(e));
            },
        };
        let row = flatten_row(&value);
        let ghost before = flat_row_views(rows@);
        assert(flat_row_views(rows@.push(row)) =~= before + seq![row@]);
        rows.push(row);
        if last {
            return Ok(rows);
        }
        proof {
            if let Ok(rest) = array_rows(bytes@, next as int) {
                assert(before + (seq![row@] + rest) =~= (before + seq![row@]) + rest);
            }
        }
        here = next;
    }
}

/// The next entry of an object: its key and where its value stands; the part
/// begins with the key.
pub open spec fn entry_step(bytes: Seq<u8>, at: int) -> Result<
    (PartStep, Seq<char>, int),
    JsonErrorModel,
> {
    let start = json_scan::solid(bytes, at);
    if start >= bytes.len() {
        Err(JsonErrorModel::UnterminatedSelectedObject)
    } else if bytes[start] == 0x7d {
        Ok((PartStep::End(start + 1), Seq::empty(), start))
    } else {
        match json_scan::key_at(bytes, start) {
            Err(e) => Err(e),
            Ok((key, key_end)) => match json_scan::next_byte(bytes, key_end) {
                Some((0x3a, colon)) => match json_scan::value_range(bytes, colon) {
                    Err(e) => Err(e),
                    Ok((value, end)) => match json_scan::next_byte(bytes, end) {
                        Some((0x2c, next)) => Ok(
                            (PartStep::Part { start, end, next, last: false }, key, value),
                        ),
                        Some((0x7d, next)) => Ok(
                            (PartStep::Part { start, end, next, last: true }, key, value),
                        ),
                        _ => Err(JsonErrorModel::SelectedObjectSeparator),
                    },
                },
                _ => Err(JsonErrorModel::Syntax),
            },
        }
    }
}

/// Steps through an object go forward and stay within the bytes.
pub proof fn lemma_entry_step(bytes: Seq<u8>, at: int)
    requires
        0 <= at <= bytes.len(),
    ensures
        entry_step(bytes, at) matches Ok((PartStep::Part { start, end, next, .. }, _, value))
            ==> at <= start < value < end < next <= bytes.len(),
        entry_step(bytes, at) matches Ok((PartStep::End(next), _, _)) ==> at < next <= bytes.len(),
{
    json_scan::lemma_solid(bytes, at);
    let start = json_scan::solid(bytes, at);
    if start < bytes.len() {
        json_scan::lemma_key_at(bytes, start);
        if let Ok((_, key_end)) = json_scan::key_at(bytes, start) {
            json_scan::lemma_next_byte(bytes, key_end);
            if let Some((_, colon)) = json_scan::next_byte(bytes, key_end) {
                json_scan::lemma_value_range(bytes, colon);
                if let Ok((_, end)) = json_scan::value_range(bytes, colon) {
                    json_scan::lemma_next_byte(bytes, end);
                }
            }
        }
    }
}

/// The entries of an object, read from `at`.
pub open spec fn object_entries(bytes: Seq<u8>, at: int) -> Result<Seq<EntryModel>, JsonErrorModel>
    decreases bytes.len() - at,
    when 0 <= at <= bytes.len()
{
    proof {
        lemma_entry_step(bytes, at);
    }
    match entry_step(bytes, at) {
        Err(e) => Err(e),
        Ok((PartStep::End(_), _, _)) => Ok(Seq::empty()),
        Ok((PartStep::Part { start, end, next, last }, key, value)) => match json_value::json_read(
            bytes.subrange(value, end),
        ) {
            Err(e) => Err(JsonErrorModel::Json(e)),
            Ok(json) => {
                let entry = EntryModel { key, value: json, encoded_len: (end - start) as u64 };
                if last {
                    Ok(seq![entry])
                } else {
                    prepend(seq![entry], object_entries(bytes, next))
                }
            },
        },
    }
}

/// The model of a result with entries.
pub open spec fn entries_result(r: Result<Vec<ObjectEntry>, JsonError>) -> Result<
    Seq<EntryModel>,
    JsonErrorModel,
> {
    match r {
        Ok(entries) => Ok(entry_views(entries@)),
        Err(e) => Err(e@),
    }
}

pub(crate) fn read_entries(bytes: &[u8], at: usize) -> (r: Result<Vec<ObjectEntry>, JsonError>)
    requires
        at <= bytes@.len(),
    ensures
        entries_result(r) == object_entries(bytes@, at as int),
{
    let mut entries: Vec<ObjectEntry> = Vec::new();
    let mut here: usize = at;
    assert(object_entries(bytes@, at as int) == prepend(
        entry_views(entries@),
        object_entries(bytes@, here as int),
    )) by {
        if let Ok(all) = object_entries(bytes@, at as int) {
            assert(entry_views(entries@) + all =~= all);
        }
    }
    loop
        invariant
            here <= bytes@.len(),
            object_entries(bytes@, at as int) == prepend(
                entry_views(entries@),
                object_entries(bytes@, here as int),
            ),
        decreases bytes@.len() - here,
    {
        proof {
            lemma_entry_step(bytes@, here as int);
        }
        let start: usize = match skip_whitespace(bytes, here) {
            Some(n) => n,
            None => {
                return Err(JsonError::UnterminatedSelectedObject);
            },
        };
        if bytes[start] == 0x7d {
            assert(entry_views(entries@) + Seq::<EntryModel>::empty() =~= entry_views(entries@));
            return Ok(entries);
        }
        let (key, key_end) = match read_json_string(bytes, start) {
            Ok(found) => found,
            Err(e) => {
                return Err(e);
            },
        };
        let colon: usize = match expect_json_byte(bytes, key_end, 0x3a) {
            Ok(n) => n,
            Err(e) => {
                return Err(e);
            },
        };
        let (from, end) = match skip_json_value(bytes, colon) {
            Ok(range) => range,
            Err(e) => {
                return Err(e);
            },
        };
        let (next, last) = match read_non_whitespace(bytes, end) {
            Some((0x2c, next)) => (next, false),
            Some((0x7d, next)) => (next, true),
            _ => {
                return Err(JsonError::SelectedObjectSeparator);
            },
        };
        let value = match parse_json(slice_subrange(bytes, from, end)) {
            Ok(value) => value,
            Err(e) => {
                return Err(JsonError::Json(e));
            },
        };
        let entry = ObjectEntry { key, value, encoded_len: (end - start) as u64 };
        let ghost before = entry_views(entries@);
        assert(entry_views(entries@.push(entry)) =~= before + seq![entry@]);
        entries.push(entry);
        if last {
            return Ok(entries);
        }
        proof {
            if let Ok(rest) = object_entries(bytes@, next as int) {
                assert(before + (seq![entry@] + rest) =~= (before + seq![entry@]) + rest);
            }
        }
        here = next;
    }
}

// ---------------------------------------------------------------------------
// Keyed objects
// ---------------------------------------------------------------------------

/// How many entries of an object are looked at to tell a map of entries.
pub const OBJECT_DETECTION_MAX_ENTRIES: usize = 64;

/// How many bytes of entries are looked at to tell a map of entries.
pub const OBJECT_DETECTION_MAX_BYTES: u64 = 1048576;

/// How many entries are looked at, from the `i`-th on when the ones before it
/// took `bytes`: the entry that reaches the limit of bytes is the last.
pub open spec fn sample_size(entries: Seq<EntryModel>, i: int, bytes: u64) -> int
    decreases entries.len() - i,
{
    if i < 0 || i >= entries.len() || i >= OBJECT_DETECTION_MAX_ENTRIES {
        i
    } else {
        let taken = bytes.saturating_add(entries[i].encoded_len);
        if taken >= OBJECT_DETECTION_MAX_BYTES {
            i + 1
        } else {
            sample_size(entries, i + 1, taken)
        }
    }
}

/// The values of a list of entries.
pub open spec fn entry_values(entries: Seq<EntryModel>) -> Seq<Json> {
    Seq::new(entries.len(), |i: int| entries[i].value)
}

/// How many of the first `n` members have the given name and kind.
pub open spec fn members_like(
    members: Seq<(Seq<char>, Json)>,
    n: int,
    key: Seq<char>,
    kind: JsonValueKind,
) -> nat
    decreases n,
{
    if n <= 0 || n > members.len() {
        0
    } else {
        members_like(members, n - 1, key, kind) + if members[n - 1].0 == key && json_value::kind_of(
            members[n - 1].1,
        ) == kind {
            1nat
        } else {
            0nat
        }
    }
}

/// How many members of the first `n` values have the given name and kind.
pub open spec fn shared_by(values: Seq<Json>, n: int, key: Seq<char>, kind: JsonValueKind) -> nat
    decreases n,
{
    if n <= 0 || n > values.len() {
        0
    } else {
        shared_by(values, n - 1, key, kind) + match values[n - 1] {
            Json::Object(members) => members_like(members, members.len() as int, key, kind),
            _ => 0nat,
        }
    }
}

/// How many values have to share a member: three quarters of them, rounded up.
pub open spec fn shared_threshold(n: nat) -> int {
    let m = (n as usize).saturating_add(n as usize).saturating_add(n as usize) as int;
    m / 4 + if m % 4 != 0 {
        1int
    } else {
        0int
    }
}

/// Whether values are the entries of a map: at least three, all objects, and
/// three quarters of them share a member of the same name and kind.
pub open spec fn is_keyed(values: Seq<Json>) -> bool {
    &&& values.len() >= 3
    &&& forall|i: int| 0 <= i < values.len() ==> (#[trigger] values[i]) is Object
    &&& exists|key: Seq<char>, kind: JsonValueKind| #[trigger]
        shared_by(values, values.len() as int, key, kind) >= shared_threshold(values.len())
}

proof fn lemma_members_like(
    members: Seq<(Seq<char>, Json)>,
    n: int,
    key: Seq<char>,
    kind: JsonValueKind,
)
    requires
        0 <= n <= members.len(),
    ensures
        members_like(members, n, key, kind) <= n,
        members_like(members, n, key, kind) > 0 ==> exists|j: int|
            0 <= j < n && (#[trigger] members[j]).0 == key && json_value::kind_of(members[j].1) == kind,
    decreases n,
{
    if n > 0 {
        lemma_members_like(members, n - 1, key, kind);
        if members[n - 1].0 == key && json_value::kind_of(members[n - 1].1) == kind {
        } else if members_like(members, n, key, kind) > 0 {
            let j = choose|j: int|
                0 <= j < n - 1 && (#[trigger] members[j]).0 == key && json_value::kind_of(members[j].1) == kind;
            assert(members[j].0 == key);
        }
    }
}

proof fn lemma_shared_by(values: Seq<Json>, n: int, key: Seq<char>, kind: JsonValueKind)
    requires
        0 <= n <= values.len(),
        shared_by(values, n, key, kind) > 0,
    ensures
        exists|i: int, j: int| #[trigger]
            member_is(values, i, j, key, kind) && i < n,
    decreases n,
{
    if n > 0 {
        let last = match values[n - 1] {
            Json::Object(members) => members_like(members, members.len() as int, key, kind),
            _ => 0nat,
        };
        if last > 0 {
            let members = values[n - 1]->Object_0;
            lemma_members_like(members, members.len() as int, key, kind);
            let j = choose|j: int|
                0 <= j < members.len() && (#[trigger] members[j]).0 == key && json_value::kind_of(members[j].1)
                    == kind;
            assert(member_is(values, n - 1, j, key, kind));
        } else {
            lemma_shared_by(values, n - 1, key, kind);
            let (i, j) = choose|i: int, j: int| #[trigger]
                member_is(values, i, j, key, kind) && i < n - 1;
            assert(member_is(values, i, j, key, kind));
        }
    }
}

spec fn member_is(
    values: Seq<Json>,
    i: int,
    j: int,
    key: Seq<char>,
    kind: JsonValueKind,
) -> bool {
    &&& 0 <= i < values.len()
    &&& values[i] matches Json::Object(members) && 0 <= j < members.len() && members[j].0 == key
        && json_value::kind_of(members[j].1) == kind
}

fn count_members(members: &Vec<(String, JsonValue)>, key: &str, kind: JsonValueKind) -> (r: usize)
    ensures
        r == members_like(json_value::member_views(members@), members@.len() as int, key@, kind),
{
    let ghost all = json_value::member_views(members@);
    let mut count: usize = 0;
    let mut i: usize = 0;
    while i < members.len()
        invariant
            i <= members.len(),
            all == json_value::member_views(members@),
            count <= i,
            count == members_like(all, i as int, key@, kind),
        decreases members@.len() - i,
    {
        if same(&members[i].0, key) && json_value_kind(&members[i].1) == kind {
            count = count + 1;
        }
        i = i + 1;
    }
    count
}

fn is_shared(
    values: &Vec<JsonValue>,
    key: &str,
    kind: JsonValueKind,
    threshold: usize,
) -> (r: bool)
    ensures
        r == (shared_by(json_value::json_views(values@), values@.len() as int, key@, kind) >= threshold),
{
    let ghost all = json_value::json_views(values@);
    let mut left: usize = threshold;
    let mut i: usize = 0;
    while i < values.len()
        invariant
            i <= values@.len(),
            all == json_value::json_views(values@),
            left <= threshold,
            left == 0 ==> shared_by(all, i as int, key@, kind) >= threshold,
            left > 0 ==> shared_by(all, i as int, key@, kind) == threshold - left,
        decreases values@.len() - i,
    {
        assert(all[i as int] == values@[i as int]@);
        match &values[i] {
            JsonValue::Object(members) => {
                proof {
                    json_value::lemma_object_model(*members);
                }
                let found: usize = count_members(members, key, kind);
                if found >= left {
                    left = 0;
                } else {
                    left = left - found;
                }
            },
            _ => {},
        }
        i = i + 1;
    }
    left == 0
}

/// Whether values are the entries of a map.
pub fn values_are_keyed_object(values: &Vec<JsonValue>) -> (r: bool)
    ensures
        r == is_keyed(json_value::json_views(values@)),
{
    let ghost all = json_value::json_views(values@);
    if values.len() < 3 {
        return false;
    }
    let mut i: usize = 0;
    while i < values.len()
        invariant
            i <= values@.len(),
            all == json_value::json_views(values@),
            forall|k: int| 0 <= k < i ==> (#[trigger] all[k]) is Object,
        decreases values@.len() - i,
    {
        assert(all[i as int] == values@[i as int]@);
        match &values[i] {
            JsonValue::Object(_) => {},
            _ => {
                assert(!(all[i as int] is Object));
                return false;
            },
        }
        i = i + 1;
    }
    let count: usize = values.len();
    let tripled: usize = count.saturating_add(count).saturating_add(count);
    let threshold: usize = if tripled % 4 != 0 {
        tripled / 4 + 1
    } else {
        tripled / 4
    };
    let mut i: usize = 0;
    while i < values.len()
        invariant
            i <= values@.len(),
            all == json_value::json_views(values@),
            all.len() >= 3,
            forall|k: int| 0 <= k < all.len() ==> (#[trigger] all[k]) is Object,
            threshold == shared_threshold(all.len()),
            forall|a: int, b: int, key: Seq<char>, kind: JsonValueKind| #[trigger]
                member_is(all, a, b, key, kind) && a < i ==> shared_by(
                    all,
                    all.len() as int,
                    key,
                    kind,
                ) < threshold,
        decreases values@.len() - i,
    {
        assert(all[i as int] == values@[i as int]@);
        match &values[i] {
            JsonValue::Object(members) => {
                proof {
                    json_value::lemma_object_model(*members);
                }
                let ghost model = json_value::member_views(members@);
                let mut j: usize = 0;
                while j < members.len()
                    invariant
                        i < values@.len(),
                        j <= members@.len(),
                        all == json_value::json_views(values@),
                        all.len() >= 3,
                        forall|k: int| 0 <= k < all.len() ==> (#[trigger] all[k]) is Object,
                        threshold == shared_threshold(all.len()),
                        model == json_value::member_views(members@),
                        all[i as int] == Json::Object(model),
                        forall|b: int|
                            0 <= b < j ==> #[trigger] shared_by(
                                all,
                                all.len() as int,
                                model[b].0,
                                json_value::kind_of(model[b].1),
                            ) < threshold,
                    decreases members@.len() - j,
                {
                    let kind = json_value_kind(&members[j].1);
                    if is_shared(values, &members[j].0, kind, threshold) {
                        return true;
                    }
                    j = j + 1;
                }
                assert forall|a: int, b: int, key: Seq<char>, kind: JsonValueKind| #[trigger]
                    member_is(all, a, b, key, kind) && a < i + 1 implies shared_by(
                    all,
                    all.len() as int,
                    key,
                    kind,
                ) < threshold by {
                    if a == i {
                        assert(shared_by(
                            all,
                            all.len() as int,
                            model[b].0,
                            json_value::kind_of(model[b].1),
                        ) < threshold);
                    }
                }
            },
            _ => {},
        }
        i = i + 1;
    }
    proof {
        if is_keyed(all) {
            let (key, kind) = choose|key: Seq<char>, kind: JsonValueKind| #[trigger]
                shared_by(all, all.len() as int, key, kind) >= shared_threshold(all.len());
            lemma_shared_by(all, all.len() as int, key, kind);
            let (a, b) = choose|a: int, b: int| #[trigger]
                member_is(all, a, b, key, kind) && a < all.len();
            assert(member_is(all, a, b, key, kind));
        }
    }
    false
}

/// Whether the entries at the head of an object make it a map of entries.
pub open spec fn entries_are_keyed(entries: Seq<EntryModel>) -> bool {
    is_keyed(entry_values(entries).take(sample_size(entries, 0, 0)))
}

/// A member that is no object is one cell with its own value under the path of its name;
/// an empty object is one cell too, and the members of any other stand below its path.
pub proof fn members_stand_below_their_path(
    members: Seq<(Seq<char>, Json)>,
    name: Seq<char>,
    value: Json,
    prefix: Seq<char>,
)
    ensures
        flat_members(Seq::empty(), 0, prefix).len() == 0,
        ({
            let path = prefix.push('/') + options::escaped(name);
            let whole = members.push((name, value));
            let before = flat_members(members, members.len() as int, prefix);
            let after = flat_members(whole, whole.len() as int, prefix);
            &&& value !is Object ==> after == before.push(
                FlatModel {
                    path,
                    value: json_value::cell_of(value),
                    identity: IdentityModel::StructuredPath(path),
                },
            )
            &&& value == Json::Object(Seq::empty()) ==> after == before.push(
                FlatModel {
                    path,
                    value: CellModel::Json(seq!['{', '}']),
                    identity: IdentityModel::StructuredPath(path),
                },
            )
            &&& value matches Json::Object(nested) ==> (nested.len() > 0 ==> after == before
                + flat_members(nested, nested.len() as int, path))
        }),
{
    reveal_strlit("{}");
    assert("{}"@ =~= seq!['{', '}']);
    let path = prefix.push('/') + options::escaped(name);
    assert(prefix + seq!['/'] + options::escaped(name) =~= path);
    let whole = members.push((name, value));
    let n = members.len() as int;
    lemma_members_before(members, (name, value), n, prefix);
    let before = flat_members(members, n, prefix);
    let after = flat_members(whole, n + 1, prefix);
    assert(flat_members(whole, n + 1 - 1, prefix) == before);
    assert(after == before + flat_member(value, path));
    if value !is Object || value == Json::Object(Seq::empty()) {
        assert(after =~= before.push(flat_member(value, path)[0]));
    }
}

proof fn lemma_members_before(
    members: Seq<(Seq<char>, Json)>,
    last: (Seq<char>, Json),
    n: int,
    prefix: Seq<char>,
)
    requires
        0 <= n <= members.len(),
    ensures
        flat_members(members.push(last), n, prefix) == flat_members(members, n, prefix),
    decreases n,
{
    if n > 0 {
        lemma_members_before(members, last, n - 1, prefix);
        assert(members.push(last)[n - 1] == members[n - 1]);
    }
}

/// An array is one cell for each item at its place, and a scalar is one cell at the
/// first place.
pub proof fn items_stand_at_their_places(items: Seq<Json>, i: int, scalar: Json)
    requires
        0 <= i < items.len(),
        scalar !is Object,
        scalar !is Array,
    ensures
        flat_cells(Json::Array(items)).len() == items.len(),
        flat_cells(Json::Array(items))[i].value == json_value::cell_of(items[i]),
        flat_cells(Json::Array(items))[i].path == seq!['/'] + text::decimal(i as nat),
        flat_cells(Json::Array(items))[i].identity == IdentityModel::Positional(i as usize),
        flat_cells(scalar).len() == 1,
        flat_cells(scalar)[0].value == json_value::cell_of(scalar),
        flat_cells(scalar)[0].path == seq!['/', '0'],
        flat_cells(scalar)[0].identity == IdentityModel::Positional(0),
{
    reveal_strlit("/0");
    assert("/0"@ =~= seq!['/', '0']);
}

/// The row of an entry begins with its key as text, and holds its members behind it, or
/// its value under a name of its own.
pub proof fn entries_begin_with_their_key(
    key: Seq<char>,
    value: Json,
    members: Seq<(Seq<char>, Json)>,
    size: u64,
)
    requires
        value !is Object,
    ensures
        keyed_row(key, value, size).cells.len() == 2,
        keyed_row(key, value, size).cells[0].value == CellModel::Text(key),
        keyed_row(key, value, size).cells[0].identity is ObjectKey,
        keyed_row(key, value, size).cells[1].value == json_value::cell_of(value),
        keyed_row(key, value, size).cells[1].path == seq!['/', 'v', 'a', 'l', 'u', 'e'],
        keyed_row(key, value, size).source_bytes == size,
        keyed_row(key, Json::Object(members), size).cells[0].value == CellModel::Text(key),
        keyed_row(key, Json::Object(members), size).cells.skip(1) == flat_members(
            members,
            members.len() as int,
            Seq::empty(),
        ),
{
    reveal_strlit("/value");
    assert("/value"@ =~= seq!['/', 'v', 'a', 'l', 'u', 'e']);
    assert(keyed_row(key, Json::Object(members), size).cells.skip(1) =~= flat_members(
        members,
        members.len() as int,
        Seq::empty(),
    ));
}

/// The size of a row is that of its text in UTF-8.
pub proof fn rows_have_the_size_of_their_text(value: Json)
    ensures
        flat_row(value).cells == flat_cells(value),
        encode_utf8(json_value::compact(value)).len() <= usize::MAX ==> flat_row(value).source_bytes
            == encode_utf8(json_value::compact(value)).len(),
{
}

/// A key selects the first member of that name in an object, and the item of that number
/// in an array; a scalar has nothing to select.
pub proof fn keys_select_members_and_items(
    members: Seq<(Seq<char>, Json)>,
    items: Seq<Json>,
    key: Seq<char>,
    i: int,
    scalar: Json,
)
    requires
        scalar !is Object,
        scalar !is Array,
        items.len() <= usize::MAX,
    ensures
        0 <= i < members.len() && members[i].0 == key && (forall|k: int|
            0 <= k < i ==> (#[trigger] members[k]).0 != key) ==> child(Json::Object(members), key)
            == Some(members[i].1),
        (forall|k: int| 0 <= k < members.len() ==> (#[trigger] members[k]).0 != key) ==> child(
            Json::Object(members),
            key,
        ) is None,
        0 <= i < items.len() ==> child(Json::Array(items), text::decimal(i as nat)) == Some(
            items[i],
        ),
        i >= items.len() ==> child(Json::Array(items), text::decimal(i as nat)) is None,
        child(scalar, key) is None,
{
    lemma_first_member(members, key, i);
    if i >= 0 {
        text::numbers_read_back(i as nat, usize::MAX as nat);
    }
}

proof fn lemma_first_member(members: Seq<(Seq<char>, Json)>, key: Seq<char>, i: int)
    ensures
        0 <= i < members.len() && members[i].0 == key && (forall|k: int|
            0 <= k < i ==> (#[trigger] members[k]).0 != key) ==> member_place(members, key) == i,
        (forall|k: int| 0 <= k < members.len() ==> (#[trigger] members[k]).0 != key)
            ==> member_place(members, key) == members.len(),
    decreases members.len(),
{
    if members.len() > 0 {
        let rest = members.drop_first();
        lemma_first_member(rest, key, i - 1);
        if members[0].0 != key {
            assert forall|k: int|
                0 <= k < i - 1 && k < rest.len() && (forall|j: int|
                    0 <= j < i ==> (#[trigger] members[j]).0 != key) implies (#[trigger] rest[k]).0
                != key by {
                assert(rest[k] == members[k + 1]);
            }
            if 0 < i < members.len() {
                assert(rest[i - 1] == members[i]);
                if forall|j: int| 0 <= j < i ==> (#[trigger] members[j]).0 != key {
                    assert forall|k: int| 0 <= k < i - 1 implies (#[trigger] rest[k]).0 != key by {
                        assert(rest[k] == members[k + 1]);
                    }
                }
            }
            if forall|k: int| 0 <= k < members.len() ==> (#[trigger] members[k]).0 != key {
                assert forall|k: int| 0 <= k < rest.len() implies (#[trigger] rest[k]).0 != key by {
                    assert(rest[k] == members[k + 1]);
                }
            }
        }
    }
}

/// A path is followed key by key, the first key first.
pub proof fn paths_are_followed_key_by_key(root: Json, key: Seq<char>, rest: Seq<Seq<char>>)
    ensures
        selected(root, Seq::empty()) == Some(root),
        child(root, key) is None ==> selected(root, seq![key] + rest) is None,
        child(root, key) matches Some(value) ==> selected(root, seq![key] + rest) == selected(
            value,
            rest,
        ),
{
    assert((seq![key] + rest).drop_first() =~= rest);
    assert((seq![key] + rest)[0] == key);
}

/// A document gives one row of what the path selects in it, where that is a container;
/// a missing path and a scalar are told apart.
pub proof fn documents_give_one_row(document: Json, path: PathModel)
    ensures
        selected(document, path.keys) is None ==> document_row(document, path) == Err::<
            FlatRowModel,
            JsonErrorModel,
        >(JsonErrorModel::PathMissing(path.text)),
        selected(document, path.keys) matches Some(value) ==> (document_row(document, path) is Ok
            <==> value is Object || value is Array),
        selected(document, path.keys) matches Some(value) ==> (value is Object || value is Array
            ==> document_row(document, path) == Ok::<FlatRowModel, JsonErrorModel>(
            flat_row(value),
        )),
        selected(document, path.keys) matches Some(value) ==> (value !is Object && value !is Array
            ==> document_row(document, path) == Err::<FlatRowModel, JsonErrorModel>(
            JsonErrorModel::NotContainer,
        )),
{
}

/// Documents give their rows in their order, and the first that gives none decides the
/// error; a fault behind them is told only where all of them gave a row.
pub proof fn documents_give_their_rows_in_order(
    documents: Seq<(Json, usize)>,
    n: int,
    path: PathModel,
    i: int,
    fault: FaultModel,
)
    requires
        0 <= n <= documents.len(),
        0 <= i < n,
    ensures
        document_rows(documents, n, path) matches Ok(rows) ==> rows.len() == n && document_row(
            documents[i].0,
            path,
        ) == Ok::<FlatRowModel, JsonErrorModel>(rows[i]),
        document_row(documents[i].0, path) is Err ==> document_rows(documents, n, path) is Err,
        document_row(documents[i].0, path) is Err && document_rows(documents, i, path) is Ok
            ==> document_rows(documents, n, path)->Err_0 == document_row(
            documents[i].0,
            path,
        )->Err_0,
        document_rows(documents, documents.len() as int, path) matches Ok(rows) ==> stream_rows(
            (documents, None),
            path,
        ) == Ok::<Seq<FlatRowModel>, JsonErrorModel>(rows),
        document_rows(documents, documents.len() as int, path) is Ok ==> stream_rows(
            (documents, Some(fault)),
            path,
        ) == Err::<Seq<FlatRowModel>, JsonErrorModel>(JsonErrorModel::Json(fault)),
        document_rows(documents, documents.len() as int, path) matches Err(e) ==> stream_rows(
            (documents, Some(fault)),
            path,
        ) == Err::<Seq<FlatRowModel>, JsonErrorModel>(e),
    decreases n,
{
    if i < n - 1 {
        documents_give_their_rows_in_order(documents, n - 1, path, i, fault);
    } else if n > 1 {
        documents_give_their_rows_in_order(documents, n - 1, path, 0, fault);
    }
}

/// Entries are looked at until there are enough or they are large enough, and no more.
pub proof fn samples_are_bounded(entries: Seq<EntryModel>, i: int, bytes: u64)
    requires
        0 <= i,
    ensures
        i <= sample_size(entries, i, bytes),
        i <= entries.len() ==> sample_size(entries, i, bytes) <= entries.len(),
        i <= OBJECT_DETECTION_MAX_ENTRIES ==> sample_size(entries, i, bytes)
            <= OBJECT_DETECTION_MAX_ENTRIES,
        i < entries.len() && i < OBJECT_DETECTION_MAX_ENTRIES ==> sample_size(entries, i, bytes) > i,
        i < entries.len() && i < OBJECT_DETECTION_MAX_ENTRIES && bytes
            + entries[i].encoded_len >= OBJECT_DETECTION_MAX_BYTES ==> sample_size(
            entries,
            i,
            bytes,
        ) == i + 1,
        i < entries.len() && i < OBJECT_DETECTION_MAX_ENTRIES && bytes
            + entries[i].encoded_len < OBJECT_DETECTION_MAX_BYTES ==> sample_size(
            entries,
            i,
            bytes,
        ) == sample_size(entries, i + 1, (bytes + entries[i].encoded_len) as u64),
    decreases entries.len() - i,
{
    if i < entries.len() && i < OBJECT_DETECTION_MAX_ENTRIES {
        let taken = bytes.saturating_add(entries[i].encoded_len);
        samples_are_bounded(entries, i + 1, taken);
    }
}

/// An object looks like entries where it has three values or more, all of them objects,
/// and at least three quarters share a member of one name and kind.
pub proof fn entries_share_a_member(values: Seq<Json>, i: int, key: Seq<char>, kind: JsonValueKind)
    ensures
        values.len() < 3 ==> !is_keyed(values),
        0 <= i < values.len() && values[i] !is Object ==> !is_keyed(values),
        values.len() >= 3 && values.len() <= usize::MAX / 3 && (forall|k: int|
            0 <= k < values.len() ==> (#[trigger] values[k]) is Object) && 4 * shared_by(
            values,
            values.len() as int,
            key,
            kind,
        ) >= 3 * values.len() ==> is_keyed(values),
        values.len() <= usize::MAX / 3 && is_keyed(values) ==> exists|k: Seq<char>, t: JsonValueKind|
            4 * #[trigger] shared_by(values, values.len() as int, k, t) >= 3 * values.len(),
{
    let n = values.len();
    if n <= usize::MAX / 3 {
        assert(shared_threshold(n) == (3 * n) / 4 + if (3 * n) % 4 != 0 {
            1int
        } else {
            0
        });
        if is_keyed(values) {
            let (k, t) = choose|k: Seq<char>, t: JsonValueKind| #[trigger]
                shared_by(values, n as int, k, t) >= shared_threshold(n);
            assert(4 * shared_by(values, n as int, k, t) >= 3 * n);
        }
        if 4 * shared_by(values, n as int, key, kind) >= 3 * n {
            assert(shared_by(values, n as int, key, kind) >= shared_threshold(n));
        }
    }
}

/// A member is shared by each object that has it, in that name and that kind.
pub proof fn members_are_counted_by_name_and_kind(
    values: Seq<Json>,
    members: Seq<(Seq<char>, Json)>,
    member: (Seq<char>, Json),
    key: Seq<char>,
    kind: JsonValueKind,
)
    ensures
        shared_by(Seq::empty(), 0, key, kind) == 0,
        ({
            let whole = members.push(member);
            members_like(whole, whole.len() as int, key, kind) == members_like(
                members,
                members.len() as int,
                key,
                kind,
            ) + if member.0 == key && json_value::kind_of(member.1) == kind {
                1nat
            } else {
                0
            }
        }),
        ({
            let whole = values.push(Json::Object(members));
            shared_by(whole, whole.len() as int, key, kind) == shared_by(
                values,
                values.len() as int,
                key,
                kind,
            ) + members_like(members, members.len() as int, key, kind)
        }),
{
    lemma_counted_before(members, member, members.len() as int, key, kind);
    lemma_shared_before(values, Json::Object(members), values.len() as int, key, kind);
}

proof fn lemma_counted_before(
    members: Seq<(Seq<char>, Json)>,
    member: (Seq<char>, Json),
    n: int,
    key: Seq<char>,
    kind: JsonValueKind,
)
    requires
        0 <= n <= members.len(),
    ensures
        members_like(members.push(member), n, key, kind) == members_like(members, n, key, kind),
    decreases n,
{
    if n > 0 {
        lemma_counted_before(members, member, n - 1, key, kind);
    }
}

proof fn lemma_shared_before(
    values: Seq<Json>,
    value: Json,
    n: int,
    key: Seq<char>,
    kind: JsonValueKind,
)
    requires
        0 <= n <= values.len(),
    ensures
        shared_by(values.push(value), n, key, kind) == shared_by(values, n, key, kind),
    decreases n,
{
    if n > 0 {
        lemma_shared_before(values, value, n - 1, key, kind);
    }
}

/// An item of an array stands before a comma or the closing bracket, which makes it the
/// last.
pub proof fn items_stand_before_their_separators(bytes: Seq<u8>, at: int)
    requires
        0 <= at <= bytes.len(),
    ensures
        ({
            let start = json_scan::solid(bytes, at);
            let step = item_step(bytes, at);
            &&& start >= bytes.len() ==> step == Err::<PartStep, JsonErrorModel>(
                JsonErrorModel::UnterminatedSelectedArray,
            )
            &&& start < bytes.len() && bytes[start] == ']' as u8 ==> step == Ok::<
                PartStep,
                JsonErrorModel,
            >(PartStep::End(start + 1))
            &&& step matches Ok(PartStep::Part { start: from, end, next, last }) ==> {
                &&& from == start
                &&& json_scan::next_byte(bytes, end) == Some(
                    (
                        if last {
                            ']' as u8
                        } else {
                            ',' as u8
                        },
                        next,
                    ),
                )
                &&& json_scan::value_range(bytes, start) == Ok::<(int, int), JsonErrorModel>(
                    (from, end),
                )
            }
        }),
{
    json_scan::lemma_solid(bytes, at);
    json_scan::lemma_solid_stays(bytes, at);
}

/// The rows of an array are those of its items in their order, up to the bracket.
pub proof fn array_rows_follow_their_items(
    bytes: Seq<u8>,
    at: int,
    start: int,
    end: int,
    next: int,
    last: bool,
    value: Json,
)
    requires
        0 <= at <= bytes.len(),
        item_step(bytes, at) == Ok::<PartStep, JsonErrorModel>(
            PartStep::Part { start, end, next, last },
        ),
        json_value::json_read(bytes.subrange(start, end)) == Ok::<
            Json,
            crate::json_value::FaultModel,
        >(value),
    ensures
        last ==> array_rows(bytes, at) == Ok::<Seq<FlatRowModel>, JsonErrorModel>(
            seq![flat_row(value)],
        ),
        !last && array_rows(bytes, next) is Ok ==> array_rows(bytes, at) is Ok && array_rows(
            bytes,
            at,
        )->Ok_0 == seq![flat_row(value)] + array_rows(bytes, next)->Ok_0,
        !last && array_rows(bytes, next) is Err ==> array_rows(bytes, at) == array_rows(
            bytes,
            next,
        ),
{
    lemma_item_step(bytes, at);
}

/// The entries of an object follow each other in their order, each with its key, its value
/// and the length of its text, up to the brace.
pub proof fn object_entries_follow_in_order(
    bytes: Seq<u8>,
    at: int,
    start: int,
    end: int,
    next: int,
    last: bool,
    key: Seq<char>,
    from: int,
    value: Json,
)
    requires
        0 <= at <= bytes.len(),
        entry_step(bytes, at) == Ok::<(PartStep, Seq<char>, int), JsonErrorModel>(
            (PartStep::Part { start, end, next, last }, key, from),
        ),
        json_value::json_read(bytes.subrange(from, end)) == Ok::<
            Json,
            crate::json_value::FaultModel,
        >(value),
    ensures
        ({
            let entry = EntryModel { key, value, encoded_len: (end - start) as u64 };
            &&& last ==> object_entries(bytes, at) == Ok::<Seq<EntryModel>, JsonErrorModel>(
                seq![entry],
            )
            &&& !last && object_entries(bytes, next) is Ok ==> object_entries(bytes, at) is Ok
                && object_entries(bytes, at)->Ok_0 == seq![entry] + object_entries(
                bytes,
                next,
            )->Ok_0
        }),
        json_scan::next_byte(bytes, end) == Some(
            (
                if last {
                    '}' as u8
                } else {
                    ',' as u8
                },
                next,
            ),
        ),
{
    lemma_entry_step(bytes, at);
}

} // verus!
