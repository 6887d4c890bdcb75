//! How a JSON document is laid out in its text, and what that means for finding
//! a value in the text without reading the rest of it.

use vstd::prelude::*;

use crate::json_rows;
use crate::json_scan::{self, JsonErrorModel};
use crate::json_value::{self, FaultModel, Json};
use crate::text;

verus! {

// ---------------------------------------------------------------------------
// The text of a value
// ---------------------------------------------------------------------------

/// Whether a byte can stand in a number or in one of the names `null`, `true`
/// and `false`.
pub open spec fn scalar_byte(b: u8) -> bool {
    0x30 <= b <= 0x39 || 0x41 <= b <= 0x5a || 0x61 <= b <= 0x7a || b == 0x2b || b == 0x2d || b
        == 0x2e
}

/// The position behind the text of a value, where one begins at `at`.
///
/// A string is read from its bytes, and so is a number or a name, which goes on
/// to the next white space, comma or closing bracket; the parts of an array or
/// an object come in the order in which the value holds them.
pub open spec fn text_end(bytes: Seq<u8>, at: int, value: Json) -> Option<int>
    decreases value, 0int,
{
    if !(0 <= at < bytes.len()) {
        None
    } else {
        match value {
            Json::Text(s) => if bytes[at] == 0x22 {
                match json_scan::string_end(bytes, at + 1) {
                    Some(end) => if json_value::json_string_read(bytes.subrange(at, end)) == Ok::<
                        Seq<char>,
                        FaultModel,
                    >(s) {
                        Some(end)
                    } else {
                        None
                    },
                    None => None,
                }
            } else {
                None
            },
            Json::Array(items) => if bytes[at] == 0x5b {
                items_end(bytes, at + 1, items, items.len() as int)
            } else {
                None
            },
            Json::Object(members) => if bytes[at] == 0x7b {
                members_end(bytes, at + 1, members, members.len() as int)
            } else {
                None
            },
            _ => {
                let end = json_scan::scalar_end(bytes, at);
                if end > at && (forall|i: int| at <= i < end ==> scalar_byte(#[trigger] bytes[i]))
                    && json_value::json_read(bytes.subrange(at, end)) == Ok::<Json, FaultModel>(value) {
                    Some(end)
                } else {
                    None
                }
            },
        }
    }
}

/// The position behind an array of which the last `left` items are still to
/// come, from `at` on.
pub open spec fn items_end(bytes: Seq<u8>, at: int, items: Seq<Json>, left: int) -> Option<int>
    decreases items, left,
{
    if left <= 0 || left > items.len() {
        match json_scan::next_byte(bytes, at) {
            Some((0x5d, end)) => Some(end),
            _ => None,
        }
    } else {
        match text_end(bytes, json_scan::solid(bytes, at), items[items.len() - left]) {
            Some(end) => match json_scan::next_byte(bytes, end) {
                Some((0x2c, next)) => if left > 1 {
                    items_end(bytes, next, items, left - 1)
                } else {
                    None
                },
                Some((0x5d, behind)) => if left == 1 {
                    Some(behind)
                } else {
                    None
                },
                _ => None,
            },
            None => None,
        }
    }
}

/// The position behind an object of which the last `left` members are still to
/// come, from `at` on.
pub open spec fn members_end(
    bytes: Seq<u8>,
    at: int,
    members: Seq<(Seq<char>, Json)>,
    left: int,
) -> Option<int>
    decreases members, left,
{
    if left <= 0 || left > members.len() {
        match json_scan::next_byte(bytes, at) {
            Some((0x7d, end)) => Some(end),
            _ => None,
        }
    } else {
        match json_scan::key_at(bytes, at) {
            Ok((key, key_end)) => if key == members[members.len() - left].0 {
                match json_scan::next_byte(bytes, key_end) {
                    Some((0x3a, colon)) => match text_end(
                        bytes,
                        json_scan::solid(bytes, colon),
                        members[members.len() - left].1,
                    ) {
                        Some(end) => match json_scan::next_byte(bytes, end) {
                            Some((0x2c, next)) => if left > 1 {
                                members_end(bytes, next, members, left - 1)
                            } else {
                                None
                            },
                            Some((0x7d, behind)) => if left == 1 {
                                Some(behind)
                            } else {
                                None
                            },
                            _ => None,
                        },
                        None => None,
                    },
                    _ => None,
                }
            } else {
                None
            },
            Err(_) => None,
        }
    }
}

// ---------------------------------------------------------------------------
// Skipping a value
// ---------------------------------------------------------------------------

proof fn lemma_skip_space(bytes: Seq<u8>, at: int, open: Seq<u8>)
    requires
        0 <= at <= bytes.len(),
        open.len() > 0,
    ensures
        json_scan::container_end(bytes, at, open) == json_scan::container_end(bytes, json_scan::solid(bytes, at), open),
        at <= json_scan::solid(bytes, at) <= bytes.len(),
    decreases bytes.len() - at,
{
    if at < bytes.len() && json_scan::is_space(bytes[at]) {
        lemma_skip_space(bytes, at + 1, open);
    }
}

proof fn lemma_skip_plain(bytes: Seq<u8>, at: int, end: int, open: Seq<u8>)
    requires
        0 <= at <= end <= bytes.len(),
        open.len() > 0,
        forall|i: int| at <= i < end ==> scalar_byte(#[trigger] bytes[i]),
    ensures
        json_scan::container_end(bytes, at, open) == json_scan::container_end(bytes, end, open),
    decreases end - at,
{
    if at < end {
        assert(scalar_byte(bytes[at]));
        lemma_skip_plain(bytes, at + 1, end, open);
    }
}

/// Within open containers, the text of a value is passed over as a whole.
proof fn lemma_skip_text(bytes: Seq<u8>, at: int, value: Json, open: Seq<u8>)
    requires
        text_end(bytes, at, value) is Some,
    ensures
        0 <= at < text_end(bytes, at, value)->0 <= bytes.len(),
        open.len() > 0 ==> json_scan::container_end(bytes, at, open) == json_scan::container_end(
            bytes,
            text_end(bytes, at, value)->0,
            open,
        ),
    decreases value, 0int,
{
    match value {
        Json::Text(_) => {
            json_scan::lemma_string_end(bytes, at + 1);
        },
        Json::Array(items) => {
            lemma_skip_items(bytes, at + 1, items, items.len() as int, open);
        },
        Json::Object(members) => {
            lemma_skip_members(bytes, at + 1, members, members.len() as int, open);
        },
        _ => {
            json_scan::lemma_scalar_end(bytes, at);
            if open.len() > 0 {
                lemma_skip_plain(bytes, at, json_scan::scalar_end(bytes, at), open);
            }
        },
    }
}

proof fn lemma_skip_items(bytes: Seq<u8>, at: int, items: Seq<Json>, left: int, open: Seq<u8>)
    requires
        0 <= at <= bytes.len(),
        0 <= left <= items.len(),
        items_end(bytes, at, items, left) is Some,
    ensures
        at < items_end(bytes, at, items, left)->0 <= bytes.len(),
        json_scan::container_end(bytes, at, open.push(0x5b)) == json_scan::container_end(
            bytes,
            items_end(bytes, at, items, left)->0,
            open,
        ),
    decreases items, left,
{
    let deeper = open.push(0x5b);
    assert(deeper.drop_last() =~= open);
    assert(deeper.last() == 0x5b);
    lemma_skip_space(bytes, at, deeper);
    if left > 0 {
        let start = json_scan::solid(bytes, at);
        let item = items[items.len() - left];
        assert(decreases_to!(items => items[items.len() - left]));
        lemma_skip_text(bytes, start, item, deeper);
        let end = text_end(bytes, start, item)->0;
        lemma_skip_space(bytes, end, deeper);
        if left > 1 {
            lemma_skip_items(bytes, json_scan::solid(bytes, end) + 1, items, left - 1, open);
        }
    }
}

proof fn lemma_skip_members(
    bytes: Seq<u8>,
    at: int,
    members: Seq<(Seq<char>, Json)>,
    left: int,
    open: Seq<u8>,
)
    requires
        0 <= at <= bytes.len(),
        0 <= left <= members.len(),
        members_end(bytes, at, members, left) is Some,
    ensures
        at < members_end(bytes, at, members, left)->0 <= bytes.len(),
        json_scan::container_end(bytes, at, open.push(0x7b)) == json_scan::container_end(
            bytes,
            members_end(bytes, at, members, left)->0,
            open,
        ),
    decreases members, left,
{
    let deeper = open.push(0x7b);
    assert(deeper.drop_last() =~= open);
    assert(deeper.last() == 0x7b);
    lemma_skip_space(bytes, at, deeper);
    if left > 0 {
        let start = json_scan::solid(bytes, at);
        json_scan::lemma_key_at(bytes, at);
        json_scan::lemma_string_end(bytes, start + 1);
        let key_end = json_scan::key_at(bytes, at)->Ok_0.1;
        assert(json_scan::container_end(bytes, start, deeper) == json_scan::container_end(bytes, key_end, deeper));
        lemma_skip_space(bytes, key_end, deeper);
        let colon = json_scan::solid(bytes, key_end) + 1;
        lemma_skip_space(bytes, colon, deeper);
        let value = members[members.len() - left].1;
        assert(decreases_to!(members => members[members.len() - left].1));
        lemma_skip_text(bytes, json_scan::solid(bytes, colon), value, deeper);
        let end = text_end(bytes, json_scan::solid(bytes, colon), value)->0;
        lemma_skip_space(bytes, end, deeper);
        if left > 1 {
            lemma_skip_members(bytes, json_scan::solid(bytes, end) + 1, members, left - 1, open);
        }
    }
}

/// Where the text of a value comes next, skipping a value goes from its first
/// byte to the position behind it.
pub proof fn skipping_passes_the_text(bytes: Seq<u8>, at: int, value: Json)
    requires
        0 <= at <= bytes.len(),
        text_end(bytes, json_scan::solid(bytes, at), value) is Some,
    ensures
        json_scan::value_range(bytes, at) == Ok::<(int, int), JsonErrorModel>(
            (json_scan::solid(bytes, at), text_end(bytes, json_scan::solid(bytes, at), value)->0),
        ),
{
    let start = json_scan::solid(bytes, at);
    let none = Seq::<u8>::empty();
    lemma_skip_text(bytes, start, value, none);
    match value {
        Json::Text(_) => {},
        Json::Array(items) => {
            lemma_skip_items(bytes, start + 1, items, items.len() as int, none);
            assert(none.push(0x5b) =~= seq![bytes[start]]);
        },
        Json::Object(members) => {
            lemma_skip_members(bytes, start + 1, members, members.len() as int, none);
            assert(none.push(0x7b) =~= seq![bytes[start]]);
        },
        _ => {
            assert(scalar_byte(bytes[start]));
        },
    }
}

// ---------------------------------------------------------------------------
// Finding a value
// ---------------------------------------------------------------------------

/// Whether a search in the text and a choice in the value come to the same: both
/// find something, and the text of what was chosen begins where the search ended,
/// or neither does.
pub open spec fn agrees(
    bytes: Seq<u8>,
    found: Result<int, JsonErrorModel>,
    chosen: Option<Json>,
) -> bool {
    match (found, chosen) {
        (Ok(at), Some(value)) => text_end(bytes, at, value) is Some,
        (Err(_), None) => true,
        _ => false,
    }
}

proof fn lemma_place_behind(members: Seq<(Seq<char>, Json)>, n: int, key: Seq<char>)
    requires
        0 <= n < members.len(),
    ensures
        members[n].0 == key ==> json_rows::member_place(members.skip(n), key) == 0,
        members[n].0 != key ==> json_rows::member_place(members.skip(n), key) == 1 + json_rows::member_place(
            members.skip(n + 1),
            key,
        ),
{
    assert(members.skip(n)[0] == members[n]);
    assert(members.skip(n).drop_first() =~= members.skip(n + 1));
}

/// What a path selects among the members from `n` on.
spec fn selected_behind(
    members: Seq<(Seq<char>, Json)>,
    n: int,
    keys: Seq<Seq<char>>,
) -> Option<Json> {
    let place = n + json_rows::member_place(members.skip(n), keys[0]);
    if place < members.len() {
        json_rows::selected(members[place].1, keys.drop_first())
    } else {
        None
    }
}

proof fn lemma_located_member(
    bytes: Seq<u8>,
    at: int,
    keys: Seq<Seq<char>>,
    members: Seq<(Seq<char>, Json)>,
    left: int,
)
    requires
        0 <= at <= bytes.len(),
        keys.len() > 0,
        0 <= left <= members.len(),
        members_end(bytes, at, members, left) is Some,
    ensures
        agrees(
            bytes,
            json_scan::located_member(bytes, at, keys),
            selected_behind(members, members.len() - left, keys),
        ),
    decreases keys.len(), 0int, left,
{
    let n = members.len() - left;
    json_scan::lemma_solid(bytes, at);
    json_scan::lemma_solid_stays(bytes, at);
    if left > 0 {
        lemma_place_behind(members, n, keys[0]);
        let value = members[n].1;
        json_scan::lemma_key_at(bytes, at);
        let (key, key_end) = json_scan::key_at(bytes, at)->Ok_0;
        assert(json_scan::key_at(bytes, json_scan::solid(bytes, at)) == json_scan::key_at(bytes, at));
        json_scan::lemma_next_byte(bytes, key_end);
        let colon = json_scan::solid(bytes, key_end) + 1;
        json_scan::lemma_solid(bytes, colon);
        if key == keys[0] {
            searching_agrees_with_selecting(bytes, colon, keys.drop_first(), value);
        } else {
            skipping_passes_the_text(bytes, colon, value);
            json_scan::lemma_value_range(bytes, colon);
            let end = text_end(bytes, json_scan::solid(bytes, colon), value)->0;
            json_scan::lemma_next_byte(bytes, end);
            if left > 1 {
                lemma_located_member(bytes, json_scan::solid(bytes, end) + 1, keys, members, left - 1);
            } else {
                assert(members.skip(n + 1).len() == 0);
            }
        }
    } else {
        assert(members.skip(n).len() == 0);
    }
}

proof fn lemma_located_item(
    bytes: Seq<u8>,
    at: int,
    keys: Seq<Seq<char>>,
    items: Seq<Json>,
    left: int,
    before: nat,
)
    requires
        0 <= at <= bytes.len(),
        keys.len() > 0,
        0 <= left <= items.len(),
        items_end(bytes, at, items, left) is Some,
    ensures
        agrees(
            bytes,
            json_scan::located_item(bytes, at, keys, before),
            if before < left {
                json_rows::selected(items[items.len() - left + before], keys.drop_first())
            } else {
                None
            },
        ),
    decreases keys.len(), 0int, left,
{
    let start = json_scan::solid(bytes, at);
    json_scan::lemma_solid(bytes, at);
    json_scan::lemma_solid_stays(bytes, at);
    if left > 0 {
        let item = items[items.len() - left];
        lemma_text_begins(bytes, start, item);
        if before == 0 {
            searching_agrees_with_selecting(bytes, start, keys.drop_first(), item);
        } else {
            skipping_passes_the_text(bytes, start, item);
            json_scan::lemma_value_range(bytes, start);
            let end = text_end(bytes, start, item)->0;
            json_scan::lemma_next_byte(bytes, end);
            if left > 1 {
                lemma_located_item(
                    bytes,
                    json_scan::solid(bytes, end) + 1,
                    keys,
                    items,
                    left - 1,
                    (before - 1) as nat,
                );
            }
        }
    }
}

/// The first byte of a value tells its kind, and closes nothing.
proof fn lemma_text_begins(bytes: Seq<u8>, at: int, value: Json)
    requires
        text_end(bytes, at, value) is Some,
    ensures
        0 <= at < bytes.len(),
        bytes[at] != 0x5d && bytes[at] != 0x7d && !json_scan::is_space(bytes[at]),
        bytes[at] == 0x5b <==> value is Array,
        bytes[at] == 0x7b <==> value is Object,
{
    match value {
        Json::Text(_) => {},
        Json::Array(_) => {},
        Json::Object(_) => {},
        _ => {
            assert(scalar_byte(bytes[at]));
        },
    }
}

/// A path finds a value in the text of a document exactly if it selects one in
/// the document, and then the text of that value begins where it was found.
pub proof fn searching_agrees_with_selecting(bytes: Seq<u8>, at: int, keys: Seq<Seq<char>>, document: Json)
    requires
        0 <= at <= bytes.len(),
        text_end(bytes, json_scan::solid(bytes, at), document) is Some,
    ensures
        agrees(bytes, json_scan::located(bytes, at, keys), json_rows::selected(document, keys)),
    decreases keys.len(), 1int, 0int,
{
    let start = json_scan::solid(bytes, at);
    json_scan::lemma_solid(bytes, at);
    lemma_text_begins(bytes, start, document);
    if keys.len() > 0 {
        match document {
            Json::Object(members) => {
                assert(members.skip(0) =~= members);
                lemma_located_member(bytes, start + 1, keys, members, members.len() as int);
            },
            Json::Array(items) => {
                if let Some(target) = text::unsigned_value(keys[0], usize::MAX as nat) {
                    lemma_located_item(
                        bytes,
                        start + 1,
                        keys,
                        items,
                        items.len() as int,
                        target,
                    );
                }
            },
            _ => {},
        }
    }
}

} // verus!
