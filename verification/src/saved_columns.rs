//! Which columns of a table a saved view speaks of.

use vstd::prelude::*;

use crate::patterns::{self, column_glob_matches, is_wildcard_pattern, wildcard_specificity};
use crate::saved_colors::{self, SavedViewWarning, WarningModel, warn};
use crate::saved_views::{self, ColumnView, ColumnViewModel, SavedView};
use crate::table::{self, ColumnModel, SchemaState, TableDefinition};
use crate::text::{
    self, concat2, contains_text, precedes_text, same, same_ignoring_case, starts_with_char,
};

verus! {

/// How a column of a table is shown, and under which key a view says so.
#[derive(Debug, PartialEq, Eq)]
pub struct ResolvedColumnView {
    pub column_index: usize,
    pub source_key: String,
    pub view: ColumnView,
}

/// What a view says of the columns of a table: for each column, for columns that
/// may still be found, and what it says in vain.
#[derive(Debug, PartialEq, Eq)]
pub struct ResolvedColumns {
    pub columns: Vec<Option<ResolvedColumnView>>,
    pub pending: Vec<(String, ColumnView)>,
    pub warnings: Vec<SavedViewWarning>,
}

// ---------------------------------------------------------------------------
// Columns by their headers
// ---------------------------------------------------------------------------

/// The place of the first key from `from` on that is the header, whatever the case
/// of its letters, or the number of keys.
pub open spec fn header_place(
    columns: Seq<(Seq<char>, ColumnViewModel)>,
    header: Seq<char>,
    from: int,
) -> int
    decreases columns.len() - from,
{
    if from < 0 || from >= columns.len() {
        columns.len() as int
    } else if text::lower(columns[from].0) == text::lower(header) {
        from
    } else {
        header_place(columns, header, from + 1)
    }
}

/// Whether a pattern is to be preferred: the one that says more comes first, then
/// the order of the keys.
pub open spec fn preferred(a: Seq<char>, b: Seq<char>) -> bool {
    patterns::specificity(a) > patterns::specificity(b) || (patterns::specificity(a) == patterns::specificity(b) && text::text_before(a, b))
}

/// The place of the preferred one among the first `n` patterns that fit a header.
pub open spec fn pattern_place(
    columns: Seq<(Seq<char>, ColumnViewModel)>,
    header: Seq<char>,
    n: int,
) -> Option<int>
    decreases n,
{
    if n <= 0 || n > columns.len() {
        None
    } else {
        let before = pattern_place(columns, header, n - 1);
        let key = columns[n - 1].0;
        if patterns::is_wildcard(key) && patterns::column_fits(key, header) && (before is None || preferred(
            key,
            columns[before->0].0,
        )) {
            Some(n - 1)
        } else {
            before
        }
    }
}

/// The place of what a view says of a header.
pub open spec fn header_config(columns: Seq<(Seq<char>, ColumnViewModel)>, header: Seq<char>) -> Option<
    int,
> {
    let exact = header_place(columns, header, 0);
    if exact < columns.len() {
        Some(exact)
    } else {
        pattern_place(columns, header, columns.len() as int)
    }
}

fn find_header(columns: &Vec<(String, ColumnView)>, header: &str) -> (r: Option<usize>)
    ensures
        match (r, header_config(saved_views::keyed_views(columns@), header@)) {
            (Some(i), Some(m)) => i == m && i < columns@.len(),
            (None, None) => true,
            _ => false,
        },
{
    let ghost all = saved_views::keyed_views(columns@);
    let mut i: usize = 0;
    while i < columns.len()
        invariant
            i <= columns@.len(),
            all == saved_views::keyed_views(columns@),
            header_place(all, header@, 0) == header_place(all, header@, i as int),
        decreases columns@.len() - i,
    {
        if same_ignoring_case(&columns[i].0, header) {
            return Some(i);
        }
        i = i + 1;
    }
    let mut best: Option<usize> = None;
    let mut i: usize = 0;
    while i < columns.len()
        invariant
            i <= columns@.len(),
            all == saved_views::keyed_views(columns@),
            match (best, pattern_place(all, header@, i as int)) {
                (Some(b), Some(m)) => b == m && b < i,
                (None, None) => true,
                _ => false,
            },
        decreases columns@.len() - i,
    {
        assert(all[i as int].0 == columns@[i as int].0@);
        if is_wildcard_pattern(&columns[i].0) && column_glob_matches(&columns[i].0, header) {
            let better = match best {
                None => true,
                Some(b) => {
                    assert(all[b as int].0 == columns@[b as int].0@);
                    let x: usize = wildcard_specificity(&columns[i].0);
                    let y: usize = wildcard_specificity(&columns[b].0);
                    x > y || (x == y && precedes_text(&columns[i].0, &columns[b].0))
                },
            };
            if better {
                best = Some(i);
            }
        }
        i = i + 1;
    }
    best
}

/// Whether a column is shown as a place of a view's columns says, or as none.
pub open spec fn resolved_as(
    resolved: Option<ResolvedColumnView>,
    column: int,
    columns: Seq<(Seq<char>, ColumnViewModel)>,
    config: Option<int>,
) -> bool {
    match (resolved, config) {
        (Some(found), Some(k)) => {
            &&& found.column_index == column
            &&& found.source_key@ == columns[k].0
            &&& found.view@ == columns[k].1
        },
        (None, None) => true,
        _ => false,
    }
}

fn resolve_at(columns: &Vec<(String, ColumnView)>, at: usize, column_index: usize) -> (r:
    ResolvedColumnView)
    requires
        at < columns@.len(),
    ensures
        resolved_as(
            Some(r),
            column_index as int,
            saved_views::keyed_views(columns@),
            Some(at as int),
        ),
{
    ResolvedColumnView {
        column_index,
        source_key: columns[at].0.clone(),
        view: columns[at].1.clone(),
    }
}

/// Whether one of the places holds the given key.
pub open spec fn key_used(
    columns: Seq<(Seq<char>, ColumnViewModel)>,
    configs: Seq<Option<int>>,
    key: Seq<char>,
) -> bool {
    exists|i: int|
        0 <= i < configs.len() && (#[trigger] configs[i]) is Some && columns[configs[i]->0].0 == key
}

/// The places of what a view says of each header.
pub open spec fn header_configs(
    columns: Seq<(Seq<char>, ColumnViewModel)>,
    headers: Seq<Seq<char>>,
) -> Seq<Option<int>> {
    Seq::new(headers.len(), |i: int| header_config(columns, headers[i]))
}

/// What is said of the first `n` keys that no column has.
pub open spec fn unused_warnings(
    columns: Seq<(Seq<char>, ColumnViewModel)>,
    configs: Seq<Option<int>>,
    n: int,
) -> Seq<WarningModel>
    decreases n,
{
    if n <= 0 || n > columns.len() {
        saved_colors::silent()
    } else {
        let before = unused_warnings(columns, configs, n - 1);
        if key_used(columns, configs, columns[n - 1].0) {
            before
        } else {
            before + saved_colors::warned(
                "view.columns."@ + columns[n - 1].0,
                "configured column matched no header"@,
            )
        }
    }
}

fn is_key_used(resolved: &Vec<Option<ResolvedColumnView>>, key: &str) -> (r: bool)
    ensures
        r == exists|i: int|
            0 <= i < resolved@.len() && (#[trigger] resolved@[i]) is Some
                && resolved@[i]->0.source_key@ == key@,
{
    let mut i: usize = 0;
    while i < resolved.len()
        invariant
            i <= resolved@.len(),
            forall|k: int|
                0 <= k < i ==> !((#[trigger] resolved@[k]) is Some && resolved@[k]->0.source_key@
                    == key@),
        decreases resolved@.len() - i,
    {
        match &resolved[i] {
            Some(found) => if same(&found.source_key, key) {
                return true;
            },
            None => {},
        }
        i = i + 1;
    }
    false
}

proof fn lemma_key_used(
    resolved: Seq<Option<ResolvedColumnView>>,
    columns: Seq<(Seq<char>, ColumnViewModel)>,
    configs: Seq<Option<int>>,
    key: Seq<char>,
)
    requires
        resolved.len() == configs.len(),
        forall|i: int|
            0 <= i < configs.len() ==> resolved_as(#[trigger] resolved[i], i, columns, configs[i]),
    ensures
        key_used(columns, configs, key) == exists|i: int|
            0 <= i < resolved.len() && (#[trigger] resolved[i]) is Some
                && resolved[i]->0.source_key@ == key,
{
    if key_used(columns, configs, key) {
        let i = choose|i: int|
            0 <= i < configs.len() && (#[trigger] configs[i]) is Some && columns[configs[i]->0].0
                == key;
        assert(resolved_as(resolved[i], i, columns, configs[i]));
        assert(resolved[i] is Some);
    }
    if exists|i: int|
        0 <= i < resolved.len() && (#[trigger] resolved[i]) is Some && resolved[i]->0.source_key@
            == key {
        let i = choose|i: int|
            0 <= i < resolved.len() && (#[trigger] resolved[i]) is Some
                && resolved[i]->0.source_key@ == key;
        assert(resolved_as(resolved[i], i, columns, configs[i]));
        assert(configs[i] is Some);
    }
}

/// Whether the columns of a view are found by their headers.
pub open spec fn is_header_resolution(
    r: ResolvedColumns,
    view: SavedView,
    headers: Seq<Seq<char>>,
) -> bool {
    let columns = saved_views::keyed_views(view.view.columns@);
    let configs = header_configs(columns, headers);
    &&& r.columns@.len() == headers.len()
    &&& forall|i: int|
        0 <= i < headers.len() ==> resolved_as(
            #[trigger] r.columns@[i],
            i,
            columns,
            configs[i],
        )
    &&& r.pending@.len() == 0
    &&& saved_colors::warning_views(r.warnings@) == unused_warnings(
        columns,
        configs,
        columns.len() as int,
    )
}

/// What a view says of the columns of a table that are known by their headers.
pub fn resolve_columns(view: &SavedView, headers: &Vec<String>) -> (r: ResolvedColumns)
    ensures
        is_header_resolution(r, *view, text::views(headers@)),
{
    let ghost columns = saved_views::keyed_views(view.view.columns@);
    let ghost configs = header_configs(columns, text::views(headers@));
    let mut resolved: Vec<Option<ResolvedColumnView>> = Vec::new();
    let mut i: usize = 0;
    while i < headers.len()
        invariant
            i <= headers@.len(),
            columns == saved_views::keyed_views(view.view.columns@),
            configs == header_configs(columns, text::views(headers@)),
            resolved@.len() == i,
            forall|k: int|
                0 <= k < i ==> resolved_as(#[trigger] resolved@[k], k, columns, configs[k]),
        decreases headers@.len() - i,
    {
        let found = match find_header(&view.view.columns, &headers[i]) {
            Some(at) => Some(resolve_at(&view.view.columns, at, i)),
            None => None,
        };
        resolved.push(found);
        i = i + 1;
    }
    let mut warnings: Vec<SavedViewWarning> = Vec::new();
    let mut k: usize = 0;
    assert(saved_colors::warning_views(warnings@) =~= saved_colors::silent());
    while k < view.view.columns.len()
        invariant
            k <= view.view.columns@.len(),
            columns == saved_views::keyed_views(view.view.columns@),
            resolved@.len() == configs.len(),
            forall|j: int|
                0 <= j < configs.len() ==> resolved_as(
                    #[trigger] resolved@[j],
                    j,
                    columns,
                    configs[j],
                ),
            saved_colors::warning_views(warnings@) == unused_warnings(columns, configs, k as int),
        decreases view.view.columns@.len() - k,
    {
        let key = &view.view.columns[k].0;
        assert(columns[k as int].0 == key@);
        proof {
            lemma_key_used(resolved@, columns, configs, key@);
        }
        if !is_key_used(&resolved, key) {
            warn(
                &mut warnings,
                &concat2("view.columns.", key),
                "configured column matched no header",
            );
        }
        k = k + 1;
    }
    ResolvedColumns { columns: resolved, pending: Vec::new(), warnings }
}

// ---------------------------------------------------------------------------
// Columns by their keys
// ---------------------------------------------------------------------------

/// The place of the first equal key from `from` on, or the number of keys.
pub open spec fn key_place(
    columns: Seq<(Seq<char>, ColumnViewModel)>,
    key: Seq<char>,
    from: int,
) -> int
    decreases columns.len() - from,
{
    if from < 0 || from >= columns.len() {
        columns.len() as int
    } else if columns[from].0 == key {
        from
    } else {
        key_place(columns, key, from + 1)
    }
}

/// Whether a view has an entry for a key.
pub open spec fn has_key(columns: Seq<(Seq<char>, ColumnViewModel)>, key: Seq<char>) -> bool {
    key_place(columns, key, 0) < columns.len()
}

/// The place of what a view says of a column: under the key of the column, or else
/// under its label where no other column has it.
pub open spec fn structured_config(
    columns: Seq<(Seq<char>, ColumnViewModel)>,
    table: Seq<ColumnModel>,
    i: int,
) -> Option<int> {
    let label = table[i].display_name;
    if table::column_key(table, i) is Some && has_key(columns, table::column_key(table, i)->0) {
        Some(key_place(columns, table::column_key(table, i)->0, 0))
    } else if table::label_count(table, table.len() as int, label) == 1 && has_key(columns, label) {
        Some(key_place(columns, label, 0))
    } else {
        None
    }
}

/// The places of what a view says of each column.
pub open spec fn structured_configs(
    columns: Seq<(Seq<char>, ColumnViewModel)>,
    table: Seq<ColumnModel>,
) -> Seq<Option<int>> {
    Seq::new(table.len(), |i: int| structured_config(columns, table, i))
}

/// Whether a view speaks of a column by a label that other columns have too.
pub open spec fn is_ambiguous(
    columns: Seq<(Seq<char>, ColumnViewModel)>,
    table: Seq<ColumnModel>,
    i: int,
) -> bool {
    let label = table[i].display_name;
    &&& !(table::column_key(table, i) is Some && has_key(columns, table::column_key(table, i)->0))
    &&& table::label_count(table, table.len() as int, label) != 1
    &&& has_key(columns, label)
}

/// The labels of the first `n` columns that a view uses though they are ambiguous,
/// each once.
pub open spec fn ambiguous_labels(
    columns: Seq<(Seq<char>, ColumnViewModel)>,
    table: Seq<ColumnModel>,
    n: int,
) -> Seq<Seq<char>>
    decreases n,
{
    if n <= 0 || n > table.len() {
        Seq::empty()
    } else {
        let before = ambiguous_labels(columns, table, n - 1);
        let label = table[n - 1].display_name;
        if is_ambiguous(columns, table, n - 1) && !before.contains(label) {
            before.push(label)
        } else {
            before
        }
    }
}

/// What is said of ambiguous labels.
pub open spec fn ambiguity_warnings(labels: Seq<Seq<char>>) -> Seq<WarningModel> {
    Seq::new(
        labels.len(),
        |i: int|
            WarningModel {
                field: "view.columns."@ + labels[i],
                message: "display label is ambiguous; use a canonical source key such as name#2"@,
            },
    )
}

/// The keys among the first `n` that may still be found: paths that no column has
/// while columns can still be added.
pub open spec fn pending_keys(
    columns: Seq<(Seq<char>, ColumnViewModel)>,
    configs: Seq<Option<int>>,
    provisional: bool,
    n: int,
) -> Seq<(Seq<char>, ColumnViewModel)>
    decreases n,
{
    if n <= 0 || n > columns.len() {
        Seq::empty()
    } else {
        let before = pending_keys(columns, configs, provisional, n - 1);
        let key = columns[n - 1].0;
        if !key_used(columns, configs, key) && provisional && key.len() > 0 && key[0] == '/' {
            before.push(columns[n - 1])
        } else {
            before
        }
    }
}

/// What is said of the first `n` keys that no column has and none will have.
pub open spec fn unmatched_warnings(
    columns: Seq<(Seq<char>, ColumnViewModel)>,
    configs: Seq<Option<int>>,
    provisional: bool,
    n: int,
) -> Seq<WarningModel>
    decreases n,
{
    if n <= 0 || n > columns.len() {
        saved_colors::silent()
    } else {
        let before = unmatched_warnings(columns, configs, provisional, n - 1);
        let key = columns[n - 1].0;
        if key_used(columns, configs, key) || (provisional && key.len() > 0 && key[0] == '/') {
            before
        } else {
            before + saved_colors::warned(
                "view.columns."@ + key,
                "configured column matched no structured source column"@,
            )
        }
    }
}

fn find_key(columns: &Vec<(String, ColumnView)>, key: &str) -> (r: usize)
    ensures
        r == key_place(saved_views::keyed_views(columns@), key@, 0),
        r <= columns@.len(),
{
    let ghost all = saved_views::keyed_views(columns@);
    let mut i: usize = 0;
    while i < columns.len()
        invariant
            i <= columns@.len(),
            all == saved_views::keyed_views(columns@),
            key_place(all, key@, 0) == key_place(all, key@, i as int),
        decreases columns@.len() - i,
    {
        if same(&columns[i].0, key) {
            return i;
        }
        i = i + 1;
    }
    i
}

fn count_label_of(definition: &TableDefinition, label: &str) -> (r: usize)
    ensures
        r == table::label_count(
            table::column_views(definition.columns@),
            definition.columns@.len() as int,
            label@,
        ),
{
    let ghost table = table::column_views(definition.columns@);
    let mut count: usize = 0;
    let mut i: usize = 0;
    while i < definition.columns.len()
        invariant
            i <= definition.columns.len(),
            table == table::column_views(definition.columns@),
            count <= i,
            count == table::label_count(table, i as int, label@),
        decreases definition.columns@.len() - i,
    {
        assert(table[i as int] == definition.columns@[i as int]@);
        if same(&definition.columns[i].display_name, label) {
            count = count + 1;
        }
        i = i + 1;
    }
    count
}

fn find_structured(view: &SavedView, definition: &TableDefinition, index: usize) -> (r: (
    Option<usize>,
    bool,
))
    requires
        index < definition.columns@.len(),
    ensures
        ({
            let columns = saved_views::keyed_views(view.view.columns@);
            let table = table::column_views(definition.columns@);
            &&& match (r.0, structured_config(columns, table, index as int)) {
                (Some(at), Some(m)) => at == m && at < columns.len(),
                (None, None) => true,
                _ => false,
            }
            &&& r.1 == is_ambiguous(columns, table, index as int)
        }),
{
    let ghost table = table::column_views(definition.columns@);
    assert(table[index as int] == definition.columns@[index as int]@);
    if let Some(key) = definition.canonical_column_key(index) {
        let at: usize = find_key(&view.view.columns, &key);
        if at < view.view.columns.len() {
            return (Some(at), false);
        }
    }
    let label = &definition.columns[index].display_name;
    let at: usize = find_key(&view.view.columns, label);
    let known = at < view.view.columns.len();
    if count_label_of(definition, label) == 1 {
        if known {
            (Some(at), false)
        } else {
            (None, false)
        }
    } else {
        (None, known)
    }
}

/// Whether the columns of a view are found by the keys and labels of a table.
pub open spec fn is_structured_resolution(
    r: ResolvedColumns,
    view: SavedView,
    definition: TableDefinition,
) -> bool {
    let columns = saved_views::keyed_views(view.view.columns@);
    let table = table::column_views(definition.columns@);
    let configs = structured_configs(columns, table);
    let provisional = definition.schema_state is Provisional;
    &&& r.columns@.len() == table.len()
    &&& forall|i: int|
        0 <= i < table.len() ==> resolved_as(
            #[trigger] r.columns@[i],
            i,
            columns,
            configs[i],
        )
    &&& saved_views::keyed_views(r.pending@) == pending_keys(
        columns,
        configs,
        provisional,
        columns.len() as int,
    )
    &&& saved_colors::warning_views(r.warnings@) == ambiguity_warnings(
        ambiguous_labels(columns, table, table.len() as int),
    ) + unmatched_warnings(columns, configs, provisional, columns.len() as int)
}

/// What a view says of the columns of a table that are known by their keys.
pub fn resolve_structured_columns(view: &SavedView, definition: &TableDefinition) -> (r:
    ResolvedColumns)
    ensures
        is_structured_resolution(r, *view, *definition),
{
    let ghost columns = saved_views::keyed_views(view.view.columns@);
    let ghost table = table::column_views(definition.columns@);
    let ghost configs = structured_configs(columns, table);
    let mut resolved: Vec<Option<ResolvedColumnView>> = Vec::new();
    let mut warned_labels: Vec<String> = Vec::new();
    let mut warnings: Vec<SavedViewWarning> = Vec::new();
    let mut i: usize = 0;
    assert(text::views(warned_labels@) =~= Seq::<Seq<char>>::empty());
    assert(saved_colors::warning_views(warnings@) =~= ambiguity_warnings(Seq::empty()));
    while i < definition.columns.len()
        invariant
            i <= definition.columns@.len(),
            columns == saved_views::keyed_views(view.view.columns@),
            table == table::column_views(definition.columns@),
            configs == structured_configs(columns, table),
            resolved@.len() == i,
            forall|k: int|
                0 <= k < i ==> resolved_as(#[trigger] resolved@[k], k, columns, configs[k]),
            text::views(warned_labels@) == ambiguous_labels(columns, table, i as int),
            saved_colors::warning_views(warnings@) == ambiguity_warnings(text::views(warned_labels@)),
        decreases definition.columns@.len() - i,
    {
        assert(table[i as int] == definition.columns@[i as int]@);
        let (found, ambiguous) = find_structured(view, definition, i);
        let shown = match found {
            Some(at) => Some(resolve_at(&view.view.columns, at, i)),
            None => None,
        };
        resolved.push(shown);
        let label = &definition.columns[i].display_name;
        if ambiguous && !contains_text(&warned_labels, label) {
            let ghost known = text::views(warned_labels@);
            let copy = label.clone();
            proof {
                text::lemma_views_push(warned_labels@, copy);
            }
            warn(
                &mut warnings,
                &concat2("view.columns.", label),
                "display label is ambiguous; use a canonical source key such as name#2",
            );
            warned_labels.push(copy);
            assert(saved_colors::warning_views(warnings@) =~= ambiguity_warnings(known.push(label@)));
        }
        i = i + 1;
    }
    let ghost start = saved_colors::warning_views(warnings@);
    let provisional = definition.schema_state == SchemaState::Provisional;
    let mut pending: Vec<(String, ColumnView)> = Vec::new();
    let mut k: usize = 0;
    assert(saved_views::keyed_views(pending@) =~= Seq::<(Seq<char>, ColumnViewModel)>::empty());
    assert(start + saved_colors::silent() =~= start);
    while k < view.view.columns.len()
        invariant
            k <= view.view.columns@.len(),
            columns == saved_views::keyed_views(view.view.columns@),
            resolved@.len() == configs.len(),
            forall|j: int|
                0 <= j < configs.len() ==> resolved_as(
                    #[trigger] resolved@[j],
                    j,
                    columns,
                    configs[j],
                ),
            saved_views::keyed_views(pending@) == pending_keys(columns, configs, provisional, k as int),
            saved_colors::warning_views(warnings@) == start + unmatched_warnings(
                columns,
                configs,
                provisional,
                k as int,
            ),
        decreases view.view.columns@.len() - k,
    {
        let key = &view.view.columns[k].0;
        assert(columns[k as int] == (key@, view.view.columns@[k as int].1@));
        let ghost before = unmatched_warnings(columns, configs, provisional, k as int);
        proof {
            lemma_key_used(resolved@, columns, configs, key@);
        }
        if !is_key_used(&resolved, key) {
            if provisional && starts_with_char(key, '/') {
                let entry = (key.clone(), view.view.columns[k].1.clone());
                assert(saved_views::keyed_views(pending@.push(entry)) =~= saved_views::keyed_views(pending@).push(
                    (entry.0@, entry.1@),
                ));
                pending.push(entry);
            } else {
                warn(
                    &mut warnings,
                    &concat2("view.columns.", key),
                    "configured column matched no structured source column",
                );
                assert(saved_colors::warning_views(warnings@) =~= start + (before + saved_colors::warned(
                    "view.columns."@ + key@,
                    "configured column matched no structured source column"@,
                )));
            }
        }
        k = k + 1;
    }
    ResolvedColumns { columns: resolved, pending, warnings }
}

// ---------------------------------------------------------------------------
// References to columns
// ---------------------------------------------------------------------------

/// The place of the first header from `from` on that is the key, whatever the case
/// of its letters, or the number of headers.
pub open spec fn named_header(headers: Seq<Seq<char>>, key: Seq<char>, from: int) -> int
    decreases headers.len() - from,
{
    if from < 0 || from >= headers.len() {
        headers.len() as int
    } else if text::lower(key) == text::lower(headers[from]) {
        from
    } else {
        named_header(headers, key, from + 1)
    }
}

/// The place of the first header from `from` on that a pattern fits, or the number
/// of headers.
pub open spec fn fitting_header(headers: Seq<Seq<char>>, key: Seq<char>, from: int) -> int
    decreases headers.len() - from,
{
    if from < 0 || from >= headers.len() {
        headers.len() as int
    } else if patterns::is_wildcard(key) && patterns::column_fits(key, headers[from]) {
        from
    } else {
        fitting_header(headers, key, from + 1)
    }
}

/// The column that a key refers to: the one of that name, or the first that it fits
/// as a pattern.
pub open spec fn column_referred(headers: Seq<Seq<char>>, key: Seq<char>) -> Option<int> {
    if named_header(headers, key, 0) < headers.len() {
        Some(named_header(headers, key, 0))
    } else if fitting_header(headers, key, 0) < headers.len() {
        Some(fitting_header(headers, key, 0))
    } else {
        None
    }
}

/// The column that a key refers to.
pub fn resolve_column_reference(headers: &Vec<String>, key: &str) -> (r: Option<usize>)
    ensures
        match (r, column_referred(text::views(headers@), key@)) {
            (Some(i), Some(m)) => i == m && i < headers@.len(),
            (None, None) => true,
            _ => false,
        },
{
    let ghost all = text::views(headers@);
    let mut i: usize = 0;
    while i < headers.len()
        invariant
            i <= headers@.len(),
            all == text::views(headers@),
            named_header(all, key@, 0) == named_header(all, key@, i as int),
        decreases headers@.len() - i,
    {
        if same_ignoring_case(key, &headers[i]) {
            return Some(i);
        }
        i = i + 1;
    }
    let wild = is_wildcard_pattern(key);
    let mut i: usize = 0;
    while i < headers.len()
        invariant
            i <= headers@.len(),
            all == text::views(headers@),
            wild == patterns::is_wildcard(key@),
            named_header(all, key@, 0) == all.len(),
            fitting_header(all, key@, 0) == fitting_header(all, key@, i as int),
        decreases headers@.len() - i,
    {
        assert(all[i as int] == headers@[i as int]@);
        if wild && column_glob_matches(key, &headers[i]) {
            return Some(i);
        }
        i = i + 1;
    }
    None
}

/// The column that a key refers to: the one with that key, or the only one with
/// that label.
pub fn resolve_structured_column_reference(definition: &TableDefinition, key: &str) -> (r: Option<
    usize,
>)
    ensures
        match (r, table::column_named(table::column_views(definition.columns@), key@)) {
            (Some(i), Ok(m)) => i == m && i < definition.columns@.len(),
            (None, Err(_)) => true,
            _ => false,
        },
{
    match definition.find_column(key) {
        Ok(i) => Some(i),
        Err(_) => None,
    }
}

// ---------------------------------------------------------------------------
// Laws
// ---------------------------------------------------------------------------

/// Each key of a view is used by a column, may still be found, or is warned of; and
/// none is both pending and warned of.
pub proof fn keys_are_used_pending_or_warned(
    columns: Seq<(Seq<char>, ColumnViewModel)>,
    configs: Seq<Option<int>>,
    provisional: bool,
    n: int,
)
    requires
        0 <= n <= columns.len(),
    ensures
        pending_keys(columns, configs, provisional, n).len() + unmatched_warnings(
            columns,
            configs,
            provisional,
            n,
        ).len() + used_count(columns, configs, n) == n,
    decreases n,
{
    if n > 0 {
        keys_are_used_pending_or_warned(columns, configs, provisional, n - 1);
    }
}

/// How many of the first `n` keys a column uses.
pub open spec fn used_count(
    columns: Seq<(Seq<char>, ColumnViewModel)>,
    configs: Seq<Option<int>>,
    n: int,
) -> nat
    decreases n,
{
    if n <= 0 || n > columns.len() {
        0
    } else {
        used_count(columns, configs, n - 1) + if key_used(columns, configs, columns[n - 1].0) {
            1nat
        } else {
            0nat
        }
    }
}

/// A pattern is used for a header only where no key is the header itself.
pub proof fn exact_keys_outrank_patterns(
    columns: Seq<(Seq<char>, ColumnViewModel)>,
    header: Seq<char>,
    at: int,
)
    requires
        0 <= at < columns.len(),
        text::lower(columns[at].0) == text::lower(header),
    ensures
        header_config(columns, header) is Some,
        text::lower(columns[header_config(columns, header)->0].0) == text::lower(header),
{
    lemma_header_place(columns, header, 0, at);
}

proof fn lemma_header_place(
    columns: Seq<(Seq<char>, ColumnViewModel)>,
    header: Seq<char>,
    from: int,
    at: int,
)
    requires
        0 <= from <= at < columns.len(),
        text::lower(columns[at].0) == text::lower(header),
    ensures
        from <= header_place(columns, header, from) <= at,
        text::lower(columns[header_place(columns, header, from)].0) == text::lower(header),
    decreases columns.len() - from,
{
    if text::lower(columns[from].0) != text::lower(header) {
        lemma_header_place(columns, header, from + 1, at);
    }
}

/// Where no key is the header, the pattern that fits it with the most characters of its
/// own is used, and of those the first in the order of texts; a key that fits in
/// neither way is never used.
pub proof fn closest_pattern_is_used(
    columns: Seq<(Seq<char>, ColumnViewModel)>,
    header: Seq<char>,
    k: int,
)
    requires
        0 <= k < columns.len(),
    ensures
        header_config(columns, header) matches Some(at) ==> 0 <= at < columns.len() && (text::lower(
            columns[at].0,
        ) == text::lower(header) || (patterns::is_wildcard(columns[at].0) && patterns::column_fits(
            columns[at].0,
            header,
        ))),
        patterns::is_wildcard(columns[k].0) && patterns::column_fits(columns[k].0, header)
            ==> header_config(columns, header) is Some,
        patterns::is_wildcard(columns[k].0) && patterns::column_fits(columns[k].0, header)
            && text::lower(columns[header_config(columns, header)->0].0) != text::lower(header) ==> {
            let used = columns[header_config(columns, header)->0].0;
            &&& patterns::specificity(used) >= patterns::specificity(columns[k].0)
            &&& patterns::specificity(used) == patterns::specificity(columns[k].0)
                ==> !text::text_before(columns[k].0, used)
        },
{
    lemma_place_found(columns, header, 0);
    lemma_pattern_place(columns, header, columns.len() as int, k);
}

proof fn lemma_place_found(
    columns: Seq<(Seq<char>, ColumnViewModel)>,
    header: Seq<char>,
    from: int,
)
    requires
        0 <= from <= columns.len(),
    ensures
        from <= header_place(columns, header, from) <= columns.len(),
        header_place(columns, header, from) < columns.len() ==> text::lower(
            columns[header_place(columns, header, from)].0,
        ) == text::lower(header),
    decreases columns.len() - from,
{
    if from < columns.len() && text::lower(columns[from].0) != text::lower(header) {
        lemma_place_found(columns, header, from + 1);
    }
}

proof fn lemma_pattern_place(
    columns: Seq<(Seq<char>, ColumnViewModel)>,
    header: Seq<char>,
    n: int,
    k: int,
)
    requires
        0 <= n <= columns.len(),
    ensures
        pattern_place(columns, header, n) matches Some(at) ==> 0 <= at < n && patterns::is_wildcard(
            columns[at].0,
        ) && patterns::column_fits(columns[at].0, header),
        0 <= k < n && patterns::is_wildcard(columns[k].0) && patterns::column_fits(
            columns[k].0,
            header,
        ) ==> {
            &&& pattern_place(columns, header, n) is Some
            &&& patterns::specificity(columns[pattern_place(columns, header, n)->0].0)
                >= patterns::specificity(columns[k].0)
            &&& patterns::specificity(columns[pattern_place(columns, header, n)->0].0)
                == patterns::specificity(columns[k].0) ==> !text::text_before(
                columns[k].0,
                columns[pattern_place(columns, header, n)->0].0,
            )
        },
    decreases n,
{
    if n > 0 {
        lemma_pattern_place(columns, header, n - 1, k);
        let last = columns[n - 1].0;
        text::text_order(last, last, last);
        if let Some(b) = pattern_place(columns, header, n - 1) {
            let known = columns[b].0;
            text::text_order(last, known, columns[k].0);
            text::text_order(known, last, columns[k].0);
            text::text_order(columns[k].0, last, known);
        }
    }
}

/// A column of a structured table is shown as its key says, or else as its label says
/// where no other column has that label; a label that several have decides nothing, and
/// is told.
pub proof fn keys_outrank_labels(
    columns: Seq<(Seq<char>, ColumnViewModel)>,
    table: Seq<ColumnModel>,
    i: int,
)
    requires
        0 <= i < table.len(),
    ensures
        ({
            let key = table::column_key(table, i);
            let label = table[i].display_name;
            let by_key = exists|k: int|
                0 <= k < columns.len() && Some((#[trigger] columns[k]).0) == key;
            let by_label = exists|k: int| 0 <= k < columns.len() && (#[trigger] columns[k]).0 == label;
            let used = structured_config(columns, table, i);
            &&& used matches Some(at) ==> 0 <= at < columns.len()
            &&& by_key ==> used is Some && Some(columns[used->0].0) == key
            &&& !by_key && by_label && table::label_count(table, table.len() as int, label) == 1
                ==> used is Some && columns[used->0].0 == label
            &&& !by_key && by_label && table::label_count(table, table.len() as int, label) > 1
                ==> used is None && is_ambiguous(columns, table, i)
            &&& !by_key && !by_label ==> used is None
            &&& used is Some ==> !is_ambiguous(columns, table, i)
        }),
{
    let key = table::column_key(table, i);
    lemma_key_place(columns, table[i].display_name, 0);
    if key is Some {
        lemma_key_place(columns, key->0, 0);
    }
    lemma_labels_counted(table, table.len() as int, i);
}

proof fn lemma_key_place(columns: Seq<(Seq<char>, ColumnViewModel)>, key: Seq<char>, from: int)
    requires
        0 <= from <= columns.len(),
    ensures
        from <= key_place(columns, key, from) <= columns.len(),
        key_place(columns, key, from) < columns.len() ==> columns[key_place(columns, key, from)].0
            == key,
        key_place(columns, key, from) < columns.len() <==> exists|k: int|
            from <= k < columns.len() && (#[trigger] columns[k]).0 == key,
    decreases columns.len() - from,
{
    if from < columns.len() && columns[from].0 != key {
        lemma_key_place(columns, key, from + 1);
    }
}

proof fn lemma_labels_counted(table: Seq<ColumnModel>, n: int, i: int)
    requires
        0 <= i < n <= table.len(),
    ensures
        table::label_count(table, n, table[i].display_name) >= 1,
    decreases n,
{
    if i < n - 1 {
        lemma_labels_counted(table, n - 1, i);
    }
}

/// An ambiguous label is told once, however many columns have it, and no other label
/// is.
pub proof fn ambiguous_labels_are_told_once(
    columns: Seq<(Seq<char>, ColumnViewModel)>,
    table: Seq<ColumnModel>,
    n: int,
    label: Seq<char>,
)
    requires
        0 <= n <= table.len(),
    ensures
        ambiguous_labels(columns, table, n).no_duplicates(),
        ambiguous_labels(columns, table, n).contains(label) <==> exists|i: int|
            0 <= i < n && (#[trigger] table[i]).display_name == label && is_ambiguous(
                columns,
                table,
                i,
            ),
    decreases n,
{
    if n > 0 {
        ambiguous_labels_are_told_once(columns, table, n - 1, label);
        let before = ambiguous_labels(columns, table, n - 1);
        let now = ambiguous_labels(columns, table, n);
        let last = table[n - 1].display_name;
        if now != before {
            assert(now == before.push(last));
            assert(now.last() == last);
            if before.contains(label) {
                let k = choose|k: int| 0 <= k < before.len() && before[k] == label;
                assert(now[k] == label);
            }
            if now.contains(label) && label != last {
                let k = choose|k: int| 0 <= k < now.len() && now[k] == label;
                assert(before[k] == label);
            }
        }
        if before.contains(label) {
            let i = choose|i: int|
                0 <= i < n - 1 && (#[trigger] table[i]).display_name == label && is_ambiguous(
                    columns,
                    table,
                    i,
                );
            assert(table[i].display_name == label);
        }
    }
}

/// A key refers to the first header of its name, whatever the case, and only where
/// there is none to the first that it fits as a pattern.
pub proof fn names_refer_before_patterns(headers: Seq<Seq<char>>, key: Seq<char>, i: int)
    requires
        0 <= i < headers.len(),
    ensures
        text::lower(headers[i]) == text::lower(key) ==> {
            let at = column_referred(headers, key);
            at is Some && 0 <= at->0 <= i && text::lower(headers[at->0]) == text::lower(key)
        },
        patterns::is_wildcard(key) && patterns::column_fits(key, headers[i]) ==> column_referred(
            headers,
            key,
        ) is Some,
        column_referred(headers, key) matches Some(at) ==> 0 <= at < headers.len() && (text::lower(
            headers[at],
        ) == text::lower(key) || (patterns::is_wildcard(key) && patterns::column_fits(
            key,
            headers[at],
        ))),
{
    lemma_named_header(headers, key, 0, i);
    lemma_fitting_header(headers, key, 0, i);
}

proof fn lemma_named_header(headers: Seq<Seq<char>>, key: Seq<char>, from: int, i: int)
    requires
        0 <= from <= headers.len(),
        0 <= i < headers.len(),
    ensures
        from <= named_header(headers, key, from) <= headers.len(),
        named_header(headers, key, from) < headers.len() ==> text::lower(key) == text::lower(
            headers[named_header(headers, key, from)],
        ),
        from <= i && text::lower(key) == text::lower(headers[i]) ==> named_header(
            headers,
            key,
            from,
        ) <= i,
    decreases headers.len() - from,
{
    if from < headers.len() && text::lower(key) != text::lower(headers[from]) {
        lemma_named_header(headers, key, from + 1, i);
    }
}

proof fn lemma_fitting_header(headers: Seq<Seq<char>>, key: Seq<char>, from: int, i: int)
    requires
        0 <= from <= headers.len(),
        0 <= i < headers.len(),
    ensures
        from <= fitting_header(headers, key, from) <= headers.len(),
        fitting_header(headers, key, from) < headers.len() ==> patterns::is_wildcard(key)
            && patterns::column_fits(key, headers[fitting_header(headers, key, from)]),
        from <= i && patterns::is_wildcard(key) && patterns::column_fits(key, headers[i])
            ==> fitting_header(headers, key, from) <= i,
    decreases headers.len() - from,
{
    if from < headers.len() && !(patterns::is_wildcard(key) && patterns::column_fits(
        key,
        headers[from],
    )) {
        lemma_fitting_header(headers, key, from + 1, i);
    }
}

/// A key that no header uses is told by its name, and a key that one uses is not.
pub proof fn unused_keys_are_told(
    columns: Seq<(Seq<char>, ColumnViewModel)>,
    configs: Seq<Option<int>>,
    n: int,
)
    requires
        0 <= n < columns.len(),
    ensures
        unused_warnings(columns, configs, 0).len() == 0,
        ({
            let before = unused_warnings(columns, configs, n);
            let after = unused_warnings(columns, configs, n + 1);
            let used = exists|i: int|
                0 <= i < configs.len() && (#[trigger] configs[i]) is Some
                    && columns[configs[i]->0].0 == columns[n].0;
            &&& used ==> after == before
            &&& !used ==> after.len() == before.len() + 1 && after.drop_last() == before
                && after.last().field == "view.columns."@ + columns[n].0
        }),
{
    let before = unused_warnings(columns, configs, n);
    let after = unused_warnings(columns, configs, n + 1);
    if !key_used(columns, configs, columns[n].0) {
        assert(after.drop_last() =~= before);
    }
}

/// While columns may still come, an unused key that is written as a path from the root
/// waits for one and every other unused key is told; once all are known none waits.
pub proof fn unused_paths_wait(
    columns: Seq<(Seq<char>, ColumnViewModel)>,
    configs: Seq<Option<int>>,
    n: int,
)
    requires
        0 <= n < columns.len(),
    ensures
        pending_keys(columns, configs, true, 0).len() == 0,
        pending_keys(columns, configs, false, n + 1) == pending_keys(columns, configs, false, n),
        ({
            let path = columns[n].0.len() > 0 && columns[n].0[0] == '/';
            let used = key_used(columns, configs, columns[n].0);
            let waiting = pending_keys(columns, configs, true, n);
            let told = unmatched_warnings(columns, configs, true, n);
            let then = pending_keys(columns, configs, true, n + 1);
            let later = unmatched_warnings(columns, configs, true, n + 1);
            &&& used ==> then == waiting && later == told
            &&& !used && path ==> then == waiting.push(columns[n]) && later == told
            &&& !used && !path ==> then == waiting && later.len() == told.len() + 1
                && later.last().field == "view.columns."@ + columns[n].0
        }),
{
}

/// Each column of a table is shown as the key says that it uses, under its own number, and
/// a column without one is left as it is.
pub proof fn columns_are_shown_as_their_key_says(
    r: ResolvedColumns,
    view: SavedView,
    headers: Seq<Seq<char>>,
    i: int,
)
    requires
        is_header_resolution(r, view, headers),
        0 <= i < headers.len(),
    ensures
        ({
            let columns = saved_views::keyed_views(view.view.columns@);
            let used = header_config(columns, headers[i]);
            &&& r.columns@.len() == headers.len()
            &&& r.columns@[i] is Some <==> used is Some
            &&& used matches Some(k) ==> {
                &&& r.columns@[i]->0.column_index == i
                &&& r.columns@[i]->0.source_key@ == columns[k].0
                &&& r.columns@[i]->0.view@ == columns[k].1
            }
            &&& r.pending@.len() == 0
        }),
{
    let columns = saved_views::keyed_views(view.view.columns@);
    let configs = header_configs(columns, headers);
    assert(resolved_as(r.columns@[i], i, columns, configs[i]));
}

/// So is each column of a structured table, by its key or its label.
pub proof fn structured_columns_are_shown_as_their_key_says(
    r: ResolvedColumns,
    view: SavedView,
    definition: TableDefinition,
    i: int,
)
    requires
        is_structured_resolution(r, view, definition),
        0 <= i < definition.columns@.len(),
    ensures
        ({
            let columns = saved_views::keyed_views(view.view.columns@);
            let table = table::column_views(definition.columns@);
            let used = structured_config(columns, table, i);
            &&& r.columns@.len() == definition.columns@.len()
            &&& r.columns@[i] is Some <==> used is Some
            &&& used matches Some(k) ==> {
                &&& r.columns@[i]->0.column_index == i
                &&& r.columns@[i]->0.source_key@ == columns[k].0
                &&& r.columns@[i]->0.view@ == columns[k].1
            }
            &&& definition.schema_state !is Provisional ==> r.pending@.len() == 0
        }),
{
    let columns = saved_views::keyed_views(view.view.columns@);
    let table = table::column_views(definition.columns@);
    let configs = structured_configs(columns, table);
    assert(resolved_as(r.columns@[i], i, columns, configs[i]));
    assert(saved_views::keyed_views(r.pending@).len() == r.pending@.len());
    if definition.schema_state !is Provisional {
        lemma_none_pending(columns, configs, columns.len() as int);
    }
}

proof fn lemma_none_pending(
    columns: Seq<(Seq<char>, ColumnViewModel)>,
    configs: Seq<Option<int>>,
    n: int,
)
    requires
        0 <= n <= columns.len(),
    ensures
        pending_keys(columns, configs, false, n).len() == 0,
    decreases n,
{
    if n > 0 {
        lemma_none_pending(columns, configs, n - 1);
    }
}

} // verus!
