//! The dialogue in which a source is configured.

use vstd::prelude::*;
use vstd::string::*;

use crate::keys::{self, KeyCode, KeyEvent, shorten, typed_char};
use crate::numerals::{self, same_numerals};
use crate::options::{OpenOptions, SourceFilterRequest, SourceSortRequest};
use crate::table::{
    ColumnId, OperandModel, RowLimit, SortDirection, SourceFilter, SourceFilterOperator,
    SourceFilterScope, SourceGeneration, SourceOperand, SourceQuery, SourceSort,
};
use crate::text::{self, ascii_lower, concat3, parse_signed, parses_as_float, same, same_opt, trim};

verus! {

/// Whether a source can do something, and if not, why.
#[derive(Debug, PartialEq, Eq)]
pub enum CapabilityStatus {
    Supported,
    Unavailable { reason: String },
}

/// A column of a source: its label, and what the source calls it.
#[derive(Debug, PartialEq, Eq)]
pub struct SourceColumn {
    pub id: ColumnId,
    pub label: String,
    pub source_name: Option<String>,
}

/// What is known of a source while it is configured.
#[derive(Debug, PartialEq, Eq)]
pub struct SourceContext {
    pub columns: Vec<SourceColumn>,
    pub filters: Vec<SourceFilterOperator>,
    pub sorting: CapabilityStatus,
    pub active: Option<SourceQuery>,
}

// ---------------------------------------------------------------------------
// Models
// ---------------------------------------------------------------------------

/// The model of a filter.
pub struct FilterModel {
    pub scope: SourceFilterScope,
    pub operator: SourceFilterOperator,
    pub operand: Option<OperandModel>,
}

/// The model of an optional operand.
pub open spec fn operand_model(operand: Option<SourceOperand>) -> Option<OperandModel> {
    match operand {
        Some(operand) => Some(operand@),
        None => None,
    }
}

/// The model of a filter.
pub open spec fn filter_model(filter: SourceFilter) -> FilterModel {
    FilterModel {
        scope: filter.scope,
        operator: filter.operator,
        operand: operand_model(filter.operand),
    }
}

/// The models of filters.
pub open spec fn filter_models(filters: Seq<SourceFilter>) -> Seq<FilterModel> {
    Seq::new(filters.len(), |i: int| filter_model(filters[i]))
}

/// The model of a query that is edited.
pub struct DraftModel {
    pub generation: SourceGeneration,
    pub limit: usize,
    pub filters: Seq<FilterModel>,
    pub order_by: Seq<SourceSort>,
    pub native_query: Option<Seq<char>>,
}

/// The model of a query that is edited.
pub open spec fn draft_model(query: SourceQuery) -> DraftModel {
    DraftModel {
        generation: query.generation,
        limit: query.limit,
        filters: filter_models(query.filters@),
        order_by: query.order_by@,
        native_query: text::opt_view(query.native_query),
    }
}

/// The state of the dialogue: the query as it is edited, the chosen column and
/// operator, the two lines that can be typed in, and what went wrong last.
#[derive(Debug, PartialEq, Eq)]
pub struct SourceConfigModal {
    pub draft: SourceQuery,
    pub column: usize,
    pub operator: SourceFilterOperator,
    pub filter_input: String,
    pub editing_filter: bool,
    pub query_input: String,
    pub editing_query: bool,
    pub native_query_changed: bool,
    pub error: Option<String>,
}

/// The model of the dialogue.
pub struct ModalModel {
    pub draft: DraftModel,
    pub column: usize,
    pub operator: SourceFilterOperator,
    pub filter_input: Seq<char>,
    pub editing_filter: bool,
    pub query_input: Seq<char>,
    pub editing_query: bool,
    pub native_query_changed: bool,
    pub error: Option<Seq<char>>,
}

impl View for SourceConfigModal {
    type V = ModalModel;

    open spec fn view(&self) -> ModalModel {
        ModalModel {
            draft: draft_model(self.draft),
            column: self.column,
            operator: self.operator,
            filter_input: self.filter_input@,
            editing_filter: self.editing_filter,
            query_input: self.query_input@,
            editing_query: self.editing_query,
            native_query_changed: self.native_query_changed,
            error: text::opt_view(self.error),
        }
    }
}

/// An optional text, or nothing.
pub open spec fn text_or_empty(text: Option<Seq<char>>) -> Seq<char> {
    match text {
        Some(text) => text,
        None => Seq::empty(),
    }
}

fn text_or_nothing(text: &Option<String>) -> (r: String)
    ensures
        r@ == text_or_empty(text::opt_view(*text)),
{
    match text {
        Some(text) => text.clone(),
        None => {
            let empty = String::new();
            assert(empty@ =~= Seq::<char>::empty());
            empty
        },
    }
}

// ---------------------------------------------------------------------------
// Operators and operands
// ---------------------------------------------------------------------------

/// The operator after another, in a circle.
pub open spec fn operator_after(current: SourceFilterOperator) -> SourceFilterOperator {
    match current {
        SourceFilterOperator::Equal => SourceFilterOperator::NotEqual,
        SourceFilterOperator::NotEqual => SourceFilterOperator::LessThan,
        SourceFilterOperator::LessThan => SourceFilterOperator::LessThanOrEqual,
        SourceFilterOperator::LessThanOrEqual => SourceFilterOperator::GreaterThan,
        SourceFilterOperator::GreaterThan => SourceFilterOperator::GreaterThanOrEqual,
        SourceFilterOperator::GreaterThanOrEqual => SourceFilterOperator::Contains,
        SourceFilterOperator::Contains => SourceFilterOperator::Prefix,
        SourceFilterOperator::Prefix => SourceFilterOperator::IsNull,
        SourceFilterOperator::IsNull => SourceFilterOperator::IsNotNull,
        SourceFilterOperator::IsNotNull => SourceFilterOperator::Equal,
    }
}

/// The operator after another, in a circle.
pub fn next_source_operator(current: SourceFilterOperator) -> (r: SourceFilterOperator)
    ensures
        r == operator_after(current),
{
    match current {
        SourceFilterOperator::Equal => SourceFilterOperator::NotEqual,
        SourceFilterOperator::NotEqual => SourceFilterOperator::LessThan,
        SourceFilterOperator::LessThan => SourceFilterOperator::LessThanOrEqual,
        SourceFilterOperator::LessThanOrEqual => SourceFilterOperator::GreaterThan,
        SourceFilterOperator::GreaterThan => SourceFilterOperator::GreaterThanOrEqual,
        SourceFilterOperator::GreaterThanOrEqual => SourceFilterOperator::Contains,
        SourceFilterOperator::Contains => SourceFilterOperator::Prefix,
        SourceFilterOperator::Prefix => SourceFilterOperator::IsNull,
        SourceFilterOperator::IsNull => SourceFilterOperator::IsNotNull,
        SourceFilterOperator::IsNotNull => SourceFilterOperator::Equal,
    }
}

/// The value that a typed operand stands for: a truth value, a number, or the text.
pub open spec fn operand_of(value: Seq<char>) -> OperandModel {
    if text::lower(value) == "true"@ {
        OperandModel::Boolean(true)
    } else if text::lower(value) == "false"@ {
        OperandModel::Boolean(false)
    } else if text::signed_value(value) is Some {
        OperandModel::Integer(text::signed_value(value)->0 as i64)
    } else if text::is_float(value) {
        OperandModel::Float(value)
    } else {
        OperandModel::Text(value)
    }
}

/// The value that a typed operand stands for.
pub fn parse_source_operand(value: &str) -> (r: SourceOperand)
    ensures
        r@ == operand_of(value@),
{
    let lowered = ascii_lower(value);
    if same(&lowered, "true") {
        SourceOperand::Boolean(true)
    } else if same(&lowered, "false") {
        SourceOperand::Boolean(false)
    } else if let Some(n) = parse_signed(value) {
        SourceOperand::Integer(n)
    } else if parses_as_float(value) {
        SourceOperand::Float(value.to_owned())
    } else {
        SourceOperand::Text(value.to_owned())
    }
}

// ---------------------------------------------------------------------------
// Comparing queries
// ---------------------------------------------------------------------------

/// Whether two operands are the same; numbers are compared by what their numerals
/// denote.
pub open spec fn same_operands(a: Option<OperandModel>, b: Option<OperandModel>) -> bool {
    match (a, b) {
        (Some(OperandModel::Float(x)), Some(OperandModel::Float(y))) => numerals::same_numbers(x, y),
        _ => a == b,
    }
}

/// Whether two filters ask for the same.
pub open spec fn same_filter(a: FilterModel, b: FilterModel) -> bool {
    a.scope == b.scope && a.operator == b.operator && same_operands(a.operand, b.operand)
}

/// Whether two queries ask for the same.
pub open spec fn same_drafts(a: DraftModel, b: DraftModel) -> bool {
    &&& a.generation == b.generation
    &&& a.limit == b.limit
    &&& a.filters.len() == b.filters.len()
    &&& forall|i: int|
        0 <= i < a.filters.len() ==> same_filter(#[trigger] a.filters[i], b.filters[i])
    &&& a.order_by == b.order_by
    &&& a.native_query == b.native_query
}

fn same_operand(a: &Option<SourceOperand>, b: &Option<SourceOperand>) -> (r: bool)
    ensures
        r == same_operands(operand_model(*a), operand_model(*b)),
{
    match (a, b) {
        (Some(SourceOperand::Boolean(x)), Some(SourceOperand::Boolean(y))) => *x == *y,
        (Some(SourceOperand::Integer(x)), Some(SourceOperand::Integer(y))) => *x == *y,
        (Some(SourceOperand::Float(x)), Some(SourceOperand::Float(y))) => same_numerals(x, y),
        (Some(SourceOperand::Text(x)), Some(SourceOperand::Text(y))) => same(x, y),
        (None, None) => true,
        _ => false,
    }
}

fn same_filters(a: &Vec<SourceFilter>, b: &Vec<SourceFilter>) -> (r: bool)
    ensures
        r == (filter_models(a@).len() == filter_models(b@).len() && forall|i: int|
            0 <= i < filter_models(a@).len() ==> same_filter(
                #[trigger] filter_models(a@)[i],
                filter_models(b@)[i],
            )),
{
    if a.len() != b.len() {
        assert(filter_models(a@).len() != filter_models(b@).len());
        return false;
    }
    let mut i: usize = 0;
    while i < a.len()
        invariant
            i <= a@.len(),
            a@.len() == b@.len(),
            forall|k: int|
                0 <= k < i ==> same_filter(
                    #[trigger] filter_models(a@)[k],
                    filter_models(b@)[k],
                ),
        decreases a@.len() - i,
    {
        let equal = a[i].scope == b[i].scope && a[i].operator == b[i].operator && same_operand(
            &a[i].operand,
            &b[i].operand,
        );
        assert(equal == same_filter(filter_models(a@)[i as int], filter_models(b@)[i as int]));
        if !equal {
            return false;
        }
        i = i + 1;
    }
    true
}

fn same_order(a: &Vec<SourceSort>, b: &Vec<SourceSort>) -> (r: bool)
    ensures
        r == (a@ == b@),
{
    if a.len() != b.len() {
        return false;
    }
    let mut i: usize = 0;
    while i < a.len()
        invariant
            i <= a@.len(),
            a@.len() == b@.len(),
            forall|k: int| 0 <= k < i ==> #[trigger] a@[k] == b@[k],
        decreases a@.len() - i,
    {
        if a[i] != b[i] {
            return false;
        }
        i = i + 1;
    }
    assert(a@ =~= b@);
    true
}

/// Whether two queries ask for the same.
pub fn same_query(a: &SourceQuery, b: &SourceQuery) -> (r: bool)
    ensures
        r == same_drafts(draft_model(*a), draft_model(*b)),
{
    a.generation == b.generation && a.limit == b.limit && same_filters(&a.filters, &b.filters)
        && same_order(&a.order_by, &b.order_by) && same_opt(&a.native_query, &b.native_query)
}

// ---------------------------------------------------------------------------
// Columns of a draft
// ---------------------------------------------------------------------------

/// The column that is chosen.
pub open spec fn chosen_column(context: SourceContext, column: usize) -> Option<ColumnId> {
    if column < context.columns@.len() {
        Some(context.columns@[column as int].id)
    } else {
        None
    }
}

/// What the source calls a column, from the `from`th on.
pub open spec fn source_name(columns: Seq<SourceColumn>, id: ColumnId, from: int) -> Option<
    Seq<char>,
>
    decreases columns.len() - from,
{
    if from < 0 || from >= columns.len() {
        None
    } else if columns[from].id == id {
        text::opt_view(columns[from].source_name)
    } else {
        source_name(columns, id, from + 1)
    }
}

/// What the source calls a column.
pub fn source_column_name(columns: &Vec<SourceColumn>, id: ColumnId) -> (r: Option<String>)
    ensures
        text::opt_view(r) == source_name(columns@, id, 0),
{
    let mut i: usize = 0;
    while i < columns.len()
        invariant
            i <= columns@.len(),
            source_name(columns@, id, 0) == source_name(columns@, id, i as int),
        decreases columns@.len() - i,
    {
        if columns[i].id == id {
            return columns[i].source_name.clone();
        }
        i = i + 1;
    }
    None
}

/// The first `n` sorts but those of a column.
pub open spec fn sorts_without(order: Seq<SourceSort>, id: ColumnId, n: int) -> Seq<SourceSort>
    decreases n,
{
    if n <= 0 || n > order.len() {
        Seq::empty()
    } else if order[n - 1].column != id {
        sorts_without(order, id, n - 1).push(order[n - 1])
    } else {
        sorts_without(order, id, n - 1)
    }
}

/// The first `n` filters but those of a column.
pub open spec fn filters_without(filters: Seq<FilterModel>, id: ColumnId, n: int) -> Seq<
    FilterModel,
>
    decreases n,
{
    if n <= 0 || n > filters.len() {
        Seq::empty()
    } else if filters[n - 1].scope != SourceFilterScope::Column(id) {
        filters_without(filters, id, n - 1).push(filters[n - 1])
    } else {
        filters_without(filters, id, n - 1)
    }
}

fn drop_sorts(order: &Vec<SourceSort>, id: ColumnId) -> (r: Vec<SourceSort>)
    ensures
        r@ == sorts_without(order@, id, order@.len() as int),
{
    let mut out: Vec<SourceSort> = Vec::new();
    let mut i: usize = 0;
    while i < order.len()
        invariant
            i <= order@.len(),
            out@ == sorts_without(order@, id, i as int),
        decreases order@.len() - i,
    {
        if order[i].column != id {
            out.push(order[i]);
        }
        i = i + 1;
    }
    out
}

fn drop_filters(filters: &Vec<SourceFilter>, id: ColumnId) -> (r: Vec<SourceFilter>)
    ensures
        filter_models(r@) == filters_without(
            filter_models(filters@),
            id,
            filters@.len() as int,
        ),
{
    let ghost all = filter_models(filters@);
    let mut out: Vec<SourceFilter> = Vec::new();
    let mut i: usize = 0;
    assert(filter_models(out@) =~= Seq::<FilterModel>::empty());
    while i < filters.len()
        invariant
            i <= filters@.len(),
            all == filter_models(filters@),
            filter_models(out@) == filters_without(all, id, i as int),
        decreases filters@.len() - i,
    {
        let ghost before = out@;
        if filters[i].scope != SourceFilterScope::Column(id) {
            out.push(filters[i].clone());
            assert(filter_models(out@) =~= filter_models(before).push(all[i as int]));
        }
        i = i + 1;
    }
    out
}

// ---------------------------------------------------------------------------
// The native query editor
// ---------------------------------------------------------------------------

/// The dialogue after a key in the editor of the native query.
pub open spec fn after_query_key(m: ModalModel, event: KeyEvent) -> ModalModel {
    match event.code {
        KeyCode::Esc => ModalModel {
            editing_query: false,
            query_input: text_or_empty(m.draft.native_query),
            error: None,
            ..m
        },
        KeyCode::Backspace => ModalModel {
            query_input: keys::shortened(m.query_input),
            error: None,
            ..m
        },
        KeyCode::Enter => {
            let query = text::trimmed(m.query_input);
            if query.len() == 0 {
                ModalModel { error: Some("native query cannot be empty"@), ..m }
            } else {
                ModalModel {
                    draft: DraftModel { native_query: Some(query), ..m.draft },
                    native_query_changed: true,
                    editing_query: false,
                    error: None,
                    ..m
                }
            }
        },
        _ => match keys::typed(event) {
            Some(c) => ModalModel { query_input: m.query_input.push(c), error: None, ..m },
            None => m,
        },
    }
}

fn query_key(modal: &mut SourceConfigModal, event: KeyEvent)
    ensures
        final(modal)@ == after_query_key(old(modal)@, event),
{
    match event.code {
        KeyCode::Esc => {
            modal.editing_query = false;
            modal.query_input = text_or_nothing(&modal.draft.native_query);
            modal.error = None;
        },
        KeyCode::Backspace => {
            modal.query_input = shorten(&modal.query_input);
            modal.error = None;
        },
        KeyCode::Enter => {
            let query = trim(&modal.query_input);
            if query.as_str().is_empty() {
                modal.error = Some("native query cannot be empty".to_owned());
            } else {
                modal.draft.native_query = Some(query);
                modal.native_query_changed = true;
                modal.editing_query = false;
                modal.error = None;
            }
        },
        _ => {
            if let Some(c) = typed_char(event) {
                modal.query_input.push(c);
                modal.error = None;
            }
        },
    }
}

// ---------------------------------------------------------------------------
// The filter editor
// ---------------------------------------------------------------------------

/// The dialogue after the filter in the editor is entered.
pub open spec fn after_filter_entry(m: ModalModel, context: SourceContext) -> ModalModel {
    if m.operator.needs_operand() && m.filter_input.len() == 0 {
        ModalModel { error: Some("filter value is required"@), ..m }
    } else if !context.filters@.contains(m.operator) {
        ModalModel {
            error: Some("source filter '"@ + m.operator.name() + "' is unavailable"@),
            ..m
        }
    } else {
        match chosen_column(context, m.column) {
            Some(id) => ModalModel {
                draft: DraftModel {
                    filters: m.draft.filters.push(
                        FilterModel {
                            scope: SourceFilterScope::Column(id),
                            operator: m.operator,
                            operand: if m.operator.needs_operand() {
                                Some(operand_of(m.filter_input))
                            } else {
                                None
                            },
                        },
                    ),
                    ..m.draft
                },
                filter_input: Seq::empty(),
                editing_filter: false,
                error: None,
                ..m
            },
            None => m,
        }
    }
}

/// The dialogue after a key in the editor of a filter.
pub open spec fn after_filter_key(
    m: ModalModel,
    event: KeyEvent,
    context: SourceContext,
) -> ModalModel {
    match event.code {
        KeyCode::Esc => ModalModel { editing_filter: false, error: None, ..m },
        KeyCode::Tab => ModalModel { operator: operator_after(m.operator), ..m },
        KeyCode::Backspace => ModalModel {
            filter_input: keys::shortened(m.filter_input),
            error: None,
            ..m
        },
        KeyCode::Enter => after_filter_entry(m, context),
        _ => match keys::typed(event) {
            Some(c) => ModalModel { filter_input: m.filter_input.push(c), error: None, ..m },
            None => m,
        },
    }
}

fn supports_filter(context: &SourceContext, operator: SourceFilterOperator) -> (r: bool)
    ensures
        r == context.filters@.contains(operator),
{
    let mut i: usize = 0;
    while i < context.filters.len()
        invariant
            i <= context.filters@.len(),
            forall|k: int| 0 <= k < i ==> #[trigger] context.filters@[k] != operator,
        decreases context.filters@.len() - i,
    {
        if context.filters[i] == operator {
            return true;
        }
        i = i + 1;
    }
    false
}

fn enter_filter(modal: &mut SourceConfigModal, context: &SourceContext)
    ensures
        final(modal)@ == after_filter_entry(old(modal)@, *context),
{
    let needed = modal.operator.requires_operand();
    if needed && modal.filter_input.as_str().is_empty() {
        modal.error = Some("filter value is required".to_owned());
        return;
    }
    let operand = if needed {
        Some(parse_source_operand(&modal.filter_input))
    } else {
        None
    };
    if !supports_filter(context, modal.operator) {
        modal.error = Some(
            concat3("source filter '", modal.operator.label(), "' is unavailable"),
        );
    } else if modal.column < context.columns.len() {
        let ghost before = modal.draft.filters@;
        let id = context.columns[modal.column].id;
        let filter = SourceFilter {
            scope: SourceFilterScope::Column(id),
            operator: modal.operator,
            operand,
        };
        let ghost added = filter_model(filter);
        modal.draft.filters.push(filter);
        modal.filter_input = String::new();
        modal.editing_filter = false;
        modal.error = None;
        assert(modal.filter_input@ =~= Seq::<char>::empty());
        assert(filter_models(modal.draft.filters@) =~= filter_models(before).push(added));
    }
}

fn filter_key(modal: &mut SourceConfigModal, event: KeyEvent, context: &SourceContext)
    ensures
        final(modal)@ == after_filter_key(old(modal)@, event, *context),
{
    match event.code {
        KeyCode::Esc => {
            modal.editing_filter = false;
            modal.error = None;
        },
        KeyCode::Tab => {
            modal.operator = next_source_operator(modal.operator);
        },
        KeyCode::Backspace => {
            modal.filter_input = shorten(&modal.filter_input);
            modal.error = None;
        },
        KeyCode::Enter => enter_filter(modal, context),
        _ => {
            if let Some(c) = typed_char(event) {
                modal.filter_input.push(c);
                modal.error = None;
            }
        },
    }
}

// ---------------------------------------------------------------------------
// The dialogue itself
// ---------------------------------------------------------------------------

/// The limit that stands for none.
pub open spec fn is_unbounded(limit: usize) -> bool {
    limit == usize::MAX
}

/// A limit raised by a step.
pub open spec fn raised(limit: usize) -> usize {
    if is_unbounded(limit) {
        1000
    } else if limit > usize::MAX - 100 {
        usize::MAX
    } else {
        (limit + 100) as usize
    }
}

/// A limit lowered by a step, but not below one.
pub open spec fn lowered(limit: usize) -> usize {
    if is_unbounded(limit) {
        1000
    } else if limit > 100 {
        (limit - 100) as usize
    } else {
        1
    }
}

/// The column to the right, if there is one.
pub open spec fn column_right(column: usize, count: nat) -> usize {
    if column + 1 < count {
        (column + 1) as usize
    } else if count == 0 {
        0
    } else {
        (count - 1) as usize
    }
}

/// The dialogue after its column is sorted by.
pub open spec fn after_sort(m: ModalModel, context: SourceContext, direction: SortDirection) -> ModalModel {
    if context.sorting !is Supported {
        ModalModel { error: Some("source sorting is unavailable"@), ..m }
    } else {
        match chosen_column(context, m.column) {
            Some(id) => ModalModel {
                draft: DraftModel {
                    order_by: sorts_without(
                        m.draft.order_by,
                        id,
                        m.draft.order_by.len() as int,
                    ).push(SourceSort { column: id, direction }),
                    ..m.draft
                },
                ..m
            },
            None => m,
        }
    }
}

/// The dialogue after its column is freed of filters and sorts.
pub open spec fn after_clear(m: ModalModel, context: SourceContext) -> ModalModel {
    match chosen_column(context, m.column) {
        Some(id) => ModalModel {
            draft: DraftModel {
                filters: filters_without(m.draft.filters, id, m.draft.filters.len() as int),
                order_by: sorts_without(m.draft.order_by, id, m.draft.order_by.len() as int),
                ..m.draft
            },
            ..m
        },
        None => m,
    }
}

/// The dialogue after a key outside its editors, other than Esc and Enter.
pub open spec fn after_plain_key(m: ModalModel, event: KeyEvent, context: SourceContext) -> ModalModel {
    let left = ModalModel {
        column: if m.column > 0 {
            (m.column - 1) as usize
        } else {
            0
        },
        ..m
    };
    let right = ModalModel { column: column_right(m.column, context.columns@.len()), ..m };
    match event.code {
        KeyCode::Left => left,
        KeyCode::Right => right,
        KeyCode::Tab => ModalModel { operator: operator_after(m.operator), ..m },
        KeyCode::Char(c) => if c == 'h' {
            left
        } else if c == 'l' {
            right
        } else if c == 'f' {
            ModalModel { editing_filter: true, error: None, ..m }
        } else if c == 'q' {
            match m.draft.native_query {
                None => ModalModel {
                    error: Some("this source does not expose an editable native query"@),
                    ..m
                },
                Some(query) => ModalModel {
                    query_input: query,
                    editing_query: true,
                    error: None,
                    ..m
                },
            }
        } else if c == 's' {
            after_sort(m, context, SortDirection::Ascending)
        } else if c == 'S' {
            after_sort(m, context, SortDirection::Descending)
        } else if c == 'x' {
            after_clear(m, context)
        } else if c == '+' {
            ModalModel { draft: DraftModel { limit: raised(m.draft.limit), ..m.draft }, ..m }
        } else if c == '-' {
            ModalModel { draft: DraftModel { limit: lowered(m.draft.limit), ..m.draft }, ..m }
        } else {
            m
        },
        _ => m,
    }
}

fn sort_column(modal: &mut SourceConfigModal, context: &SourceContext, direction: SortDirection)
    ensures
        final(modal)@ == after_sort(old(modal)@, *context, direction),
{
    let supported = match &context.sorting {
        CapabilityStatus::Supported => true,
        CapabilityStatus::Unavailable { .. } => false,
    };
    if !supported {
        modal.error = Some("source sorting is unavailable".to_owned());
    } else if modal.column < context.columns.len() {
        let id = context.columns[modal.column].id;
        let mut order = drop_sorts(&modal.draft.order_by, id);
        order.push(SourceSort { column: id, direction });
        modal.draft.order_by = order;
    }
}

fn clear_column(modal: &mut SourceConfigModal, context: &SourceContext)
    ensures
        final(modal)@ == after_clear(old(modal)@, *context),
{
    if modal.column < context.columns.len() {
        let id = context.columns[modal.column].id;
        modal.draft.filters = drop_filters(&modal.draft.filters, id);
        modal.draft.order_by = drop_sorts(&modal.draft.order_by, id);
    }
}

fn move_left(modal: &mut SourceConfigModal)
    ensures
        final(modal)@ == (ModalModel {
            column: if old(modal)@.column > 0 {
                (old(modal)@.column - 1) as usize
            } else {
                0
            },
            ..old(modal)@
        }),
{
    if modal.column > 0 {
        modal.column = modal.column - 1;
    }
}

fn move_right(modal: &mut SourceConfigModal, context: &SourceContext)
    ensures
        final(modal)@ == (ModalModel {
            column: column_right(old(modal)@.column, context.columns@.len()),
            ..old(modal)@
        }),
{
    let count: usize = context.columns.len();
    modal.column = if count == 0 {
        0
    } else if modal.column < count - 1 {
        modal.column + 1
    } else {
        count - 1
    };
}

fn edit_native_query(modal: &mut SourceConfigModal)
    ensures
        final(modal)@ == (match old(modal)@.draft.native_query {
            None => ModalModel {
                error: Some("this source does not expose an editable native query"@),
                ..old(modal)@
            },
            Some(query) => ModalModel {
                query_input: query,
                editing_query: true,
                error: None,
                ..old(modal)@
            },
        }),
{
    match &modal.draft.native_query {
        None => {
            modal.error = Some("this source does not expose an editable native query".to_owned());
        },
        Some(query) => {
            modal.query_input = query.clone();
            modal.editing_query = true;
            modal.error = None;
        },
    }
}

fn plain_key(modal: &mut SourceConfigModal, event: KeyEvent, context: &SourceContext)
    ensures
        final(modal)@ == after_plain_key(old(modal)@, event, *context),
{
    match event.code {
        KeyCode::Left => move_left(modal),
        KeyCode::Right => move_right(modal, context),
        KeyCode::Tab => {
            modal.operator = next_source_operator(modal.operator);
        },
        KeyCode::Char(c) => {
            if c == 'h' {
                move_left(modal);
            } else if c == 'l' {
                move_right(modal, context);
            } else if c == 'f' {
                modal.editing_filter = true;
                modal.error = None;
            } else if c == 'q' {
                edit_native_query(modal);
            } else if c == 's' {
                sort_column(modal, context, SortDirection::Ascending);
            } else if c == 'S' {
                sort_column(modal, context, SortDirection::Descending);
            } else if c == 'x' {
                clear_column(modal, context);
            } else if c == '+' {
                modal.draft.limit = if modal.draft.limit == usize::MAX {
                    1000
                } else {
                    modal.draft.limit.saturating_add(100)
                };
            } else if c == '-' {
                modal.draft.limit = if modal.draft.limit == usize::MAX {
                    1000
                } else if modal.draft.limit > 100 {
                    modal.draft.limit - 100
                } else {
                    1
                };
            }
        },
        _ => {},
    }
}

// ---------------------------------------------------------------------------
// Applying a draft
// ---------------------------------------------------------------------------

/// The name that a filter of the whole record goes by.
pub open spec fn filter_column(columns: Seq<SourceColumn>, scope: SourceFilterScope) -> Option<
    Seq<char>,
> {
    match scope {
        SourceFilterScope::WholeRecord => Some("*"@),
        SourceFilterScope::Column(id) => source_name(columns, id, 0),
    }
}

/// Whether the source has a name for every column of a draft.
pub open spec fn is_resolvable(draft: DraftModel, columns: Seq<SourceColumn>) -> bool {
    &&& forall|i: int|
        0 <= i < draft.filters.len() ==> filter_column(
            columns,
            (#[trigger] draft.filters[i]).scope,
        ) is Some
    &&& forall|i: int|
        0 <= i < draft.order_by.len() ==> source_name(
            columns,
            (#[trigger] draft.order_by[i]).column,
            0,
        ) is Some
}

/// Whether filters are asked for by the names of the source.
pub open spec fn are_filter_requests(
    r: Seq<SourceFilterRequest>,
    filters: Seq<FilterModel>,
    columns: Seq<SourceColumn>,
) -> bool {
    &&& r.len() == filters.len()
    &&& forall|i: int|
        0 <= i < r.len() ==> {
            &&& Some((#[trigger] r[i]).column@) == filter_column(columns, filters[i].scope)
            &&& r[i].operator == filters[i].operator
            &&& operand_model(r[i].operand) == filters[i].operand
        }
}

/// Whether sorts are asked for by the names of the source.
pub open spec fn are_sort_requests(
    r: Seq<SourceSortRequest>,
    order: Seq<SourceSort>,
    columns: Seq<SourceColumn>,
) -> bool {
    &&& r.len() == order.len()
    &&& forall|i: int|
        0 <= i < r.len() ==> {
            &&& Some((#[trigger] r[i]).column@) == source_name(columns, order[i].column, 0)
            &&& r[i].direction == order[i].direction
        }
}

fn filter_requests(filters: &Vec<SourceFilter>, columns: &Vec<SourceColumn>) -> (r: Option<
    Vec<SourceFilterRequest>,
>)
    ensures
        match r {
            Some(requests) => are_filter_requests(
                requests@,
                filter_models(filters@),
                columns@,
            ),
            None => exists|i: int|
                0 <= i < filters@.len() && filter_column(
                    columns@,
                    (#[trigger] filter_models(filters@)[i]).scope,
                ) is None,
        },
{
    let ghost models = filter_models(filters@);
    let mut out: Vec<SourceFilterRequest> = Vec::new();
    let mut i: usize = 0;
    while i < filters.len()
        invariant
            i <= filters@.len(),
            models == filter_models(filters@),
            out@.len() == i,
            forall|k: int|
                0 <= k < i ==> {
                    &&& Some((#[trigger] out@[k]).column@) == filter_column(
                        columns@,
                        models[k].scope,
                    )
                    &&& out@[k].operator == models[k].operator
                    &&& operand_model(out@[k].operand) == models[k].operand
                },
        decreases filters@.len() - i,
    {
        assert(models[i as int] == filter_model(filters@[i as int]));
        let name = match filters[i].scope {
            SourceFilterScope::WholeRecord => Some("*".to_owned()),
            SourceFilterScope::Column(id) => source_column_name(columns, id),
        };
        let column = match name {
            Some(column) => column,
            None => {
                return None;
            },
        };
        out.push(
            SourceFilterRequest {
                column,
                operator: filters[i].operator,
                operand: match &filters[i].operand {
                    Some(operand) => Some(operand.clone()),
                    None => None,
                },
            },
        );
        i = i + 1;
    }
    Some(out)
}

fn sort_requests(order: &Vec<SourceSort>, columns: &Vec<SourceColumn>) -> (r: Option<
    Vec<SourceSortRequest>,
>)
    ensures
        match r {
            Some(requests) => are_sort_requests(requests@, order@, columns@),
            None => exists|i: int|
                0 <= i < order@.len() && source_name(columns@, (#[trigger] order@[i]).column, 0)
                    is None,
        },
{
    let mut out: Vec<SourceSortRequest> = Vec::new();
    let mut i: usize = 0;
    while i < order.len()
        invariant
            i <= order@.len(),
            out@.len() == i,
            forall|k: int|
                0 <= k < i ==> {
                    &&& Some((#[trigger] out@[k]).column@) == source_name(
                        columns@,
                        order@[k].column,
                        0,
                    )
                    &&& out@[k].direction == order@[k].direction
                },
        decreases order@.len() - i,
    {
        let column = match source_column_name(columns, order[i].column) {
            Some(column) => column,
            None => {
                return None;
            },
        };
        out.push(SourceSortRequest { column, direction: order[i].direction });
        i = i + 1;
    }
    Some(out)
}

/// What is asked of a source, in the terms of the library and of the source.
#[derive(Debug, PartialEq, Eq)]
pub struct SourceRequest {
    pub query: SourceQuery,
    pub filters: Vec<SourceFilterRequest>,
    pub sort: Vec<SourceSortRequest>,
}

/// What follows a key: the dialogue goes on, is closed, or asks the source first.
#[derive(Debug, PartialEq, Eq)]
pub enum SourceStep {
    Stay(SourceConfigModal),
    Close,
    Request(SourceConfigModal, SourceRequest),
}

/// Whether a draft is the query that is already active.
pub open spec fn is_active(draft: DraftModel, context: SourceContext) -> bool {
    match context.active {
        Some(active) => same_drafts(draft_model(active), draft),
        None => false,
    }
}

/// Whether this is what follows Enter outside the editors.
pub open spec fn follows_enter(r: SourceStep, m: ModalModel, context: SourceContext) -> bool {
    if is_active(m.draft, context) {
        r is Close
    } else if !is_resolvable(m.draft, context.columns@) {
        match r {
            SourceStep::Stay(modal) => modal@ == (ModalModel {
                error: Some("source query references an unavailable column"@),
                ..m
            }),
            _ => false,
        }
    } else {
        match r {
            SourceStep::Request(modal, request) => {
                &&& modal@ == m
                &&& draft_model(request.query) == m.draft
                &&& are_filter_requests(request.filters@, m.draft.filters, context.columns@)
                &&& are_sort_requests(request.sort@, m.draft.order_by, context.columns@)
            },
            _ => false,
        }
    }
}

/// Whether this is what follows a key in the dialogue.
pub open spec fn follows_key(
    r: SourceStep,
    m: ModalModel,
    event: KeyEvent,
    context: SourceContext,
) -> bool {
    if m.editing_query {
        match r {
            SourceStep::Stay(modal) => modal@ == after_query_key(m, event),
            _ => false,
        }
    } else if m.editing_filter {
        match r {
            SourceStep::Stay(modal) => modal@ == after_filter_key(m, event, context),
            _ => false,
        }
    } else if event.code is Esc {
        r is Close
    } else if event.code is Enter {
        follows_enter(r, m, context)
    } else {
        match r {
            SourceStep::Stay(modal) => modal@ == after_plain_key(m, event, context),
            _ => false,
        }
    }
}

fn clone_draft(query: &SourceQuery) -> (r: SourceQuery)
    ensures
        draft_model(r) == draft_model(*query),
{
    let copy = query.clone();
    assert(copy@ == query@);
    assert(copy.filters@ == query@.filters);
    assert(copy.order_by@ == query@.order_by);
    copy
}

fn apply_draft(modal: SourceConfigModal, context: &SourceContext) -> (r: SourceStep)
    ensures
        follows_enter(r, modal@, *context),
{
    if let Some(active) = &context.active {
        if same_query(active, &modal.draft) {
            return SourceStep::Close;
        }
    }
    let filters = filter_requests(&modal.draft.filters, &context.columns);
    let sort = sort_requests(&modal.draft.order_by, &context.columns);
    match (filters, sort) {
        (Some(filters), Some(sort)) => {
            proof {
                let draft = modal@.draft;
                assert forall|i: int| 0 <= i < draft.filters.len() implies filter_column(
                    context.columns@,
                    (#[trigger] draft.filters[i]).scope,
                ) is Some by {
                    assert(Some(filters@[i].column@) == filter_column(
                        context.columns@,
                        draft.filters[i].scope,
                    ));
                }
                assert forall|i: int| 0 <= i < draft.order_by.len() implies source_name(
                    context.columns@,
                    (#[trigger] draft.order_by[i]).column,
                    0,
                ) is Some by {
                    assert(Some(sort@[i].column@) == source_name(
                        context.columns@,
                        draft.order_by[i].column,
                        0,
                    ));
                }
            }
            let query = clone_draft(&modal.draft);
            SourceStep::Request(modal, SourceRequest { query, filters, sort })
        },
        _ => {
            let mut refused = modal;
            refused.error = Some("source query references an unavailable column".to_owned());
            SourceStep::Stay(refused)
        },
    }
}

/// Handles a key in the dialogue. Without a dialogue there is nothing to go on with.
pub fn handle_source_config_key(
    open: Option<SourceConfigModal>,
    event: KeyEvent,
    context: &SourceContext,
) -> (r: SourceStep)
    ensures
        match open {
            Some(modal) => follows_key(r, modal@, event, *context),
            None => r is Close,
        },
{
    let mut modal = match open {
        Some(modal) => modal,
        None => {
            return SourceStep::Close;
        },
    };
    if modal.editing_query {
        query_key(&mut modal, event);
        return SourceStep::Stay(modal);
    }
    if modal.editing_filter {
        filter_key(&mut modal, event, context);
        return SourceStep::Stay(modal);
    }
    match event.code {
        KeyCode::Esc => SourceStep::Close,
        KeyCode::Enter => apply_draft(modal, context),
        _ => {
            plain_key(&mut modal, event, context);
            SourceStep::Stay(modal)
        },
    }
}

/// Takes up what a source made of a request: the dialogue is closed if it was
/// accepted, and goes on with what the source said if not.
pub fn after_source_request(
    modal: SourceConfigModal,
    accepted: bool,
    status: Option<String>,
) -> (r: SourceStep)
    ensures
        if accepted {
            r is Close
        } else {
            match r {
                SourceStep::Stay(next) => next@ == (ModalModel {
                    error: text::opt_view(status),
                    ..modal@
                }),
                _ => false,
            }
        },
{
    if accepted {
        SourceStep::Close
    } else {
        let mut next = modal;
        next.error = status;
        SourceStep::Stay(next)
    }
}

/// The options with which a source is opened again after a request. A limit that
/// stands for none is not kept, and a native query takes the place of a table.
pub fn remember_request(options: &mut OpenOptions, request: SourceRequest, native_query_changed: bool)
    requires
        request.query.limit > 0,
    ensures
        match final(options).limit {
            Some(limit) => limit.value() == request.query.limit && !is_unbounded(
                request.query.limit,
            ),
            None => is_unbounded(request.query.limit),
        },
        final(options).source_filters == request.filters,
        final(options).source_sort == request.sort,
        text::opt_view(final(options).native_query) == if native_query_changed {
            text::opt_view(request.query.native_query)
        } else {
            text::opt_view(old(options).native_query)
        },
        text::opt_view(final(options).table) == if native_query_changed {
            None
        } else {
            text::opt_view(old(options).table)
        },
        *final(options) == (OpenOptions {
            limit: final(options).limit,
            source_filters: final(options).source_filters,
            source_sort: final(options).source_sort,
            native_query: final(options).native_query,
            table: final(options).table,
            ..*old(options)
        }),
{
    options.limit = if request.query.limit == usize::MAX {
        None
    } else {
        RowLimit::new(request.query.limit)
    };
    options.source_filters = request.filters;
    options.source_sort = request.sort;
    if native_query_changed {
        options.native_query = request.query.native_query;
        options.table = None;
    }
}

/// Opens the dialogue on the active query of a source, at the column of the cursor.
/// A source without one cannot be configured.
pub fn open_source_config(context: &SourceContext, cursor_column: usize) -> (r: Result<
    SourceConfigModal,
    String,
>)
    ensures
        match (r, context.active) {
            (Ok(modal), Some(query)) => modal@ == (ModalModel {
                draft: draft_model(query),
                column: if cursor_column < context.columns@.len() {
                    cursor_column
                } else if context.columns@.len() == 0 {
                    0
                } else {
                    (context.columns@.len() - 1) as usize
                },
                operator: SourceFilterOperator::Equal,
                filter_input: Seq::empty(),
                editing_filter: false,
                query_input: text_or_empty(text::opt_view(query.native_query)),
                editing_query: false,
                native_query_changed: false,
                error: None,
            }),
            (Err(message), None) => message@
                == "This source does not expose a configurable bounded source query"@,
            _ => false,
        },
{
    match &context.active {
        None => Err("This source does not expose a configurable bounded source query".to_owned()),
        Some(query) => {
            let count: usize = context.columns.len();
            let column: usize = if cursor_column < count {
                cursor_column
            } else if count == 0 {
                0
            } else {
                count - 1
            };
            let filter_input = String::new();
            assert(filter_input@ =~= Seq::<char>::empty());
            Ok(
                SourceConfigModal {
                    draft: clone_draft(query),
                    column,
                    operator: SourceFilterOperator::Equal,
                    filter_input,
                    editing_filter: false,
                    query_input: text_or_nothing(&query.native_query),
                    editing_query: false,
                    native_query_changed: false,
                    error: None,
                },
            )
        },
    }
}

// ---------------------------------------------------------------------------
// Laws
// ---------------------------------------------------------------------------

/// Opening the dialogue and applying its draft at once closes it and asks nothing
/// of the source, where no operand is the float that differs from itself.
pub proof fn unchanged_drafts_are_not_requested(
    r: SourceStep,
    m: ModalModel,
    context: SourceContext,
    event: KeyEvent,
)
    requires
        event.code is Enter,
        !m.editing_query,
        !m.editing_filter,
        context.active is Some,
        m.draft == draft_model(context.active->0),
        forall|i: int|
            0 <= i < m.draft.filters.len() ==> ((#[trigger] m.draft.filters[i]).operand matches Some(
                OperandModel::Float(numeral),
            ) ==> numerals::same_numbers(numeral, numeral)),
        follows_key(r, m, event, context),
    ensures
        r is Close,
{
}

/// No key makes the limit of a draft zero.
pub proof fn limits_stay_positive(m: ModalModel, event: KeyEvent, context: SourceContext)
    requires
        m.draft.limit > 0,
    ensures
        after_query_key(m, event).draft.limit > 0,
        after_filter_key(m, event, context).draft.limit > 0,
        after_plain_key(m, event, context).draft.limit > 0,
{
}

proof fn lemma_sorts_without(order: Seq<SourceSort>, id: ColumnId, n: int)
    requires
        0 <= n <= order.len(),
    ensures
        forall|i: int|
            0 <= i < sorts_without(order, id, n).len() ==> (#[trigger] sorts_without(
                order,
                id,
                n,
            )[i]).column != id,
    decreases n,
{
    if n > 0 {
        lemma_sorts_without(order, id, n - 1);
        let before = sorts_without(order, id, n - 1);
        let now = sorts_without(order, id, n);
        assert forall|i: int| 0 <= i < now.len() implies (#[trigger] now[i]).column != id by {
            if i < before.len() {
                assert(now[i] == before[i]);
            }
        }
    }
}

/// A column is sorted by at most once: sorting by it again replaces the sort.
pub proof fn columns_are_sorted_once(
    m: ModalModel,
    context: SourceContext,
    direction: SortDirection,
    i: int,
)
    requires
        context.sorting is Supported,
        m.column < context.columns@.len(),
        0 <= i < after_sort(m, context, direction).draft.order_by.len() - 1,
    ensures
        after_sort(m, context, direction).draft.order_by[i].column
            != context.columns@[m.column as int].id,
        after_sort(m, context, direction).draft.order_by.last() == (SourceSort {
            column: context.columns@[m.column as int].id,
            direction,
        }),
{
    let id = context.columns@[m.column as int].id;
    let order = m.draft.order_by;
    lemma_sorts_without(order, id, order.len() as int);
    assert(after_sort(m, context, direction).draft.order_by[i] == sorts_without(
        order,
        id,
        order.len() as int,
    )[i]);
}

/// The operators go round: ten steps lead back to the first.
pub proof fn operators_go_round(operator: SourceFilterOperator)
    ensures
        ({
            let five = operator_after(
                operator_after(operator_after(operator_after(operator_after(operator)))),
            );
            operator_after(operator_after(operator_after(operator_after(operator_after(five)))))
                == operator
        }),
{
}

/// A value is read as what it looks like: a truth value in any case, a whole number, a
/// number, or else text.
pub proof fn values_are_read_as_what_they_look_like(value: Seq<char>, n: nat)
    ensures
        text::lower(value) == "true"@ ==> operand_of(value) == OperandModel::Boolean(true),
        text::lower(value) == "false"@ ==> operand_of(value) == OperandModel::Boolean(false),
        operand_of(value) == OperandModel::Boolean(true) ==> text::lower(value) == "true"@,
        operand_of(value) == OperandModel::Boolean(false) ==> text::lower(value) == "false"@,
        n <= i64::MAX ==> operand_of(text::decimal(n)) == OperandModel::Integer(n as i64),
        n <= i64::MAX ==> operand_of(seq!['-'] + text::decimal(n)) == OperandModel::Integer(
            (-(n as int)) as i64,
        ),
        operand_of(value) matches OperandModel::Float(s) ==> s == value && text::is_float(value),
        operand_of(value) matches OperandModel::Text(s) ==> s == value && !text::is_float(value)
            && text::signed_value(value) is None,
{
    reveal_strlit("true");
    reveal_strlit("false");
    assert("true"@.len() == 4);
    assert("false"@.len() == 5);
    assert("true"@[0] == 't' && "false"@[0] == 'f');
    text::numbers_read_back(n, n);
    text::digits_have_their_value(n);
    let digits = text::decimal(n);
    let minus = seq!['-'] + digits;
    assert(text::is_digit(digits[0]));
    assert(text::lower(digits)[0] == text::lower_char(digits[0]));
    assert(text::lower(minus)[0] == text::lower_char('-'));
    if text::lower(value) == "true"@ {
        assert(text::lower(value) != "false"@);
    }
}

/// The operators follow each other in their order, and the last is followed by the first.
pub proof fn operators_follow_in_order()
    ensures
        operator_after(SourceFilterOperator::Equal) is NotEqual,
        operator_after(SourceFilterOperator::NotEqual) is LessThan,
        operator_after(SourceFilterOperator::LessThan) is LessThanOrEqual,
        operator_after(SourceFilterOperator::LessThanOrEqual) is GreaterThan,
        operator_after(SourceFilterOperator::GreaterThan) is GreaterThanOrEqual,
        operator_after(SourceFilterOperator::GreaterThanOrEqual) is Contains,
        operator_after(SourceFilterOperator::Contains) is Prefix,
        operator_after(SourceFilterOperator::Prefix) is IsNull,
        operator_after(SourceFilterOperator::IsNull) is IsNotNull,
        operator_after(SourceFilterOperator::IsNotNull) is Equal,
{
}

/// Raising and lowering a limit undo each other where both have room, go by a hundred,
/// and begin at a thousand where there was no limit; a limit is never lowered to zero.
pub proof fn limits_go_by_a_hundred(limit: usize)
    ensures
        limit < usize::MAX - 100 ==> raised(limit) == limit + 100,
        usize::MAX - 100 <= limit < usize::MAX ==> raised(limit) == usize::MAX,
        100 < limit < usize::MAX ==> lowered(limit) == limit - 100,
        limit <= 100 ==> lowered(limit) == 1,
        raised(usize::MAX) == 1000,
        lowered(usize::MAX) == 1000,
        0 < limit < usize::MAX - 100 ==> lowered(raised(limit)) == limit,
{
}

/// The two keys of a sort add one on the chosen column in their own direction behind the
/// others, and take away another on that column.
pub proof fn sort_keys_sort_in_their_direction(m: ModalModel, event: KeyEvent, context: SourceContext)
    requires
        context.sorting is Supported,
        m.column < context.columns@.len(),
    ensures
        event.code == KeyCode::Char('s') ==> after_plain_key(m, event, context).draft.order_by.last()
            == (SourceSort {
            column: context.columns@[m.column as int].id,
            direction: SortDirection::Ascending,
        }),
        event.code == KeyCode::Char('S') ==> after_plain_key(m, event, context).draft.order_by.last()
            == (SourceSort {
            column: context.columns@[m.column as int].id,
            direction: SortDirection::Descending,
        }),
        event.code == KeyCode::Char('s') || event.code == KeyCode::Char('S') ==> after_plain_key(
            m,
            event,
            context,
        ).draft.filters == m.draft.filters && after_plain_key(m, event, context).draft.limit
            == m.draft.limit && after_plain_key(m, event, context).column == m.column,
{
}

/// Keys move between the columns and stop at both ends, change the limit, go on to the
/// next operator, and open the two editors; any other key changes nothing.
pub proof fn plain_keys_do_what_they_say(m: ModalModel, event: KeyEvent, context: SourceContext)
    requires
        m.column < context.columns@.len(),
    ensures
        ({
            let then = after_plain_key(m, event, context);
            let left = event.code is Left || event.code == KeyCode::Char('h');
            let right = event.code is Right || event.code == KeyCode::Char('l');
            &&& left && m.column > 0 ==> then.column == m.column - 1 && then.draft == m.draft
            &&& left && m.column == 0 ==> then == m
            &&& right && m.column + 1 < context.columns@.len() ==> then.column == m.column + 1
                && then.draft == m.draft
            &&& right && m.column + 1 == context.columns@.len() ==> then == m
            &&& event.code == KeyCode::Char('+') ==> then.draft.limit == raised(m.draft.limit)
                && then.draft.filters == m.draft.filters && then.draft.order_by == m.draft.order_by
            &&& event.code == KeyCode::Char('-') ==> then.draft.limit == lowered(m.draft.limit)
                && then.draft.filters == m.draft.filters && then.draft.order_by == m.draft.order_by
            &&& event.code is Tab ==> then.operator == operator_after(m.operator) && then.draft
                == m.draft
            &&& event.code == KeyCode::Char('f') ==> then.editing_filter && then.draft == m.draft
            &&& event.code == KeyCode::Char('q') && m.draft.native_query is Some
                ==> then.editing_query && Some(then.query_input) == m.draft.native_query
            &&& event.code == KeyCode::Char('q') && m.draft.native_query is None
                ==> !then.editing_query || m.editing_query
            &&& event.code is Up || event.code is Down || event.code == KeyCode::Char('z') ==> then
                == m
        }),
{
    assert(m == (ModalModel { column: m.column, ..m }));
    assert(context.columns.len() == context.columns@.len());
}

/// Clearing a column drops its filters and its sorts and keeps all others in their
/// order.
pub proof fn clearing_drops_the_column_alone(m: ModalModel, context: SourceContext)
    requires
        m.column < context.columns@.len(),
    ensures
        ({
            let id = context.columns@[m.column as int].id;
            let then = after_clear(m, context);
            &&& then.draft.filters == m.draft.filters.filter(
                |f: FilterModel| f.scope != SourceFilterScope::Column(id),
            )
            &&& then.draft.order_by == m.draft.order_by.filter(|s: SourceSort| s.column != id)
            &&& then.draft.limit == m.draft.limit
            &&& then.column == m.column
        }),
{
    let id = context.columns@[m.column as int].id;
    lemma_filters_kept(m.draft.filters, id, m.draft.filters.len() as int);
    lemma_sorts_kept(m.draft.order_by, id, m.draft.order_by.len() as int);
    assert(m.draft.filters.take(m.draft.filters.len() as int) =~= m.draft.filters);
    assert(m.draft.order_by.take(m.draft.order_by.len() as int) =~= m.draft.order_by);
}

proof fn lemma_filters_kept(filters: Seq<FilterModel>, id: ColumnId, n: int)
    requires
        0 <= n <= filters.len(),
    ensures
        filters_without(filters, id, n) == filters.take(n).filter(
            |f: FilterModel| f.scope != SourceFilterScope::Column(id),
        ),
    decreases n,
{
    reveal(Seq::filter);
    if n > 0 {
        lemma_filters_kept(filters, id, n - 1);
        assert(filters.take(n).drop_last() =~= filters.take(n - 1));
    }
}

proof fn lemma_sorts_kept(order: Seq<SourceSort>, id: ColumnId, n: int)
    requires
        0 <= n <= order.len(),
    ensures
        sorts_without(order, id, n) == order.take(n).filter(|s: SourceSort| s.column != id),
    decreases n,
{
    reveal(Seq::filter);
    if n > 0 {
        lemma_sorts_kept(order, id, n - 1);
        assert(order.take(n).drop_last() =~= order.take(n - 1));
    }
}

/// Entering a filter adds one on the chosen column with the chosen operator and the
/// value that was typed, where the source takes it; otherwise the draft stays.
pub proof fn entered_filters_say_what_was_typed(m: ModalModel, context: SourceContext)
    requires
        m.column < context.columns@.len(),
    ensures
        ({
            let then = after_filter_entry(m, context);
            let null_test = m.operator is IsNull || m.operator is IsNotNull;
            let taken = context.filters@.contains(m.operator) && (null_test
                || m.filter_input.len() > 0);
            &&& !taken ==> then.draft == m.draft && then.error is Some && then.editing_filter
                == m.editing_filter
            &&& taken ==> {
                let added = then.draft.filters.last();
                &&& then.draft.filters.drop_last() == m.draft.filters
                &&& added.scope == SourceFilterScope::Column(context.columns@[m.column as int].id)
                &&& added.operator == m.operator
                &&& null_test ==> added.operand is None
                &&& !null_test ==> added.operand == Some(operand_of(m.filter_input))
                &&& then.filter_input.len() == 0
                &&& !then.editing_filter
                &&& then.error is None
            }
        }),
{
    let then = after_filter_entry(m, context);
    if then.draft.filters.len() > m.draft.filters.len() {
        assert(then.draft.filters.drop_last() =~= m.draft.filters);
    }
}

/// Keys in the editor of a query change what is typed and nothing of the draft, until
/// it is staged, without the white space around it, or given up.
pub proof fn queries_are_staged_whole(m: ModalModel, event: KeyEvent)
    ensures
        ({
            let then = after_query_key(m, event);
            let query = text::trimmed(m.query_input);
            &&& event.code is Enter && query.len() > 0 ==> then.draft.native_query == Some(query)
                && then.native_query_changed && !then.editing_query && then.draft.filters
                == m.draft.filters
            &&& event.code is Enter && query.len() == 0 ==> then.draft == m.draft
                && then.error is Some && then.editing_query == m.editing_query
            &&& event.code is Esc ==> !then.editing_query && then.draft == m.draft
            &&& event.code is Esc && m.draft.native_query is Some ==> Some(then.query_input)
                == m.draft.native_query
            &&& event.code !is Enter ==> then.draft == m.draft
            &&& event.code is Backspace && m.query_input.len() > 0 ==> then.query_input
                == m.query_input.drop_last()
            &&& keys::typed(event) is Some ==> then.query_input == m.query_input.push(
                keys::typed(event)->0,
            ) && then.editing_query == m.editing_query
        }),
{
}

/// Keys in the editor of a filter change what is typed and nothing of the draft until
/// it is entered.
pub proof fn filters_are_typed_before_they_are_entered(
    m: ModalModel,
    event: KeyEvent,
    context: SourceContext,
)
    ensures
        ({
            let then = after_filter_key(m, event, context);
            &&& event.code is Esc ==> !then.editing_filter && then.draft == m.draft
            &&& event.code is Tab ==> then.operator == operator_after(m.operator)
                && then.filter_input == m.filter_input
            &&& event.code !is Enter ==> then.draft == m.draft && then.column == m.column
            &&& event.code is Backspace && m.filter_input.len() > 0 ==> then.filter_input
                == m.filter_input.drop_last()
            &&& keys::typed(event) is Some ==> then.filter_input == m.filter_input.push(
                keys::typed(event)->0,
            )
            &&& event.code is Enter ==> then == after_filter_entry(m, context)
        }),
{
}

/// Two drafts are the same where they ask for the same rows in the same order, numbers
/// being compared by their value.
pub proof fn same_drafts_ask_alike(a: DraftModel, b: DraftModel, i: int)
    requires
        same_drafts(a, b),
        0 <= i < a.filters.len(),
    ensures
        a.limit == b.limit,
        a.order_by == b.order_by,
        a.native_query == b.native_query,
        a.filters.len() == b.filters.len(),
        a.filters[i].scope == b.filters[i].scope,
        a.filters[i].operator == b.filters[i].operator,
        a.filters[i].operand is Some <==> b.filters[i].operand is Some,
        a.filters[i].operand is Some && !(a.filters[i].operand->0 is Float) ==> a.filters[i].operand
            == b.filters[i].operand,
{
    assert(same_filter(a.filters[i], b.filters[i]));
}

/// The name of a column for the source is that of the first column with its number, and
/// a star stands for the whole record.
pub proof fn columns_are_named_for_the_source(
    columns: Seq<SourceColumn>,
    id: ColumnId,
    from: int,
    i: int,
)
    requires
        0 <= from <= i < columns.len(),
        columns[i].id == id,
        forall|k: int| from <= k < i ==> (#[trigger] columns[k]).id != id,
    ensures
        source_name(columns, id, from) == text::opt_view(columns[i].source_name),
        filter_column(columns, SourceFilterScope::WholeRecord) == Some(seq!['*']),
        filter_column(columns, SourceFilterScope::Column(id)) == source_name(columns, id, 0),
    decreases i - from,
{
    reveal_strlit("*");
    assert("*"@ =~= seq!['*']);
    if from < i {
        assert(columns[from].id != id);
        columns_are_named_for_the_source(columns, id, from + 1, i);
    }
}

/// While an editor is open the keys go to it and the dialogue stays; otherwise the key to
/// leave closes it, and every other key but that of a line end leaves it open.
pub proof fn keys_go_to_the_open_editor(
    r: SourceStep,
    m: ModalModel,
    event: KeyEvent,
    context: SourceContext,
)
    requires
        follows_key(r, m, event, context),
    ensures
        m.editing_query ==> r is Stay && r->Stay_0@ == after_query_key(m, event),
        !m.editing_query && m.editing_filter ==> r is Stay && r->Stay_0@ == after_filter_key(
            m,
            event,
            context,
        ),
        !m.editing_query && !m.editing_filter && event.code is Esc ==> r is Close,
        !m.editing_query && !m.editing_filter && event.code !is Esc && event.code !is Enter ==> r
            is Stay && r->Stay_0@ == after_plain_key(m, event, context),
        r is Request ==> event.code is Enter && !m.editing_query && !m.editing_filter,
{
}

/// A draft that differs from what is shown is asked for as it is drawn up: each filter and
/// each sort in its place, by the names that the source knows; where it knows none, that
/// is told and nothing is asked.
pub proof fn drafts_are_requested_as_drawn_up(
    r: SourceStep,
    m: ModalModel,
    context: SourceContext,
    i: int,
    k: int,
)
    requires
        follows_enter(r, m, context),
        context.active is None,
        0 <= i < m.draft.filters.len(),
        0 <= k < m.draft.order_by.len(),
    ensures
        filter_column(context.columns@, m.draft.filters[i].scope) is None ==> r is Stay
            && r->Stay_0@.draft == m.draft && r->Stay_0@.error is Some,
        r is Stay || r is Request,
        r matches SourceStep::Request(modal, request) ==> {
            &&& modal@ == m
            &&& request.filters@.len() == m.draft.filters.len()
            &&& request.sort@.len() == m.draft.order_by.len()
            &&& request.filters@[i].operator == m.draft.filters[i].operator
            &&& operand_model(request.filters@[i].operand) == m.draft.filters[i].operand
            &&& Some(request.filters@[i].column@) == filter_column(
                context.columns@,
                m.draft.filters[i].scope,
            )
            &&& request.sort@[k].direction == m.draft.order_by[k].direction
            &&& Some(request.sort@[k].column@) == source_name(
                context.columns@,
                m.draft.order_by[k].column,
                0,
            )
            &&& request.query.limit == m.draft.limit
        },
{
    if let SourceStep::Request(modal, request) = r {
        assert(request.filters@[i].operator == m.draft.filters[i].operator);
        assert(request.sort@[k].direction == m.draft.order_by[k].direction);
    }
}

/// Values are compared by what they are: numbers with a fraction by their value, all
/// others as they stand, and values of different kinds are never the same.
pub proof fn values_are_compared_by_kind(a: OperandModel, b: OperandModel, x: Seq<char>, y: Seq<char>)
    ensures
        same_operands(Some(OperandModel::Float(x)), Some(OperandModel::Float(y)))
            <==> numerals::same_numbers(x, y),
        !(a is Float && b is Float) ==> (same_operands(Some(a), Some(b)) <==> a == b),
        same_operands(None, None),
        !same_operands(Some(a), None),
        !same_operands(None, Some(b)),
{
}

} // verus!
