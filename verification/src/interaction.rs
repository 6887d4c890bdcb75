//! Commands and keys: what they do to a view and to the dialogues over it.

use vstd::prelude::*;
use vstd::string::*;

use crate::keys::{self, KeyCode, KeyEvent, KeyModifiers, is_line_end, shorten, typed_char};
use crate::saved_views::{FilterKind, SavedView};
use crate::source::{self, extension_of};
use crate::status::Position;
use crate::table::{Row, RowCount, SortDirection};
use crate::text::{self, concat2, trim};

verus! {

/// What a command can do.
#[derive(Debug, Clone, Copy, PartialEq, Eq, Structural)]
pub enum Command {
    Quit,
    Reload,
    MoveUp,
    MoveDown,
    MoveLeft,
    MoveRight,
    Help,
    PageUp,
    PageDown,
    PageLeft,
    PageRight,
    LineHome,
    LineEnd,
    GotoTop,
    GotoRow,
    GotoColumn,
    Mark,
    GotoMark,
    ShowCell,
    Search,
    ColumnInfo,
    SourceConfig,
    ViewConfig,
    Query,
    SavedView,
    FilterIn,
    FilterOut,
    NextSearchResult,
    PreviousSearchResult,
    ToggleHeader,
    GapDown,
    GapUp,
    AllColumnsNarrower,
    AllColumnsWider,
    CurrentColumnNarrower,
    CurrentColumnWider,
    SortNaturalAsc,
    SortNaturalDesc,
    SortNumericAsc,
    SortNumericDesc,
    SortLexicalAsc,
    SortLexicalDesc,
    YankCell,
    YankRawCell,
    ToggleColumnWidthMode,
    SetCurrentColumnWidth,
    ColumnHideLeft,
    ColumnHideRight,
    ColumnHideCurrent,
    ColumnShowLeft,
    ColumnShowRight,
    ColumnSortAsc,
    ColumnSortDesc,
    ColumnSortClear,
    SkipRowChangeForward,
    SkipRowChangeBackward,
    SkipColumnChangeForward,
    SkipColumnChangeBackward,
    ShowInfo,
    Redraw,
}

/// A command and how often it is to be done.
#[derive(Debug, Clone, Copy, PartialEq, Eq, Structural)]
pub struct KeyAction {
    pub command: Command,
    pub count: Option<usize>,
}

/// The dialogues that lie over a view.
#[derive(Debug, Clone, Copy, PartialEq, Eq, Structural)]
pub enum Popup {
    Help,
    Cell,
    Info,
    Search,
    Filter,
    ColumnInfo,
    SourceConfig,
    ViewConfig,
    Query,
    SavedView,
}

/// How values are compared for sorting.
#[derive(Debug, Clone, Copy, PartialEq, Eq, Structural)]
pub enum SortMode {
    Lexical,
    Natural,
    Numeric,
}

/// Whether a filter keeps rows in or out.
#[derive(Debug, Clone, Copy, PartialEq, Eq, Structural)]
pub enum FilterMode {
    In,
    Out,
}

/// Which way is searched.
#[derive(Debug, Clone, Copy, PartialEq, Eq, Structural)]
pub enum SearchDirection {
    Forward,
    Reverse,
}

/// Along what is skipped.
#[derive(Debug, Clone, Copy, PartialEq, Eq, Structural)]
pub enum Axis {
    Row,
    Column,
}

/// Which way is skipped.
#[derive(Debug, Clone, Copy, PartialEq, Eq, Structural)]
pub enum SkipDirection {
    Forward,
    Backward,
}

// ---------------------------------------------------------------------------
// Commands
// ---------------------------------------------------------------------------

/// What is to be done with a view.
#[derive(Debug, Clone, Copy, PartialEq, Eq, Structural)]
pub enum ViewAction {
    Nothing,
    Reload,
    MoveBy { rows: isize, columns: isize },
    PageBy { rows: isize, columns: isize, count: usize },
    Goto { row: usize, column: usize },
    GotoTop,
    GotoBottom,
    GotoUserRow(usize),
    GotoUserColumn(usize),
    SetMark,
    GotoMark,
    Open(Popup),
    StartSearch,
    OpenColumnInfo,
    OpenSourceConfig,
    OpenSavedView,
    OpenFilter(FilterMode),
    FindNext(SearchDirection),
    ToggleHeader,
    AdjustGap(isize),
    AdjustAllWidths(isize),
    AdjustCurrentWidth(isize),
    SetAllWidths(usize),
    ToggleVariableWidths,
    SetCurrentWidth(usize),
    MaximizeCurrentWidth,
    SortBy { mode: SortMode, direction: SortDirection },
    ClearSort,
    YankCell,
    YankRawCell,
    HideLeft(usize),
    HideRight(usize),
    HideCurrent,
    ShowLeft(usize),
    ShowRight(usize),
    Skip { axis: Axis, direction: SkipDirection, count: usize },
}

/// What of a view decides what a command does.
#[derive(Debug, Clone, Copy, PartialEq, Eq, Structural)]
pub struct CommandContext {
    pub cursor: Position,
    pub column_count: usize,
    pub cell_has_text: bool,
    pub numeric_column: bool,
}

/// The last column of a view.
pub open spec fn last_column(context: CommandContext) -> usize {
    if context.column_count > 0 {
        (context.column_count - 1) as usize
    } else {
        0
    }
}

/// The sort that fits the column of the cursor.
pub open spec fn fitting_mode(context: CommandContext) -> SortMode {
    if context.numeric_column {
        SortMode::Numeric
    } else {
        SortMode::Lexical
    }
}

/// How often a command is done: once, unless it says how often.
pub open spec fn times(count: Option<usize>) -> usize {
    match count {
        Some(n) => n,
        None => 1,
    }
}

/// What a movement command does.
pub open spec fn movement(action: KeyAction, context: CommandContext) -> Option<ViewAction> {
    let n = times(action.count);
    match action.command {
        Command::MoveUp => Some(ViewAction::MoveBy { rows: (-n) as isize, columns: 0 }),
        Command::MoveDown => Some(ViewAction::MoveBy { rows: n as isize, columns: 0 }),
        Command::MoveLeft => Some(ViewAction::MoveBy { rows: 0, columns: (-n) as isize }),
        Command::MoveRight => Some(ViewAction::MoveBy { rows: 0, columns: n as isize }),
        Command::PageUp => Some(ViewAction::PageBy { rows: (-1) as isize, columns: 0, count: n }),
        Command::PageDown => Some(ViewAction::PageBy { rows: 1, columns: 0, count: n }),
        Command::PageLeft => Some(ViewAction::PageBy { rows: 0, columns: (-1) as isize, count: n }),
        Command::PageRight => Some(ViewAction::PageBy { rows: 0, columns: 1, count: n }),
        Command::LineHome => Some(ViewAction::Goto { row: context.cursor.row, column: 0 }),
        Command::LineEnd => Some(
            ViewAction::Goto { row: context.cursor.row, column: last_column(context) },
        ),
        Command::GotoTop => Some(ViewAction::GotoTop),
        Command::GotoRow => Some(
            match action.count {
                Some(row) => ViewAction::GotoUserRow(row),
                None => ViewAction::GotoBottom,
            },
        ),
        Command::GotoColumn => Some(
            match action.count {
                Some(column) => ViewAction::GotoUserColumn(column),
                None => ViewAction::Goto { row: context.cursor.row, column: 0 },
            },
        ),
        Command::Mark => Some(ViewAction::SetMark),
        Command::GotoMark => Some(ViewAction::GotoMark),
        Command::SkipRowChangeForward => Some(
            ViewAction::Skip { axis: Axis::Row, direction: SkipDirection::Forward, count: n },
        ),
        Command::SkipRowChangeBackward => Some(
            ViewAction::Skip { axis: Axis::Row, direction: SkipDirection::Backward, count: n },
        ),
        Command::SkipColumnChangeForward => Some(
            ViewAction::Skip { axis: Axis::Column, direction: SkipDirection::Forward, count: n },
        ),
        Command::SkipColumnChangeBackward => Some(
            ViewAction::Skip { axis: Axis::Column, direction: SkipDirection::Backward, count: n },
        ),
        Command::NextSearchResult => Some(ViewAction::FindNext(SearchDirection::Forward)),
        Command::PreviousSearchResult => Some(ViewAction::FindNext(SearchDirection::Reverse)),
        _ => None,
    }
}

/// What a command that opens a dialogue does.
pub open spec fn opening(action: KeyAction, context: CommandContext) -> Option<ViewAction> {
    match action.command {
        Command::Help => Some(ViewAction::Open(Popup::Help)),
        Command::ShowCell => Some(
            if context.cell_has_text {
                ViewAction::Open(Popup::Cell)
            } else {
                ViewAction::Nothing
            },
        ),
        Command::Search => Some(ViewAction::StartSearch),
        Command::ColumnInfo => Some(ViewAction::OpenColumnInfo),
        Command::SourceConfig => Some(ViewAction::OpenSourceConfig),
        Command::ViewConfig => Some(ViewAction::Open(Popup::ViewConfig)),
        Command::Query => Some(ViewAction::Open(Popup::Query)),
        Command::SavedView => Some(ViewAction::OpenSavedView),
        Command::FilterIn => Some(ViewAction::OpenFilter(FilterMode::In)),
        Command::FilterOut => Some(ViewAction::OpenFilter(FilterMode::Out)),
        Command::ShowInfo => Some(ViewAction::Open(Popup::Info)),
        _ => None,
    }
}

/// What a command that sorts does.
pub open spec fn sorting(command: Command, context: CommandContext) -> Option<ViewAction> {
    match command {
        Command::SortNaturalAsc => Some(
            ViewAction::SortBy { mode: SortMode::Natural, direction: SortDirection::Ascending },
        ),
        Command::SortNaturalDesc => Some(
            ViewAction::SortBy { mode: SortMode::Natural, direction: SortDirection::Descending },
        ),
        Command::SortNumericAsc => Some(
            ViewAction::SortBy { mode: SortMode::Numeric, direction: SortDirection::Ascending },
        ),
        Command::SortNumericDesc => Some(
            ViewAction::SortBy { mode: SortMode::Numeric, direction: SortDirection::Descending },
        ),
        Command::SortLexicalAsc => Some(
            ViewAction::SortBy { mode: SortMode::Lexical, direction: SortDirection::Ascending },
        ),
        Command::SortLexicalDesc => Some(
            ViewAction::SortBy { mode: SortMode::Lexical, direction: SortDirection::Descending },
        ),
        Command::ColumnSortAsc => Some(
            ViewAction::SortBy { mode: fitting_mode(context), direction: SortDirection::Ascending },
        ),
        Command::ColumnSortDesc => Some(
            ViewAction::SortBy {
                mode: fitting_mode(context),
                direction: SortDirection::Descending,
            },
        ),
        Command::ColumnSortClear => Some(ViewAction::ClearSort),
        _ => None,
    }
}

/// What a command that changes how columns look does.
pub open spec fn layout(action: KeyAction) -> Option<ViewAction> {
    let n = times(action.count);
    match action.command {
        Command::ToggleHeader => Some(ViewAction::ToggleHeader),
        Command::GapDown => Some(ViewAction::AdjustGap((-n) as isize)),
        Command::GapUp => Some(ViewAction::AdjustGap(n as isize)),
        Command::AllColumnsNarrower => Some(ViewAction::AdjustAllWidths((-n) as isize)),
        Command::AllColumnsWider => Some(ViewAction::AdjustAllWidths(n as isize)),
        Command::CurrentColumnNarrower => Some(ViewAction::AdjustCurrentWidth((-n) as isize)),
        Command::CurrentColumnWider => Some(ViewAction::AdjustCurrentWidth(n as isize)),
        Command::ToggleColumnWidthMode => Some(
            match action.count {
                Some(width) => ViewAction::SetAllWidths(width),
                None => ViewAction::ToggleVariableWidths,
            },
        ),
        Command::SetCurrentColumnWidth => Some(
            match action.count {
                Some(width) => ViewAction::SetCurrentWidth(width),
                None => ViewAction::MaximizeCurrentWidth,
            },
        ),
        Command::ColumnHideLeft => Some(ViewAction::HideLeft(n)),
        Command::ColumnHideRight => Some(ViewAction::HideRight(n)),
        Command::ColumnHideCurrent => Some(ViewAction::HideCurrent),
        Command::ColumnShowLeft => Some(ViewAction::ShowLeft(n)),
        Command::ColumnShowRight => Some(ViewAction::ShowRight(n)),
        _ => None,
    }
}

/// What a command does to a view.
pub open spec fn view_action(action: KeyAction, context: CommandContext) -> ViewAction {
    match action.command {
        Command::Quit => ViewAction::Nothing,
        Command::Redraw => ViewAction::Nothing,
        Command::Reload => ViewAction::Reload,
        Command::YankCell => ViewAction::YankCell,
        Command::YankRawCell => ViewAction::YankRawCell,
        _ => match (
            movement(action, context),
            opening(action, context),
            sorting(action.command, context),
            layout(action),
        ) {
            (Some(done), _, _, _) => done,
            (None, Some(done), _, _) => done,
            (None, None, Some(done), _) => done,
            (None, None, None, Some(done)) => done,
            (None, None, None, None) => ViewAction::Nothing,
        },
    }
}

/// Whether a command goes by its count in one direction or the other.
pub open spec fn is_signed(command: Command) -> bool {
    match command {
        Command::MoveUp => true,
        Command::MoveDown => true,
        Command::MoveLeft => true,
        Command::MoveRight => true,
        Command::GapDown => true,
        Command::GapUp => true,
        Command::AllColumnsNarrower => true,
        Command::AllColumnsWider => true,
        Command::CurrentColumnNarrower => true,
        Command::CurrentColumnWider => true,
        _ => false,
    }
}

fn forward(count: usize) -> (r: isize)
    requires
        count <= isize::MAX,
    ensures
        r == count,
{
    count as isize
}

fn backward(count: usize) -> (r: isize)
    requires
        count <= isize::MAX,
    ensures
        r == -count,
{
    -(count as isize)
}

/// What a command does to a view.
pub fn apply(action: KeyAction, context: CommandContext) -> (r: ViewAction)
    requires
        is_signed(action.command) && action.count is Some ==> action.count->0 <= isize::MAX,
    ensures
        r == view_action(action, context),
{
    let count: usize = match action.count {
        Some(n) => n,
        None => 1,
    };
    let mode = if context.numeric_column {
        SortMode::Numeric
    } else {
        SortMode::Lexical
    };
    match action.command {
        Command::Quit => ViewAction::Nothing,
        Command::Reload => ViewAction::Reload,
        Command::MoveUp => ViewAction::MoveBy { rows: backward(count), columns: 0 },
        Command::MoveDown => ViewAction::MoveBy { rows: forward(count), columns: 0 },
        Command::MoveLeft => ViewAction::MoveBy { rows: 0, columns: backward(count) },
        Command::MoveRight => ViewAction::MoveBy { rows: 0, columns: forward(count) },
        Command::Help => ViewAction::Open(Popup::Help),
        Command::PageUp => ViewAction::PageBy { rows: -1, columns: 0, count },
        Command::PageDown => ViewAction::PageBy { rows: 1, columns: 0, count },
        Command::PageLeft => ViewAction::PageBy { rows: 0, columns: -1, count },
        Command::PageRight => ViewAction::PageBy { rows: 0, columns: 1, count },
        Command::LineHome => ViewAction::Goto { row: context.cursor.row, column: 0 },
        Command::LineEnd => ViewAction::Goto {
            row: context.cursor.row,
            column: if context.column_count > 0 {
                context.column_count - 1
            } else {
                0
            },
        },
        Command::GotoTop => ViewAction::GotoTop,
        Command::GotoRow => match action.count {
            Some(row) => ViewAction::GotoUserRow(row),
            None => ViewAction::GotoBottom,
        },
        Command::GotoColumn => match action.count {
            Some(column) => ViewAction::GotoUserColumn(column),
            None => ViewAction::Goto { row: context.cursor.row, column: 0 },
        },
        Command::Mark => ViewAction::SetMark,
        Command::GotoMark => ViewAction::GotoMark,
        Command::ShowCell => if context.cell_has_text {
            ViewAction::Open(Popup::Cell)
        } else {
            ViewAction::Nothing
        },
        Command::Search => ViewAction::StartSearch,
        Command::ColumnInfo => ViewAction::OpenColumnInfo,
        Command::SourceConfig => ViewAction::OpenSourceConfig,
        Command::ViewConfig => ViewAction::Open(Popup::ViewConfig),
        Command::Query => ViewAction::Open(Popup::Query),
        Command::SavedView => ViewAction::OpenSavedView,
        Command::FilterIn => ViewAction::OpenFilter(FilterMode::In),
        Command::FilterOut => ViewAction::OpenFilter(FilterMode::Out),
        Command::NextSearchResult => ViewAction::FindNext(SearchDirection::Forward),
        Command::PreviousSearchResult => ViewAction::FindNext(SearchDirection::Reverse),
        Command::ToggleHeader => ViewAction::ToggleHeader,
        Command::GapDown => ViewAction::AdjustGap(backward(count)),
        Command::GapUp => ViewAction::AdjustGap(forward(count)),
        Command::AllColumnsNarrower => ViewAction::AdjustAllWidths(backward(count)),
        Command::AllColumnsWider => ViewAction::AdjustAllWidths(forward(count)),
        Command::CurrentColumnNarrower => ViewAction::AdjustCurrentWidth(backward(count)),
        Command::CurrentColumnWider => ViewAction::AdjustCurrentWidth(forward(count)),
        Command::SortNaturalAsc => ViewAction::SortBy {
            mode: SortMode::Natural,
            direction: SortDirection::Ascending,
        },
        Command::SortNaturalDesc => ViewAction::SortBy {
            mode: SortMode::Natural,
            direction: SortDirection::Descending,
        },
        Command::SortNumericAsc => ViewAction::SortBy {
            mode: SortMode::Numeric,
            direction: SortDirection::Ascending,
        },
        Command::SortNumericDesc => ViewAction::SortBy {
            mode: SortMode::Numeric,
            direction: SortDirection::Descending,
        },
        Command::SortLexicalAsc => ViewAction::SortBy {
            mode: SortMode::Lexical,
            direction: SortDirection::Ascending,
        },
        Command::SortLexicalDesc => ViewAction::SortBy {
            mode: SortMode::Lexical,
            direction: SortDirection::Descending,
        },
        Command::YankCell => ViewAction::YankCell,
        Command::YankRawCell => ViewAction::YankRawCell,
        Command::ToggleColumnWidthMode => match action.count {
            Some(width) => ViewAction::SetAllWidths(width),
            None => ViewAction::ToggleVariableWidths,
        },
        Command::SetCurrentColumnWidth => match action.count {
            Some(width) => ViewAction::SetCurrentWidth(width),
            None => ViewAction::MaximizeCurrentWidth,
        },
        Command::ColumnHideLeft => ViewAction::HideLeft(count),
        Command::ColumnHideRight => ViewAction::HideRight(count),
        Command::ColumnHideCurrent => ViewAction::HideCurrent,
        Command::ColumnShowLeft => ViewAction::ShowLeft(count),
        Command::ColumnShowRight => ViewAction::ShowRight(count),
        Command::ColumnSortAsc => ViewAction::SortBy { mode, direction: SortDirection::Ascending },
        Command::ColumnSortDesc => ViewAction::SortBy {
            mode,
            direction: SortDirection::Descending,
        },
        Command::ColumnSortClear => ViewAction::ClearSort,
        Command::SkipRowChangeForward => ViewAction::Skip {
            axis: Axis::Row,
            direction: SkipDirection::Forward,
            count,
        },
        Command::SkipRowChangeBackward => ViewAction::Skip {
            axis: Axis::Row,
            direction: SkipDirection::Backward,
            count,
        },
        Command::SkipColumnChangeForward => ViewAction::Skip {
            axis: Axis::Column,
            direction: SkipDirection::Forward,
            count,
        },
        Command::SkipColumnChangeBackward => ViewAction::Skip {
            axis: Axis::Column,
            direction: SkipDirection::Backward,
            count,
        },
        Command::ShowInfo => ViewAction::Open(Popup::Info),
        Command::Redraw => ViewAction::Nothing,
    }
}

// ---------------------------------------------------------------------------
// Keys
// ---------------------------------------------------------------------------

/// Where a key goes.
#[derive(Debug, Clone, Copy, PartialEq, Eq, Structural)]
pub enum KeyRoute {
    Search,
    Filter,
    ColumnInfo,
    SourceConfig,
    SavedView,
    ClosePopup,
    ClearViewOperations,
    ToggleNullPlacement,
    OpenColumnInfo,
    CopyQuery,
    Ignored,
    Command,
}

/// Whether a key closes a dialogue that only shows something: it does if it is one of
/// those that close any, or is bound to leaving or to the help.
pub open spec fn closes(event: KeyEvent, bound: Option<Command>) -> bool {
    event.code is Esc || event.code is Enter || bound == Some(Command::Quit) || bound == Some(
        Command::Help,
    )
}

/// Whether a key closes a dialogue that only shows something.
pub fn closes_popup(event: KeyEvent, bound: Option<Command>) -> (r: bool)
    ensures
        r == closes(event, bound),
{
    event.code == KeyCode::Esc || event.code == KeyCode::Enter || match bound {
        Some(Command::Quit) => true,
        Some(Command::Help) => true,
        _ => false,
    }
}

/// Where a key goes in the dialogue of the view.
pub open spec fn view_config_route(code: KeyCode) -> KeyRoute {
    if code is Esc || code is Enter {
        KeyRoute::ClosePopup
    } else if code == KeyCode::Char('x') {
        KeyRoute::ClearViewOperations
    } else if code == KeyCode::Char('n') {
        KeyRoute::ToggleNullPlacement
    } else if code == KeyCode::Char('i') {
        KeyRoute::OpenColumnInfo
    } else {
        KeyRoute::Ignored
    }
}

/// Where a key goes in the dialogue of the query.
pub open spec fn query_route(code: KeyCode) -> KeyRoute {
    if code is Esc || code is Enter {
        KeyRoute::ClosePopup
    } else if code == KeyCode::Char('y') {
        KeyRoute::CopyQuery
    } else {
        KeyRoute::Ignored
    }
}

/// Where a key goes: to the dialogue that is open, else to the commands.
pub open spec fn key_route(popup: Option<Popup>, event: KeyEvent, bound: Option<Command>) -> KeyRoute {
    match popup {
        Some(Popup::Search) => KeyRoute::Search,
        Some(Popup::Filter) => KeyRoute::Filter,
        Some(Popup::ColumnInfo) => KeyRoute::ColumnInfo,
        Some(Popup::SourceConfig) => KeyRoute::SourceConfig,
        Some(Popup::ViewConfig) => view_config_route(event.code),
        Some(Popup::Query) => query_route(event.code),
        Some(Popup::SavedView) => KeyRoute::SavedView,
        Some(_) => if closes(event, bound) {
            KeyRoute::ClosePopup
        } else {
            KeyRoute::Ignored
        },
        None => KeyRoute::Command,
    }
}

/// Where a key goes.
pub fn handle_key(popup: Option<Popup>, event: KeyEvent, bound: Option<Command>) -> (r: KeyRoute)
    ensures
        r == key_route(popup, event, bound),
{
    match popup {
        Some(Popup::Search) => KeyRoute::Search,
        Some(Popup::Filter) => KeyRoute::Filter,
        Some(Popup::ColumnInfo) => KeyRoute::ColumnInfo,
        Some(Popup::SourceConfig) => KeyRoute::SourceConfig,
        Some(Popup::ViewConfig) => match event.code {
            KeyCode::Esc => KeyRoute::ClosePopup,
            KeyCode::Enter => KeyRoute::ClosePopup,
            KeyCode::Char(c) => if c == 'x' {
                KeyRoute::ClearViewOperations
            } else if c == 'n' {
                KeyRoute::ToggleNullPlacement
            } else if c == 'i' {
                KeyRoute::OpenColumnInfo
            } else {
                KeyRoute::Ignored
            },
            _ => KeyRoute::Ignored,
        },
        Some(Popup::Query) => match event.code {
            KeyCode::Esc => KeyRoute::ClosePopup,
            KeyCode::Enter => KeyRoute::ClosePopup,
            KeyCode::Char(c) => if c == 'y' {
                KeyRoute::CopyQuery
            } else {
                KeyRoute::Ignored
            },
            _ => KeyRoute::Ignored,
        },
        Some(Popup::SavedView) => KeyRoute::SavedView,
        Some(_) => if closes_popup(event, bound) {
            KeyRoute::ClosePopup
        } else {
            KeyRoute::Ignored
        },
        None => KeyRoute::Command,
    }
}

/// What finds the command of a key: the table of bindings, or the reader of typed
/// counts and commands.
#[derive(Debug, Clone, Copy, PartialEq, Eq, Structural)]
pub enum CommandSource {
    Binding,
    Typed(char),
}

/// What finds the command of a key: the reader for characters without the control key.
pub fn command_source(event: KeyEvent) -> (r: CommandSource)
    ensures
        r == (match event.code {
            KeyCode::Char(c) => if event.modifiers is Control {
                CommandSource::Binding
            } else {
                CommandSource::Typed(c)
            },
            _ => CommandSource::Binding,
        }),
{
    if event.modifiers == KeyModifiers::Control {
        return CommandSource::Binding;
    }
    match event.code {
        KeyCode::Char(c) => CommandSource::Typed(c),
        _ => CommandSource::Binding,
    }
}

/// Whether keys are only looked for now and then, because the source may have news:
/// while a query runs, and while rows still arrive.
pub fn watches_source(query_pending: bool, streaming: bool, rows: RowCount) -> (r: bool)
    ensures
        r == (query_pending || (streaming && rows !is Exact)),
{
    query_pending || (streaming && match rows {
        RowCount::Exact(_) => false,
        _ => true,
    })
}

// ---------------------------------------------------------------------------
// The search prompt
// ---------------------------------------------------------------------------

/// What follows a key in the search prompt.
#[derive(Debug, PartialEq, Eq)]
pub enum SearchStep {
    Close,
    Edited(String),
    Ignored,
}

/// Handles a key in the search prompt.
pub fn handle_search_key(query: &str, event: KeyEvent) -> (r: SearchStep)
    ensures
        if event.code is Esc || keys::ends_line(event) {
            r is Close
        } else if event.code is Backspace {
            match r {
                SearchStep::Edited(next) => next@ == keys::shortened(query@),
                _ => false,
            }
        } else if keys::typed(event) is Some {
            match r {
                SearchStep::Edited(next) => next@ == query@.push(keys::typed(event)->0),
                _ => false,
            }
        } else {
            r is Ignored
        },
{
    if event.code == KeyCode::Esc || is_line_end(event) {
        return SearchStep::Close;
    }
    if event.code == KeyCode::Backspace {
        return SearchStep::Edited(shorten(query));
    }
    match typed_char(event) {
        Some(c) => {
            let mut next = query.to_owned();
            next.push(c);
            SearchStep::Edited(next)
        },
        None => SearchStep::Ignored,
    }
}

/// Whether the search has to go on: not without a query, and not from a cell that it
/// fits.
pub fn search_moves(query: &str, current_matches: bool) -> (r: bool)
    ensures
        r == (query@.len() > 0 && !current_matches),
{
    !query.is_empty() && !current_matches
}

// ---------------------------------------------------------------------------
// The filter prompt
// ---------------------------------------------------------------------------

/// The state of the filter prompt.
#[derive(Debug, PartialEq, Eq)]
pub struct FilterPrompt {
    pub mode: FilterMode,
    pub column: usize,
    pub selected_kind: FilterKind,
    pub enabled_kinds: Vec<FilterKind>,
    pub input: String,
    pub error: Option<String>,
}

/// The model of the filter prompt.
pub struct PromptModel {
    pub mode: FilterMode,
    pub column: usize,
    pub selected_kind: FilterKind,
    pub enabled_kinds: Seq<FilterKind>,
    pub input: Seq<char>,
    pub error: Option<Seq<char>>,
}

impl View for FilterPrompt {
    type V = PromptModel;

    open spec fn view(&self) -> PromptModel {
        PromptModel {
            mode: self.mode,
            column: self.column,
            selected_kind: self.selected_kind,
            enabled_kinds: self.enabled_kinds@,
            input: self.input@,
            error: text::opt_view(self.error),
        }
    }
}

/// Which kinds of filters a column takes.
#[derive(Debug, Clone, Copy, PartialEq, Eq, Structural)]
pub struct KindSupport {
    pub text: bool,
    pub regex: bool,
    pub numeric: bool,
}

/// Some items, if something holds.
pub open spec fn kind_if(holds: bool, kind: FilterKind) -> Seq<FilterKind> {
    if holds {
        seq![kind]
    } else {
        Seq::empty()
    }
}

/// The kinds of filters that a column takes.
pub open spec fn supported_kinds(support: KindSupport) -> Seq<FilterKind> {
    kind_if(support.text, FilterKind::Text) + kind_if(support.regex, FilterKind::Regex) + kind_if(
        support.numeric,
        FilterKind::Numeric,
    )
}

/// The place of the first item of a kind from `from` on; the first place where there
/// is none.
pub open spec fn kind_place(kinds: Seq<FilterKind>, kind: FilterKind, from: int) -> int
    decreases kinds.len() - from,
{
    if from < 0 || from >= kinds.len() {
        0
    } else if kinds[from] == kind {
        from
    } else {
        kind_place(kinds, kind, from + 1)
    }
}

/// The kind after another, in a circle.
pub open spec fn kind_after(kinds: Seq<FilterKind>, kind: FilterKind) -> FilterKind {
    let place = kind_place(kinds, kind, 0);
    if place + 1 < kinds.len() {
        kinds[place + 1]
    } else {
        kinds[0]
    }
}

/// The prompt after its kind is changed.
pub open spec fn after_cycle(m: PromptModel) -> PromptModel {
    if m.enabled_kinds.len() == 0 {
        m
    } else {
        PromptModel {
            selected_kind: kind_after(m.enabled_kinds, m.selected_kind),
            error: None,
            ..m
        }
    }
}

impl FilterPrompt {
    /// The prompt for a column.
    pub fn new(
        mode: FilterMode,
        column: usize,
        support: KindSupport,
        default_kind: FilterKind,
    ) -> (r: FilterPrompt)
        ensures
            r@ == (PromptModel {
                mode,
                column,
                selected_kind: default_kind,
                enabled_kinds: supported_kinds(support),
                input: Seq::empty(),
                error: None,
            }),
    {
        let mut enabled_kinds: Vec<FilterKind> = Vec::new();
        if support.text {
            enabled_kinds.push(FilterKind::Text);
        }
        if support.regex {
            enabled_kinds.push(FilterKind::Regex);
        }
        if support.numeric {
            enabled_kinds.push(FilterKind::Numeric);
        }
        assert(enabled_kinds@ =~= supported_kinds(support));
        let input = String::new();
        assert(input@ =~= Seq::<char>::empty());
        FilterPrompt {
            mode,
            column,
            selected_kind: default_kind,
            enabled_kinds,
            input,
            error: None,
        }
    }

    /// Changes the kind of the filter to the next one, in a circle.
    pub fn cycle_kind(&mut self)
        ensures
            final(self)@ == after_cycle(old(self)@),
    {
        let count: usize = self.enabled_kinds.len();
        if count == 0 {
            return;
        }
        let mut place: usize = 0;
        let mut i: usize = 0;
        while i < count && self.enabled_kinds[i] != self.selected_kind
            invariant
                i <= count,
                count == self.enabled_kinds@.len(),
                *self == *old(self),
                kind_place(self.enabled_kinds@, self.selected_kind, 0) == kind_place(
                    self.enabled_kinds@,
                    self.selected_kind,
                    i as int,
                ),
            decreases count - i,
        {
            i = i + 1;
        }
        if i < count {
            place = i;
        }
        self.selected_kind = if place + 1 < count {
            self.enabled_kinds[place + 1]
        } else {
            self.enabled_kinds[0]
        };
        self.error = None;
    }
}

/// What follows a key in the filter prompt: it goes on, is closed, clears the filters
/// of its column, or asks the view to apply the filter.
#[derive(Debug, PartialEq, Eq)]
pub enum FilterStep {
    Stay(FilterPrompt),
    Close,
    Clear { column: usize },
    Submit(FilterPrompt),
}

/// Whether this is what follows a key in the filter prompt.
pub open spec fn follows_filter_key(r: FilterStep, m: PromptModel, event: KeyEvent) -> bool {
    if event.code is Esc {
        r is Close
    } else if keys::ends_line(event) {
        if text::trimmed(m.input).len() == 0 {
            r == (FilterStep::Clear { column: m.column })
        } else {
            match r {
                FilterStep::Submit(prompt) => prompt@ == m,
                _ => false,
            }
        }
    } else {
        match r {
            FilterStep::Stay(prompt) => prompt@ == (if event.code is Tab {
                after_cycle(m)
            } else if event.code is Backspace {
                PromptModel { input: keys::shortened(m.input), error: None, ..m }
            } else if keys::typed(event) is Some {
                PromptModel { input: m.input.push(keys::typed(event)->0), error: None, ..m }
            } else {
                m
            }),
            _ => false,
        }
    }
}

/// Handles a key in the filter prompt. Without a prompt there is nothing to go on with.
pub fn handle_filter_key(open: Option<FilterPrompt>, event: KeyEvent) -> (r: FilterStep)
    ensures
        match open {
            Some(prompt) => follows_filter_key(r, prompt@, event),
            None => r is Close,
        },
{
    let mut prompt = match open {
        Some(prompt) => prompt,
        None => {
            return FilterStep::Close;
        },
    };
    if is_line_end(event) {
        if trim(&prompt.input).as_str().is_empty() {
            return FilterStep::Clear { column: prompt.column };
        }
        return FilterStep::Submit(prompt);
    }
    match event.code {
        KeyCode::Esc => {
            return FilterStep::Close;
        },
        KeyCode::Tab => prompt.cycle_kind(),
        KeyCode::Backspace => {
            prompt.input = shorten(&prompt.input);
            prompt.error = None;
        },
        _ => {
            if let Some(c) = typed_char(event) {
                prompt.input.push(c);
                prompt.error = None;
            }
        },
    }
    FilterStep::Stay(prompt)
}

/// Takes up what a view made of a filter: the prompt is closed if it was applied, and
/// goes on with what was wrong if not.
pub fn after_filter_submission(prompt: FilterPrompt, fault: Option<String>) -> (r: FilterStep)
    ensures
        match fault {
            None => r is Close,
            Some(message) => match r {
                FilterStep::Stay(next) => next@ == (PromptModel {
                    error: Some(message@),
                    ..prompt@
                }),
                _ => false,
            },
        },
{
    match fault {
        None => FilterStep::Close,
        Some(message) => {
            let mut next = prompt;
            next.error = Some(message);
            FilterStep::Stay(next)
        },
    }
}

// ---------------------------------------------------------------------------
// The dialogue of the saved view
// ---------------------------------------------------------------------------

/// What is known of the saved view of a source.
#[derive(Debug, PartialEq, Eq)]
pub struct SavedViewRuntime {
    pub source_path: Option<String>,
    pub target_path: Option<String>,
    pub view_name: String,
    pub explicit_locale: Option<String>,
    pub messages: Vec<String>,
}

/// The state of the dialogue in which a view is saved.
#[derive(Debug, PartialEq, Eq)]
pub struct ViewModal {
    pub filename: String,
    pub yaml: String,
    pub scroll: usize,
    pub confirming_overwrite: bool,
}

/// Opens the dialogue in which a view is saved. Without saved views there is none.
pub fn open_saved_view(runtime: &Option<SavedViewRuntime>, yaml: String) -> (r: Result<
    ViewModal,
    String,
>)
    ensures
        match (r, *runtime) {
            (Ok(modal), Some(saved)) => {
                &&& modal.filename@ == (match saved.target_path {
                    Some(path) => path@,
                    None => "<no saved view path>"@,
                })
                &&& modal.yaml == yaml
                &&& modal.scroll == 0
                &&& !modal.confirming_overwrite
            },
            (Err(message), None) => message@ == "saved views are disabled"@,
            _ => false,
        },
{
    match runtime {
        None => Err("saved views are disabled".to_owned()),
        Some(saved) => {
            let filename = match &saved.target_path {
                Some(path) => path.clone(),
                None => "<no saved view path>".to_owned(),
            };
            Ok(ViewModal { filename, yaml, scroll: 0, confirming_overwrite: false })
        },
    }
}

/// What follows a key in the dialogue.
#[derive(Debug, PartialEq, Eq)]
pub enum ViewModalStep {
    Close,
    Save { modal: Option<ViewModal>, confirmed: bool },
    Stay(Option<ViewModal>),
}

/// Whether a dialogue waits for an answer.
pub open spec fn is_confirming(open: Option<ViewModal>) -> bool {
    match open {
        Some(modal) => modal.confirming_overwrite,
        None => false,
    }
}

/// The dialogue after a key that neither closes it nor saves.
pub open spec fn after_view_key(modal: ViewModal, code: KeyCode) -> ViewModal {
    if code == KeyCode::Char('n') {
        ViewModal { confirming_overwrite: false, ..modal }
    } else if code is Down || code == KeyCode::Char('j') {
        ViewModal {
            scroll: if modal.scroll < usize::MAX {
                (modal.scroll + 1) as usize
            } else {
                modal.scroll
            },
            ..modal
        }
    } else if code is Up || code == KeyCode::Char('k') {
        ViewModal {
            scroll: if modal.scroll > 0 {
                (modal.scroll - 1) as usize
            } else {
                0
            },
            ..modal
        }
    } else {
        modal
    }
}

/// Handles a key in the dialogue.
pub fn handle_saved_view_key(open: Option<ViewModal>, event: KeyEvent) -> (r: ViewModalStep)
    ensures
        r == (if event.code is Esc {
            ViewModalStep::Close
        } else if event.code == KeyCode::Char('s') {
            ViewModalStep::Save { modal: open, confirmed: false }
        } else if event.code == KeyCode::Char('y') && is_confirming(open) {
            ViewModalStep::Save { modal: open, confirmed: true }
        } else {
            ViewModalStep::Stay(
                match open {
                    Some(modal) => Some(after_view_key(modal, event.code)),
                    None => None,
                },
            )
        }),
{
    match event.code {
        KeyCode::Esc => {
            return ViewModalStep::Close;
        },
        KeyCode::Char(c) => {
            if c == 's' {
                return ViewModalStep::Save { modal: open, confirmed: false };
            }
            let confirming = match &open {
                Some(modal) => modal.confirming_overwrite,
                None => false,
            };
            if c == 'y' && confirming {
                return ViewModalStep::Save { modal: open, confirmed: true };
            }
        },
        _ => {},
    }
    let mut modal = match open {
        Some(modal) => modal,
        None => {
            return ViewModalStep::Stay(None);
        },
    };
    let (down, up, declined) = match event.code {
        KeyCode::Down => (true, false, false),
        KeyCode::Up => (false, true, false),
        KeyCode::Char(c) => (c == 'j', c == 'k', c == 'n'),
        _ => (false, false, false),
    };
    if declined {
        modal.confirming_overwrite = false;
    } else if down {
        modal.scroll = modal.scroll.saturating_add(1);
    } else if up && modal.scroll > 0 {
        modal.scroll = modal.scroll - 1;
    }
    ViewModalStep::Stay(Some(modal))
}

/// What saving a view comes to.
#[derive(Debug, PartialEq, Eq)]
pub enum SaveStep {
    Refused(String),
    Nothing,
    AskFirst(ViewModal),
    Write { path: String, modal: ViewModal },
}

/// Decides what saving a view comes to: a file that is there is not replaced before
/// that is confirmed.
pub fn save_view(
    runtime: &Option<SavedViewRuntime>,
    open: Option<ViewModal>,
    target_exists: bool,
    confirmed: bool,
) -> (r: SaveStep)
    ensures
        match *runtime {
            None => match r {
                SaveStep::Refused(message) => message@ == "saved views are disabled"@,
                _ => false,
            },
            Some(saved) => match (saved.target_path, open) {
                (None, _) => match r {
                    SaveStep::Refused(message) => message@ == "saved view path is unavailable"@,
                    _ => false,
                },
                (Some(_), None) => r is Nothing,
                (Some(target), Some(modal)) => if target_exists && !confirmed {
                    r == SaveStep::AskFirst(ViewModal { confirming_overwrite: true, ..modal })
                } else {
                    match r {
                        SaveStep::Write { path, modal: kept } => path@ == target@ && kept == modal,
                        _ => false,
                    }
                },
            },
        },
{
    let saved = match runtime {
        None => {
            return SaveStep::Refused("saved views are disabled".to_owned());
        },
        Some(saved) => saved,
    };
    let path = match &saved.target_path {
        None => {
            return SaveStep::Refused("saved view path is unavailable".to_owned());
        },
        Some(path) => path.clone(),
    };
    match open {
        None => SaveStep::Nothing,
        Some(modal) => if target_exists && !confirmed {
            let mut asking = modal;
            asking.confirming_overwrite = true;
            SaveStep::AskFirst(asking)
        } else {
            SaveStep::Write { path, modal }
        },
    }
}

/// Takes up what came of writing a view, and gives what is said of it. A view that was
/// written is from then on the one that is shown.
pub fn after_save(
    runtime: &mut SavedViewRuntime,
    modal: &mut ViewModal,
    path: &str,
    fault: Option<String>,
) -> (r: String)
    ensures
        *final(modal) == (ViewModal { confirming_overwrite: false, ..*old(modal) }),
        match fault {
            None => {
                &&& r@ == "saved view "@ + path@
                &&& text::opt_view(final(runtime).source_path) == Some(path@)
                &&& text::opt_view(final(runtime).target_path) == Some(path@)
                &&& *final(runtime) == (SavedViewRuntime {
                    source_path: final(runtime).source_path,
                    target_path: final(runtime).target_path,
                    ..*old(runtime)
                })
            },
            Some(message) => {
                &&& r@ == "failed to save view: "@ + message@
                &&& *final(runtime) == *old(runtime)
            },
        },
{
    modal.confirming_overwrite = false;
    match fault {
        None => {
            runtime.source_path = Some(path.to_owned());
            runtime.target_path = Some(path.to_owned());
            concat2("saved view ", path)
        },
        Some(message) => concat2("failed to save view: ", &message),
    }
}

/// The extension of the file that a view is first written to.
pub fn temporary_extension(path: &str) -> (r: String)
    ensures
        r@ == (match source::extension(path@) {
            Some(e) => e,
            None => "yml"@,
        }) + ".tmp"@,
{
    match extension_of(path) {
        Some(e) => concat2(&e, ".tmp"),
        None => concat2("yml", ".tmp"),
    }
}

// ---------------------------------------------------------------------------
// The table picker
// ---------------------------------------------------------------------------

/// What follows a key in the table picker.
#[derive(Debug, Clone, Copy, PartialEq, Eq, Structural)]
pub enum PickerStep {
    Cancelled,
    Chosen(usize),
    Showing(usize),
}

/// The places of the tables that can be chosen, among the first `n`.
pub open spec fn selectable_places(selectable: Seq<bool>, n: int) -> Seq<int>
    decreases n,
{
    if n <= 0 || n > selectable.len() {
        Seq::empty()
    } else if selectable[n - 1] {
        selectable_places(selectable, n - 1).push(n - 1)
    } else {
        selectable_places(selectable, n - 1)
    }
}

/// The places of the tables that can be chosen.
pub open spec fn choices(selectable: Seq<bool>) -> Seq<int> {
    selectable_places(selectable, selectable.len() as int)
}

/// Places as numbers.
pub open spec fn places_view(places: Seq<usize>) -> Seq<int> {
    Seq::new(places.len(), |i: int| places[i] as int)
}

fn list_choices(selectable: &Vec<bool>) -> (r: Vec<usize>)
    ensures
        places_view(r@) == choices(selectable@),
{
    let mut out: Vec<usize> = Vec::new();
    let mut i: usize = 0;
    assert(places_view(out@) =~= selectable_places(selectable@, 0));
    while i < selectable.len()
        invariant
            i <= selectable@.len(),
            places_view(out@) == selectable_places(selectable@, i as int),
        decreases selectable@.len() - i,
    {
        let ghost before = out@;
        if selectable[i] {
            out.push(i);
            assert(places_view(out@) =~= places_view(before).push(i as int));
        }
        i = i + 1;
    }
    out
}

/// The place of an item in a list from `from` on; the first where it is not there.
pub open spec fn place_in(list: Seq<int>, item: int, from: int) -> int
    decreases list.len() - from,
{
    if from < 0 || from >= list.len() {
        0
    } else if list[from] == item {
        from
    } else {
        place_in(list, item, from + 1)
    }
}

/// The choice above another; the first has none above.
pub open spec fn choice_above(list: Seq<int>, item: int) -> int {
    let place = place_in(list, item, 0);
    list[if place > 0 {
        place - 1
    } else {
        0
    }]
}

/// The choice below another; the last has none below.
pub open spec fn choice_below(list: Seq<int>, item: int) -> int {
    let place = place_in(list, item, 0);
    list[if place + 1 < list.len() {
        place + 1
    } else {
        list.len() - 1
    }]
}

/// The table that is shown first: the first that can be chosen, if there is one.
pub fn first_choice_of(selectable: &Vec<bool>) -> (r: Option<usize>)
    ensures
        match r {
            Some(i) => choices(selectable@).len() > 0 && i == choices(selectable@)[0],
            None => choices(selectable@).len() == 0,
        },
{
    let list = list_choices(selectable);
    if list.len() == 0 {
        assert(places_view(list@).len() == 0);
        None
    } else {
        assert(places_view(list@)[0] == list@[0]);
        Some(list[0])
    }
}

/// Handles a key in the table picker.
pub fn pick_table(selectable: &Vec<bool>, selected: usize, event: KeyEvent) -> (r: PickerStep)
    requires
        choices(selectable@).len() > 0,
    ensures
        ({
            let list = choices(selectable@);
            if event.code is Esc || event.code == KeyCode::Char('q') || event.code
                == KeyCode::Char('Q') {
                r is Cancelled
            } else if event.code is Enter {
                r == PickerStep::Chosen(selected)
            } else if event.code is Up || event.code == KeyCode::Char('k') {
                r matches PickerStep::Showing(i) && i == choice_above(list, selected as int)
            } else if event.code is Down || event.code == KeyCode::Char('j') {
                r matches PickerStep::Showing(i) && i == choice_below(list, selected as int)
            } else {
                r == PickerStep::Showing(selected)
            }
        }),
{
    let list = list_choices(selectable);
    let ghost all = places_view(list@);
    let count: usize = list.len();
    assert(count == all.len());
    let (up, down) = match event.code {
        KeyCode::Esc => {
            return PickerStep::Cancelled;
        },
        KeyCode::Enter => {
            return PickerStep::Chosen(selected);
        },
        KeyCode::Up => (true, false),
        KeyCode::Down => (false, true),
        KeyCode::Char(c) => {
            if c == 'q' || c == 'Q' {
                return PickerStep::Cancelled;
            }
            (c == 'k', c == 'j')
        },
        _ => (false, false),
    };
    let mut place: usize = 0;
    let mut i: usize = 0;
    while i < count && list[i] != selected
        invariant
            i <= count,
            count == list@.len(),
            all == places_view(list@),
            place_in(all, selected as int, 0) == place_in(all, selected as int, i as int),
        decreases count - i,
    {
        assert(all[i as int] == list@[i as int]);
        i = i + 1;
    }
    if i < count {
        assert(all[i as int] == list@[i as int]);
        place = i;
    }
    assert(place == place_in(all, selected as int, 0));
    if up {
        let above: usize = if place > 0 {
            place - 1
        } else {
            0
        };
        assert(all[above as int] == list@[above as int]);
        PickerStep::Showing(list[above])
    } else if down {
        let below: usize = if place + 1 < count {
            place + 1
        } else {
            count - 1
        };
        assert(all[below as int] == list@[below as int]);
        PickerStep::Showing(list[below])
    } else {
        PickerStep::Showing(selected)
    }
}

// ---------------------------------------------------------------------------
// Laws
// ---------------------------------------------------------------------------

/// A command that moves one way moves as far as the command that moves the other way
/// moves back.
pub proof fn moves_have_their_opposites(count: Option<usize>, context: CommandContext)
    requires
        times(count) <= isize::MAX,
    ensures
        ({
            let up = view_action(KeyAction { command: Command::MoveUp, count }, context);
            let down = view_action(KeyAction { command: Command::MoveDown, count }, context);
            up matches ViewAction::MoveBy { rows: r, columns: c } && down
                matches ViewAction::MoveBy { rows: s, columns: d } && r + s == 0 && c + d == 0
        }),
        ({
            let left = view_action(KeyAction { command: Command::MoveLeft, count }, context);
            let right = view_action(KeyAction { command: Command::MoveRight, count }, context);
            left matches ViewAction::MoveBy { rows: r, columns: c } && right
                matches ViewAction::MoveBy { rows: s, columns: d } && r + s == 0 && c + d == 0
        }),
{
}

/// While a dialogue is open, no key is a command.
pub proof fn dialogues_keep_keys_from_commands(
    popup: Popup,
    event: KeyEvent,
    bound: Option<Command>,
)
    ensures
        key_route(Some(popup), event, bound) !is Command,
{
}

/// The Esc key closes every dialogue that does not read it itself.
pub proof fn escape_closes_dialogues(popup: Popup, event: KeyEvent, bound: Option<Command>)
    requires
        event.code is Esc,
    ensures
        ({
            let route = key_route(Some(popup), event, bound);
            ||| route is ClosePopup
            ||| route is Search
            ||| route is Filter
            ||| route is ColumnInfo
            ||| route is SourceConfig
            ||| route is SavedView
        }),
{
}

proof fn lemma_choices(selectable: Seq<bool>, n: int)
    requires
        0 <= n <= selectable.len(),
    ensures
        forall|i: int|
            0 <= i < selectable_places(selectable, n).len() ==> 0 <= #[trigger] selectable_places(
                selectable,
                n,
            )[i] < n && selectable[selectable_places(selectable, n)[i]],
    decreases n,
{
    if n > 0 {
        lemma_choices(selectable, n - 1);
        let before = selectable_places(selectable, n - 1);
        let now = selectable_places(selectable, n);
        assert forall|i: int| 0 <= i < now.len() implies 0 <= #[trigger] now[i] < n
            && selectable[now[i]] by {
            if i < before.len() {
                assert(now[i] == before[i]);
            }
        }
    }
}

proof fn lemma_place_in(list: Seq<int>, item: int, from: int)
    requires
        list.len() > 0,
        0 <= from <= list.len(),
    ensures
        0 <= place_in(list, item, from) < list.len(),
    decreases list.len() - from,
{
    if from < list.len() && list[from] != item {
        lemma_place_in(list, item, from + 1);
    }
}

/// The picker only ever moves to tables that can be chosen.
pub proof fn picker_stays_on_selectable_tables(selectable: Seq<bool>, selected: int)
    requires
        choices(selectable).len() > 0,
    ensures
        ({
            let above = choice_above(choices(selectable), selected);
            0 <= above < selectable.len() && selectable[above]
        }),
        ({
            let below = choice_below(choices(selectable), selected);
            0 <= below < selectable.len() && selectable[below]
        }),
{
    lemma_choices(selectable, selectable.len() as int);
    lemma_place_in(choices(selectable), selected, 0);
}

/// A command that moves goes its own way, as often as it says, and leaves the other
/// axis alone.
pub proof fn moves_go_their_way(count: Option<usize>, context: CommandContext)
    requires
        count is Some ==> count->0 <= isize::MAX,
    ensures
        ({
            let n = if count is Some {
                count->0 as int
            } else {
                1
            };
            &&& view_action(KeyAction { command: Command::MoveUp, count }, context) matches ViewAction::MoveBy { rows, columns } && rows == -n && columns == 0
            &&& view_action(KeyAction { command: Command::MoveDown, count }, context) matches ViewAction::MoveBy { rows, columns } && rows == n && columns == 0
            &&& view_action(KeyAction { command: Command::MoveLeft, count }, context) matches ViewAction::MoveBy { rows, columns } && rows == 0 && columns == -n
            &&& view_action(KeyAction { command: Command::MoveRight, count }, context) matches ViewAction::MoveBy { rows, columns } && rows == 0 && columns == n
            &&& view_action(KeyAction { command: Command::GapDown, count }, context) matches ViewAction::AdjustGap(by) && by == -n
            &&& view_action(KeyAction { command: Command::GapUp, count }, context) matches ViewAction::AdjustGap(by) && by == n
            &&& view_action(KeyAction { command: Command::AllColumnsNarrower, count }, context) matches ViewAction::AdjustAllWidths(by) && by == -n
            &&& view_action(KeyAction { command: Command::AllColumnsWider, count }, context) matches ViewAction::AdjustAllWidths(by) && by == n
            &&& view_action(KeyAction { command: Command::CurrentColumnNarrower, count }, context) matches ViewAction::AdjustCurrentWidth(by) && by == -n
            &&& view_action(KeyAction { command: Command::CurrentColumnWider, count }, context) matches ViewAction::AdjustCurrentWidth(by) && by == n
        }),
{
}

/// A command that pages, skips, hides or shows does so on its own side, once unless
/// it says how often.
pub proof fn counted_commands_keep_their_side(count: Option<usize>, context: CommandContext)
    ensures
        ({
            let n = if count is Some {
                count->0
            } else {
                1
            };
            &&& view_action(KeyAction { command: Command::PageUp, count }, context) == (ViewAction::PageBy { rows: (-1) as isize, columns: 0, count: n })
            &&& view_action(KeyAction { command: Command::PageDown, count }, context) == (ViewAction::PageBy { rows: 1, columns: 0, count: n })
            &&& view_action(KeyAction { command: Command::PageLeft, count }, context) == (ViewAction::PageBy { rows: 0, columns: (-1) as isize, count: n })
            &&& view_action(KeyAction { command: Command::PageRight, count }, context) == (ViewAction::PageBy { rows: 0, columns: 1, count: n })
            &&& view_action(KeyAction { command: Command::SkipRowChangeForward, count }, context) == (ViewAction::Skip { axis: Axis::Row, direction: SkipDirection::Forward, count: n })
            &&& view_action(KeyAction { command: Command::SkipRowChangeBackward, count }, context) == (ViewAction::Skip { axis: Axis::Row, direction: SkipDirection::Backward, count: n })
            &&& view_action(KeyAction { command: Command::SkipColumnChangeForward, count }, context) == (ViewAction::Skip { axis: Axis::Column, direction: SkipDirection::Forward, count: n })
            &&& view_action(KeyAction { command: Command::SkipColumnChangeBackward, count }, context) == (ViewAction::Skip { axis: Axis::Column, direction: SkipDirection::Backward, count: n })
            &&& view_action(KeyAction { command: Command::ColumnHideLeft, count }, context) == ViewAction::HideLeft(n)
            &&& view_action(KeyAction { command: Command::ColumnHideRight, count }, context) == ViewAction::HideRight(n)
            &&& view_action(KeyAction { command: Command::ColumnShowLeft, count }, context) == ViewAction::ShowLeft(n)
            &&& view_action(KeyAction { command: Command::ColumnShowRight, count }, context) == ViewAction::ShowRight(n)
        }),
{
}

/// A command that goes to a place goes to the one that its count names, and without a
/// count to the end that it stands for.
pub proof fn places_are_gone_to(count: Option<usize>, context: CommandContext)
    ensures
        view_action(KeyAction { command: Command::GotoTop, count }, context) == ViewAction::GotoTop,
        view_action(KeyAction { command: Command::Mark, count }, context) == ViewAction::SetMark,
        view_action(KeyAction { command: Command::GotoMark, count }, context) == ViewAction::GotoMark,
        view_action(KeyAction { command: Command::LineHome, count }, context) == (ViewAction::Goto { row: context.cursor.row, column: 0 }),
        count is None ==> view_action(KeyAction { command: Command::GotoRow, count }, context) is GotoBottom,
        count matches Some(n) ==> view_action(KeyAction { command: Command::GotoRow, count }, context) == ViewAction::GotoUserRow(n),
        count matches Some(n) ==> view_action(KeyAction { command: Command::GotoColumn, count }, context) == ViewAction::GotoUserColumn(n),
        count is None ==> view_action(KeyAction { command: Command::GotoColumn, count }, context) == view_action(KeyAction { command: Command::LineHome, count }, context),
        view_action(KeyAction { command: Command::LineEnd, count }, context) matches ViewAction::Goto { row, column } && row == context.cursor.row
            && (column + 1 == context.column_count || column == 0 && context.column_count == 0),
{
}

/// Filtering in and filtering out open a filter of their own mode, and looking for
/// the next and for the previous result goes forward and back.
pub proof fn filters_and_searches_go_their_way(count: Option<usize>, context: CommandContext)
    ensures
        view_action(KeyAction { command: Command::FilterIn, count }, context) == ViewAction::OpenFilter(FilterMode::In),
        view_action(KeyAction { command: Command::FilterOut, count }, context) == ViewAction::OpenFilter(FilterMode::Out),
        view_action(KeyAction { command: Command::NextSearchResult, count }, context) == ViewAction::FindNext(SearchDirection::Forward),
        view_action(KeyAction { command: Command::PreviousSearchResult, count }, context) == ViewAction::FindNext(SearchDirection::Reverse),
{
}

/// An ascending sort command sorts ascending and a descending one descending, by what
/// it names; one that names nothing compares as numbers exactly in a column of numbers.
pub proof fn sorts_go_their_way(count: Option<usize>, context: CommandContext)
    ensures
        view_action(KeyAction { command: Command::SortNaturalAsc, count }, context) == (ViewAction::SortBy { mode: SortMode::Natural, direction: SortDirection::Ascending }),
        view_action(KeyAction { command: Command::SortNaturalDesc, count }, context) == (ViewAction::SortBy { mode: SortMode::Natural, direction: SortDirection::Descending }),
        view_action(KeyAction { command: Command::SortNumericAsc, count }, context) == (ViewAction::SortBy { mode: SortMode::Numeric, direction: SortDirection::Ascending }),
        view_action(KeyAction { command: Command::SortNumericDesc, count }, context) == (ViewAction::SortBy { mode: SortMode::Numeric, direction: SortDirection::Descending }),
        view_action(KeyAction { command: Command::SortLexicalAsc, count }, context) == (ViewAction::SortBy { mode: SortMode::Lexical, direction: SortDirection::Ascending }),
        view_action(KeyAction { command: Command::SortLexicalDesc, count }, context) == (ViewAction::SortBy { mode: SortMode::Lexical, direction: SortDirection::Descending }),
        view_action(KeyAction { command: Command::ColumnSortAsc, count }, context) == view_action(KeyAction { command: Command::SortNumericAsc, count }, context) <==> context.numeric_column,
        view_action(KeyAction { command: Command::ColumnSortAsc, count }, context) == view_action(KeyAction { command: Command::SortLexicalAsc, count }, context) <==> !context.numeric_column,
        view_action(KeyAction { command: Command::ColumnSortDesc, count }, context) == view_action(KeyAction { command: Command::SortNumericDesc, count }, context) <==> context.numeric_column,
        view_action(KeyAction { command: Command::ColumnSortDesc, count }, context) == view_action(KeyAction { command: Command::SortLexicalDesc, count }, context) <==> !context.numeric_column,
        view_action(KeyAction { command: Command::ColumnSortClear, count }, context) == ViewAction::ClearSort,
{
}

/// A command that opens something opens what it is named after; a cell is shown only
/// where it has text.
pub proof fn commands_open_their_dialogues(count: Option<usize>, context: CommandContext)
    ensures
        view_action(KeyAction { command: Command::Help, count }, context) == ViewAction::Open(Popup::Help),
        view_action(KeyAction { command: Command::ViewConfig, count }, context) == ViewAction::Open(Popup::ViewConfig),
        view_action(KeyAction { command: Command::Query, count }, context) == ViewAction::Open(Popup::Query),
        view_action(KeyAction { command: Command::ShowInfo, count }, context) == ViewAction::Open(Popup::Info),
        view_action(KeyAction { command: Command::Search, count }, context) == ViewAction::StartSearch,
        view_action(KeyAction { command: Command::ColumnInfo, count }, context) == ViewAction::OpenColumnInfo,
        view_action(KeyAction { command: Command::SourceConfig, count }, context) == ViewAction::OpenSourceConfig,
        view_action(KeyAction { command: Command::SavedView, count }, context) == ViewAction::OpenSavedView,
        context.cell_has_text ==> view_action(KeyAction { command: Command::ShowCell, count }, context) == ViewAction::Open(Popup::Cell),
        !context.cell_has_text ==> view_action(KeyAction { command: Command::ShowCell, count }, context) is Nothing,
{
}

/// The other commands do what they are named after, and a width that is given is set.
pub proof fn other_commands_do_what_they_say(count: Option<usize>, context: CommandContext)
    ensures
        view_action(KeyAction { command: Command::Quit, count }, context) == ViewAction::Nothing,
        view_action(KeyAction { command: Command::Redraw, count }, context) == ViewAction::Nothing,
        view_action(KeyAction { command: Command::Reload, count }, context) == ViewAction::Reload,
        view_action(KeyAction { command: Command::YankCell, count }, context) == ViewAction::YankCell,
        view_action(KeyAction { command: Command::YankRawCell, count }, context) == ViewAction::YankRawCell,
        view_action(KeyAction { command: Command::ToggleHeader, count }, context) == ViewAction::ToggleHeader,
        view_action(KeyAction { command: Command::ColumnHideCurrent, count }, context) == ViewAction::HideCurrent,
        count matches Some(n) ==> view_action(KeyAction { command: Command::ToggleColumnWidthMode, count }, context) == ViewAction::SetAllWidths(n),
        count is None ==> view_action(KeyAction { command: Command::ToggleColumnWidthMode, count }, context) is ToggleVariableWidths,
        count matches Some(n) ==> view_action(KeyAction { command: Command::SetCurrentColumnWidth, count }, context) == ViewAction::SetCurrentWidth(n),
        count is None ==> view_action(KeyAction { command: Command::SetCurrentColumnWidth, count }, context) is MaximizeCurrentWidth,
{
}

/// Each dialogue gets its own keys, the plain ones are closed by Esc, Enter, and the
/// keys for help and quitting, and without a dialogue every key is a command.
pub proof fn keys_go_to_their_dialogue(event: KeyEvent, bound: Option<Command>)
    ensures
        key_route(None, event, bound) is Command,
        key_route(Some(Popup::Search), event, bound) is Search,
        key_route(Some(Popup::Filter), event, bound) is Filter,
        key_route(Some(Popup::ColumnInfo), event, bound) is ColumnInfo,
        key_route(Some(Popup::SourceConfig), event, bound) is SourceConfig,
        key_route(Some(Popup::SavedView), event, bound) is SavedView,
        forall|popup: Popup|
            (popup is Help || popup is Cell || popup is Info) ==> {
                let route = #[trigger] key_route(Some(popup), event, bound);
                &&& route is ClosePopup <==> event.code is Esc || event.code is Enter || bound
                    == Some(Command::Quit) || bound == Some(Command::Help)
                &&& route !is ClosePopup ==> route is Ignored
            },
        ({
            let route = key_route(Some(Popup::ViewConfig), event, bound);
            &&& route is ClosePopup <==> event.code is Esc || event.code is Enter
            &&& route is ClearViewOperations <==> event.code == KeyCode::Char('x')
            &&& route is ToggleNullPlacement <==> event.code == KeyCode::Char('n')
            &&& route is OpenColumnInfo <==> event.code == KeyCode::Char('i')
        }),
        ({
            let route = key_route(Some(Popup::Query), event, bound);
            &&& route is ClosePopup <==> event.code is Esc || event.code is Enter
            &&& route is CopyQuery <==> event.code == KeyCode::Char('y')
        }),
{
}

proof fn lemma_kind_place(kinds: Seq<FilterKind>, at: int, from: int)
    requires
        0 <= from <= at < kinds.len(),
        kinds.no_duplicates(),
    ensures
        kind_place(kinds, kinds[at], from) == at,
    decreases at - from,
{
    if from < at {
        lemma_kind_place(kinds, at, from + 1);
    }
}

/// A prompt offers exactly the kinds of filters that a column supports, in the order
/// text, regex and numeric; going on from a kind takes the next one, and from the last
/// one the first.
pub proof fn kinds_go_round(support: KindSupport, i: int)
    requires
        0 <= i < supported_kinds(support).len(),
    ensures
        ({
            let kinds = supported_kinds(support);
            &&& kinds.contains(FilterKind::Text) <==> support.text
            &&& kinds.contains(FilterKind::Regex) <==> support.regex
            &&& kinds.contains(FilterKind::Numeric) <==> support.numeric
            &&& support.text ==> kinds[0] is Text
            &&& support.numeric ==> kinds.last() is Numeric
            &&& kinds.no_duplicates()
            &&& kind_after(kinds, kinds[i]) == kinds[(i + 1) % (kinds.len() as int)]
        }),
{
    let kinds = supported_kinds(support);
    if support.text {
        assert(kinds[0] is Text);
    }
    if support.regex {
        assert(kinds[if support.text {
            1
        } else {
            0
        }] is Regex);
    }
    if support.numeric {
        assert(kinds[kinds.len() - 1] is Numeric);
    }
    lemma_kind_place(kinds, i, 0);
    assert((i + 1) % (kinds.len() as int) == if i + 1 < kinds.len() {
        i + 1
    } else {
        0
    }) by (nonlinear_arith)
        requires
            0 <= i < kinds.len(),
    ;
}

/// In the filter prompt Esc gives up, a line end submits what was typed or clears the
/// column if nothing was, Tab changes only the kind, and typing and deleting undo each
/// other.
pub proof fn prompts_follow_their_keys(
    r: FilterStep,
    m: PromptModel,
    event: KeyEvent,
    c: char,
)
    requires
        follows_filter_key(r, m, event),
    ensures
        event.code is Esc <==> r is Close,
        r is Submit ==> (event.code is Enter || event.code == KeyCode::Char('\n') || event.code
            == KeyCode::Char('\r')) && r->Submit_0@ == m,
        r matches FilterStep::Clear { column } ==> column == m.column,
        event.code is Enter && m.input.len() == 0 ==> r is Clear,
        event.code is Tab ==> (r matches FilterStep::Stay(next) && next@.input == m.input && next@.mode
            == m.mode && next@.column == m.column),
        event.code == KeyCode::Char(c) && event.modifiers is Plain && c != '\n' && c != '\r'
            ==> (r matches FilterStep::Stay(next) && next@ == (PromptModel {
            input: m.input.push(c),
            error: None,
            ..m
        })),
        event.code is Backspace ==> (r matches FilterStep::Stay(next) && next@.input == m.input.take(
            if m.input.len() > 0 {
                m.input.len() - 1
            } else {
                0
            },
        ) && next@.mode == m.mode && next@.selected_kind == m.selected_kind),
{
}

/// In the dialogue of a saved view `n` takes back the question, down and `j` go one
/// line on, up and `k` one line back, and nothing changes what would be written.
pub proof fn saved_view_keys_scroll(modal: ViewModal, code: KeyCode)
    ensures
        ({
            let next = after_view_key(modal, code);
            &&& next.filename == modal.filename && next.yaml == modal.yaml
            &&& code is Down || code == KeyCode::Char('j') ==> next.scroll == modal.scroll + 1
                || modal.scroll == usize::MAX && next.scroll == usize::MAX
            &&& code is Up || code == KeyCode::Char('k') ==> next.scroll + 1 == modal.scroll
                || modal.scroll == 0 && next.scroll == 0
            &&& code == KeyCode::Char('n') ==> !next.confirming_overwrite && next.scroll
                == modal.scroll
            &&& code != KeyCode::Char('n') ==> next.confirming_overwrite
                == modal.confirming_overwrite
        }),
{
}

/// A dialogue waits for an answer exactly while one is asked for.
pub proof fn only_open_questions_wait(modal: ViewModal)
    ensures
        !is_confirming(None),
        is_confirming(Some(ViewModal { confirming_overwrite: true, ..modal })),
        !is_confirming(Some(ViewModal { confirming_overwrite: false, ..modal })),
{
}

proof fn lemma_choices_ascend(selectable: Seq<bool>, n: int)
    requires
        0 <= n <= selectable.len(),
    ensures
        forall|i: int, j: int|
            0 <= i < j < selectable_places(selectable, n).len() ==> #[trigger] selectable_places(
                selectable,
                n,
            )[i] < #[trigger] selectable_places(selectable, n)[j],
        forall|k: int|
            0 <= k < n && #[trigger] selectable[k] ==> selectable_places(selectable, n).contains(k),
    decreases n,
{
    if n > 0 {
        lemma_choices(selectable, n - 1);
        lemma_choices_ascend(selectable, n - 1);
        let before = selectable_places(selectable, n - 1);
        let now = selectable_places(selectable, n);
        assert forall|k: int| 0 <= k < n && #[trigger] selectable[k] implies now.contains(k) by {
            if k < n - 1 {
                let i = choose|i: int| 0 <= i < before.len() && before[i] == k;
                assert(now[i] == k);
            } else {
                assert(now[now.len() - 1] == k);
            }
        }
    }
}

proof fn lemma_place_found(list: Seq<int>, at: int, from: int)
    requires
        0 <= from <= at < list.len(),
        forall|i: int, j: int| 0 <= i < j < list.len() ==> #[trigger] list[i] < #[trigger] list[j],
    ensures
        place_in(list, list[at], from) == at,
    decreases at - from,
{
    if from < at {
        lemma_place_found(list, at, from + 1);
    }
}

/// The picker begins with the first table that can be chosen. Going up from one leads
/// to the nearest before it, and going down to the nearest behind it; at either end it
/// stays.
pub proof fn picker_goes_to_the_nearest_table(selectable: Seq<bool>, selected: int, other: int)
    requires
        0 <= selected < selectable.len(),
        selectable[selected],
        0 <= other < selectable.len(),
        selectable[other],
    ensures
        choices(selectable).len() > 0,
        choices(selectable)[0] <= other,
        ({
            let above = choice_above(choices(selectable), selected);
            above <= selected && (other < selected ==> other <= above < selected)
        }),
        ({
            let below = choice_below(choices(selectable), selected);
            selected <= below && (selected < other ==> selected < below <= other)
        }),
{
    let list = choices(selectable);
    lemma_choices(selectable, selectable.len() as int);
    lemma_choices_ascend(selectable, selectable.len() as int);
    let i = choose|i: int| 0 <= i < list.len() && list[i] == selected;
    let j = choose|j: int| 0 <= j < list.len() && list[j] == other;
    lemma_place_found(list, i, 0);
}

} // verus!
