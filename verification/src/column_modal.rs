//! The dialogue in which a column is described and changed.

use vstd::prelude::*;
use vstd::string::*;

use crate::keys::{self, KeyCode, KeyEvent, is_line_end};
use crate::table::ColumnAlignment;
use crate::text::{self, concat2, concat3, concat5, decimal_of_usize, join, same};

verus! {

/// The types that a column can be given.
#[derive(Debug, Clone, Copy, PartialEq, Eq, Structural)]
pub enum ColumnTypeChoice {
    Text,
    Date,
    Ip,
    Float,
    Integer,
    SemVer,
    Boolean,
}

/// The formats that a column can be given.
#[derive(Debug, Clone, Copy, PartialEq, Eq, Structural)]
pub enum ColumnFormatChoice {
    Plain,
    Locale,
    Uppercase,
    Lowercase,
    Char,
    Bit,
    Word,
}

/// The sorts that a column can be given.
#[derive(Debug, Clone, Copy, PartialEq, Eq, Structural)]
pub enum ColumnSortChoice {
    Unsorted,
    Ascending,
    Descending,
}

/// A filter of a column, in words.
#[derive(Debug, PartialEq, Eq)]
pub struct ColumnFilterSummary {
    pub mode: String,
    pub kind: String,
    pub input: String,
}

/// What is known of a column. Where its missing values go is kept in words.
#[derive(Debug, PartialEq, Eq)]
pub struct ColumnInfo {
    pub name: String,
    pub visible_column: usize,
    pub source_column: usize,
    pub filters: Vec<ColumnFilterSummary>,
    pub visible: bool,
    pub alignment: Option<ColumnAlignment>,
    pub column_type: ColumnTypeChoice,
    pub format: ColumnFormatChoice,
    pub sort: ColumnSortChoice,
    pub nulls: String,
    pub canonical_source: Option<String>,
    pub source_type: Option<String>,
    pub source_declared_type: Option<String>,
    pub source_operations: Vec<String>,
}

/// What is changed of a column.
#[derive(Debug, PartialEq, Eq)]
pub struct ColumnInfoUpdate {
    pub visible: bool,
    pub alignment: Option<ColumnAlignment>,
    pub column_type: ColumnTypeChoice,
    pub format: ColumnFormatChoice,
    pub sort: ColumnSortChoice,
    pub nulls: String,
    pub clear_filters: bool,
}

// ---------------------------------------------------------------------------
// Choices by number
// ---------------------------------------------------------------------------

/// The place of a type among the types.
pub open spec fn type_place(choice: ColumnTypeChoice) -> int {
    match choice {
        ColumnTypeChoice::Text => 0,
        ColumnTypeChoice::Date => 1,
        ColumnTypeChoice::Ip => 2,
        ColumnTypeChoice::Float => 3,
        ColumnTypeChoice::Integer => 4,
        ColumnTypeChoice::SemVer => 5,
        ColumnTypeChoice::Boolean => 6,
    }
}

/// The place of a type among the types.
pub fn column_type_index(choice: ColumnTypeChoice) -> (r: usize)
    ensures
        r == type_place(choice),
{
    match choice {
        ColumnTypeChoice::Text => 0,
        ColumnTypeChoice::Date => 1,
        ColumnTypeChoice::Ip => 2,
        ColumnTypeChoice::Float => 3,
        ColumnTypeChoice::Integer => 4,
        ColumnTypeChoice::SemVer => 5,
        ColumnTypeChoice::Boolean => 6,
    }
}

/// The type at a place; text where there is none.
pub fn column_type_choice(index: usize) -> (r: ColumnTypeChoice)
    ensures
        index < 7 ==> type_place(r) == index,
        index >= 7 ==> r is Text,
{
    match index {
        1 => ColumnTypeChoice::Date,
        2 => ColumnTypeChoice::Ip,
        3 => ColumnTypeChoice::Float,
        4 => ColumnTypeChoice::Integer,
        5 => ColumnTypeChoice::SemVer,
        6 => ColumnTypeChoice::Boolean,
        _ => ColumnTypeChoice::Text,
    }
}

/// The place of a format among the formats.
pub open spec fn format_place(choice: ColumnFormatChoice) -> int {
    match choice {
        ColumnFormatChoice::Plain => 0,
        ColumnFormatChoice::Locale => 1,
        ColumnFormatChoice::Uppercase => 2,
        ColumnFormatChoice::Lowercase => 3,
        ColumnFormatChoice::Char => 4,
        ColumnFormatChoice::Bit => 5,
        ColumnFormatChoice::Word => 6,
    }
}

/// The place of a format among the formats.
pub fn column_format_index(choice: ColumnFormatChoice) -> (r: usize)
    ensures
        r == format_place(choice),
{
    match choice {
        ColumnFormatChoice::Plain => 0,
        ColumnFormatChoice::Locale => 1,
        ColumnFormatChoice::Uppercase => 2,
        ColumnFormatChoice::Lowercase => 3,
        ColumnFormatChoice::Char => 4,
        ColumnFormatChoice::Bit => 5,
        ColumnFormatChoice::Word => 6,
    }
}

/// The format at a place; plain where there is none.
pub fn column_format_choice(index: usize) -> (r: ColumnFormatChoice)
    ensures
        index < 7 ==> format_place(r) == index,
        index >= 7 ==> r is Plain,
{
    match index {
        1 => ColumnFormatChoice::Locale,
        2 => ColumnFormatChoice::Uppercase,
        3 => ColumnFormatChoice::Lowercase,
        4 => ColumnFormatChoice::Char,
        5 => ColumnFormatChoice::Bit,
        6 => ColumnFormatChoice::Word,
        _ => ColumnFormatChoice::Plain,
    }
}

/// Whether a type has a format: numbers one by locale, texts a case, truth values
/// their own, and all the plain one.
pub open spec fn type_has_format(column_type: int, format: int) -> bool {
    ||| format == 0
    ||| format == 1 && (column_type == 3 || column_type == 4)
    ||| (format == 2 || format == 3) && (0 <= column_type <= 2 || column_type == 5)
    ||| 4 <= format <= 6 && column_type == 6
}

/// Whether a type has a format.
pub fn format_valid_for_type(column_type: usize, format: usize) -> (r: bool)
    ensures
        r == type_has_format(column_type as int, format as int),
{
    match format {
        0 => true,
        1 => column_type == 3 || column_type == 4,
        2 | 3 => column_type <= 2 || column_type == 5,
        4 | 5 | 6 => column_type == 6,
        _ => false,
    }
}

/// The sign of the filters of a column: both ways if there are several.
pub open spec fn filter_sign(filters: Seq<ColumnFilterSummary>) -> Option<char> {
    if filters.len() == 0 {
        None
    } else if filters.len() > 1 {
        Some('±')
    } else if filters[0].mode@ == "in"@ {
        Some('+')
    } else if filters[0].mode@ == "out"@ {
        Some('-')
    } else {
        Some('±')
    }
}

/// The sign of the filters of a column.
pub fn filter_indicator(filters: &Vec<ColumnFilterSummary>) -> (r: Option<char>)
    ensures
        r == filter_sign(filters@),
{
    if filters.len() == 0 {
        None
    } else if filters.len() > 1 {
        Some('±')
    } else if same(&filters[0].mode, "in") {
        Some('+')
    } else if same(&filters[0].mode, "out") {
        Some('-')
    } else {
        Some('±')
    }
}

// ---------------------------------------------------------------------------
// Groups
// ---------------------------------------------------------------------------

/// What of a column can be changed.
#[derive(Debug, Clone, Copy, PartialEq, Eq, Structural)]
pub enum ColumnInfoGroup {
    Visibility,
    Align,
    Type,
    Format,
    Sort,
    Filters,
}

/// How many groups there are.
pub const GROUP_COUNT: usize = 6;

impl ColumnInfoGroup {
    /// The group at a place in the order of the Tab key.
    pub open spec fn in_tab_order(place: int) -> ColumnInfoGroup {
        if place == 0 {
            ColumnInfoGroup::Visibility
        } else if place == 1 {
            ColumnInfoGroup::Align
        } else if place == 2 {
            ColumnInfoGroup::Type
        } else if place == 3 {
            ColumnInfoGroup::Format
        } else if place == 4 {
            ColumnInfoGroup::Sort
        } else {
            ColumnInfoGroup::Filters
        }
    }

    /// The group at a place on the screen.
    pub open spec fn in_view(place: int) -> ColumnInfoGroup {
        if place == 0 {
            ColumnInfoGroup::Visibility
        } else if place == 1 {
            ColumnInfoGroup::Format
        } else if place == 2 {
            ColumnInfoGroup::Align
        } else if place == 3 {
            ColumnInfoGroup::Sort
        } else if place == 4 {
            ColumnInfoGroup::Type
        } else {
            ColumnInfoGroup::Filters
        }
    }

    /// The name of a group.
    pub open spec fn name(self) -> Seq<char> {
        match self {
            ColumnInfoGroup::Visibility => "Visibility"@,
            ColumnInfoGroup::Align => "Align"@,
            ColumnInfoGroup::Type => "Type"@,
            ColumnInfoGroup::Format => "Format"@,
            ColumnInfoGroup::Sort => "Sort"@,
            ColumnInfoGroup::Filters => "Filters"@,
        }
    }

    /// The name of a group.
    pub fn label(self) -> (r: &'static str)
        ensures
            r@ == self.name(),
    {
        match self {
            ColumnInfoGroup::Visibility => "Visibility",
            ColumnInfoGroup::Align => "Align",
            ColumnInfoGroup::Type => "Type",
            ColumnInfoGroup::Format => "Format",
            ColumnInfoGroup::Sort => "Sort",
            ColumnInfoGroup::Filters => "Filters",
        }
    }

    fn tab_order(place: usize) -> (r: ColumnInfoGroup)
        ensures
            r == ColumnInfoGroup::in_tab_order(place as int),
    {
        match place {
            0 => ColumnInfoGroup::Visibility,
            1 => ColumnInfoGroup::Align,
            2 => ColumnInfoGroup::Type,
            3 => ColumnInfoGroup::Format,
            4 => ColumnInfoGroup::Sort,
            _ => ColumnInfoGroup::Filters,
        }
    }

    fn visual(place: usize) -> (r: ColumnInfoGroup)
        ensures
            r == ColumnInfoGroup::in_view(place as int),
    {
        match place {
            0 => ColumnInfoGroup::Visibility,
            1 => ColumnInfoGroup::Format,
            2 => ColumnInfoGroup::Align,
            3 => ColumnInfoGroup::Sort,
            4 => ColumnInfoGroup::Type,
            _ => ColumnInfoGroup::Filters,
        }
    }
}

// ---------------------------------------------------------------------------
// The dialogue
// ---------------------------------------------------------------------------

/// The state of the dialogue: the group that is active, and the option that is
/// chosen in each group.
#[derive(Debug, PartialEq, Eq)]
pub struct ColumnInfoModal {
    pub column_name: String,
    pub visible_column: usize,
    pub source_column: usize,
    pub filter_details: Vec<String>,
    pub filter_indicator: Option<char>,
    pub active_group: usize,
    pub visibility: usize,
    pub alignment: usize,
    pub column_type: usize,
    pub format: usize,
    pub sort: usize,
    pub nulls: String,
    pub canonical_source: Option<String>,
    pub source_type: Option<String>,
    pub source_declared_type: Option<String>,
    pub source_operations: Vec<String>,
    pub filters: usize,
}

impl ColumnInfoModal {
    /// How many options a group has.
    pub open spec fn options(self, group: ColumnInfoGroup) -> nat {
        match group {
            ColumnInfoGroup::Visibility => 2,
            ColumnInfoGroup::Align => 3,
            ColumnInfoGroup::Type => 7,
            ColumnInfoGroup::Format => 7,
            ColumnInfoGroup::Sort => 3,
            ColumnInfoGroup::Filters => if self.filter_indicator is Some {
                2
            } else {
                1
            },
        }
    }

    /// The option that is chosen in a group.
    pub open spec fn selected(self, group: ColumnInfoGroup) -> usize {
        match group {
            ColumnInfoGroup::Visibility => self.visibility,
            ColumnInfoGroup::Align => self.alignment,
            ColumnInfoGroup::Type => self.column_type,
            ColumnInfoGroup::Format => self.format,
            ColumnInfoGroup::Sort => self.sort,
            ColumnInfoGroup::Filters => self.filters,
        }
    }

    /// Whether an option can be chosen.
    pub open spec fn enabled(self, group: ColumnInfoGroup, index: int) -> bool {
        match group {
            ColumnInfoGroup::Format => type_has_format(self.column_type as int, index),
            ColumnInfoGroup::Filters => self.filter_indicator is Some,
            _ => true,
        }
    }

    /// The group that is active.
    pub open spec fn active(self) -> ColumnInfoGroup {
        ColumnInfoGroup::in_tab_order(self.active_group as int)
    }

    /// Whether a group is active and an option of each group is chosen.
    pub open spec fn wf(self) -> bool {
        &&& self.active_group < GROUP_COUNT
        &&& forall|group: ColumnInfoGroup| #[trigger] self.selected(group) < self.options(group)
        &&& self.visible_column < usize::MAX
        &&& self.source_column < usize::MAX
    }

    /// The dialogue with another option chosen in a group. A type that does not have
    /// the chosen format goes back to the plain one.
    pub open spec fn choosing(self, group: ColumnInfoGroup, index: usize) -> ColumnInfoModal {
        match group {
            ColumnInfoGroup::Visibility => ColumnInfoModal { visibility: index, ..self },
            ColumnInfoGroup::Align => ColumnInfoModal { alignment: index, ..self },
            ColumnInfoGroup::Type => ColumnInfoModal {
                column_type: index,
                format: if type_has_format(index as int, self.format as int) {
                    self.format
                } else {
                    0
                },
                ..self
            },
            ColumnInfoGroup::Format => ColumnInfoModal { format: index, ..self },
            ColumnInfoGroup::Sort => ColumnInfoModal { sort: index, ..self },
            ColumnInfoGroup::Filters => ColumnInfoModal { filters: index, ..self },
        }
    }

    /// The next option that can be chosen after another, within `steps` steps.
    pub open spec fn option_after(self, group: ColumnInfoGroup, index: int, steps: int) -> Option<
        int,
    >
        decreases steps,
    {
        let next = if index + 1 < self.options(group) {
            index + 1
        } else {
            0
        };
        if steps <= 0 {
            None
        } else if self.enabled(group, next) {
            Some(next)
        } else {
            self.option_after(group, next, steps - 1)
        }
    }

    /// The option that can be chosen before another, within `steps` steps.
    pub open spec fn option_before(self, group: ColumnInfoGroup, index: int, steps: int) -> Option<
        int,
    >
        decreases steps,
    {
        let previous = if index > 0 {
            index - 1
        } else {
            self.options(group) - 1
        };
        if steps <= 0 {
            None
        } else if self.enabled(group, previous) {
            Some(previous)
        } else {
            self.option_before(group, previous, steps - 1)
        }
    }

    /// The dialogue with an option of the active group chosen, if there is one.
    pub open spec fn choosing_active(self, choice: Option<int>) -> ColumnInfoModal {
        match choice {
            Some(index) => self.choosing(self.active(), index as usize),
            None => self,
        }
    }

    /// The dialogue for a column.
    pub fn from_info(info: ColumnInfo) -> (r: ColumnInfoModal)
        requires
            info.visible_column < usize::MAX,
            info.source_column < usize::MAX,
        ensures
            r.wf(),
            r.column_name == info.name,
            r.visible_column == info.visible_column,
            r.source_column == info.source_column,
            text::views(r.filter_details@) == filter_lines(info.filters@),
            r.filter_indicator == filter_sign(info.filters@),
            r.active_group == 0,
            r.visibility == if info.visible {
                0int
            } else {
                1
            },
            r.alignment == (match info.alignment {
                None => 0int,
                Some(ColumnAlignment::Left) => 1,
                Some(ColumnAlignment::Right) => 2,
            }),
            r.column_type == type_place(info.column_type),
            r.format == format_place(info.format),
            r.sort == (match info.sort {
                ColumnSortChoice::Unsorted => 0int,
                ColumnSortChoice::Ascending => 1,
                ColumnSortChoice::Descending => 2,
            }),
            r.nulls == info.nulls,
            r.canonical_source == info.canonical_source,
            r.source_type == info.source_type,
            r.source_declared_type == info.source_declared_type,
            r.source_operations == info.source_operations,
            r.filters == 0,
    {
        let filter_indicator = filter_indicator(&info.filters);
        let filter_details = describe_filters(&info.filters);
        ColumnInfoModal {
            column_name: info.name,
            visible_column: info.visible_column,
            source_column: info.source_column,
            filter_details,
            filter_indicator,
            active_group: 0,
            visibility: if info.visible {
                0
            } else {
                1
            },
            alignment: match info.alignment {
                None => 0,
                Some(ColumnAlignment::Left) => 1,
                Some(ColumnAlignment::Right) => 2,
            },
            column_type: column_type_index(info.column_type),
            format: column_format_index(info.format),
            sort: match info.sort {
                ColumnSortChoice::Unsorted => 0,
                ColumnSortChoice::Ascending => 1,
                ColumnSortChoice::Descending => 2,
            },
            nulls: info.nulls,
            canonical_source: info.canonical_source,
            source_type: info.source_type,
            source_declared_type: info.source_declared_type,
            source_operations: info.source_operations,
            filters: 0,
        }
    }

    /// Goes to the next group, in a circle.
    pub fn next_group(&mut self)
        requires
            old(self).wf(),
        ensures
            final(self).wf(),
            *final(self) == (ColumnInfoModal {
                active_group: if old(self).active_group + 1 < GROUP_COUNT {
                    (old(self).active_group + 1) as usize
                } else {
                    0
                },
                ..*old(self)
            }),
    {
        let ghost before = *self;
        self.active_group = if self.active_group + 1 < GROUP_COUNT {
            self.active_group + 1
        } else {
            0
        };
        assert forall|group: ColumnInfoGroup| #[trigger] self.selected(group) < self.options(
            group,
        ) by {
            assert(before.selected(group) < before.options(group));
        }
    }

    /// Goes to the previous group, in a circle.
    pub fn previous_group(&mut self)
        requires
            old(self).wf(),
        ensures
            final(self).wf(),
            *final(self) == (ColumnInfoModal {
                active_group: if old(self).active_group > 0 {
                    (old(self).active_group - 1) as usize
                } else {
                    (GROUP_COUNT - 1) as usize
                },
                ..*old(self)
            }),
    {
        let ghost before = *self;
        self.active_group = if self.active_group > 0 {
            self.active_group - 1
        } else {
            GROUP_COUNT - 1
        };
        assert forall|group: ColumnInfoGroup| #[trigger] self.selected(group) < self.options(
            group,
        ) by {
            assert(before.selected(group) < before.options(group));
        }
    }

    fn selected_index(&self, group: ColumnInfoGroup) -> (r: usize)
        ensures
            r == self.selected(group),
    {
        match group {
            ColumnInfoGroup::Visibility => self.visibility,
            ColumnInfoGroup::Align => self.alignment,
            ColumnInfoGroup::Type => self.column_type,
            ColumnInfoGroup::Format => self.format,
            ColumnInfoGroup::Sort => self.sort,
            ColumnInfoGroup::Filters => self.filters,
        }
    }

    fn set_selected_index(&mut self, group: ColumnInfoGroup, index: usize)
        ensures
            *final(self) == old(self).choosing(group, index),
    {
        match group {
            ColumnInfoGroup::Visibility => {
                self.visibility = index;
            },
            ColumnInfoGroup::Align => {
                self.alignment = index;
            },
            ColumnInfoGroup::Type => {
                self.column_type = index;
                if !self.option_enabled(ColumnInfoGroup::Format, self.format) {
                    self.format = 0;
                }
            },
            ColumnInfoGroup::Format => {
                self.format = index;
            },
            ColumnInfoGroup::Sort => {
                self.sort = index;
            },
            ColumnInfoGroup::Filters => {
                self.filters = index;
            },
        }
    }

    fn option_count(&self, group: ColumnInfoGroup) -> (r: usize)
        ensures
            r == self.options(group),
    {
        match group {
            ColumnInfoGroup::Visibility => 2,
            ColumnInfoGroup::Align => 3,
            ColumnInfoGroup::Type => 7,
            ColumnInfoGroup::Format => 7,
            ColumnInfoGroup::Sort => 3,
            ColumnInfoGroup::Filters => if self.filter_indicator.is_some() {
                2
            } else {
                1
            },
        }
    }

    fn option_enabled(&self, group: ColumnInfoGroup, index: usize) -> (r: bool)
        ensures
            r == self.enabled(group, index as int),
    {
        match group {
            ColumnInfoGroup::Format => format_valid_for_type(self.column_type, index),
            ColumnInfoGroup::Filters => self.filter_indicator.is_some(),
            _ => true,
        }
    }

    proof fn lemma_chosen(self, group: ColumnInfoGroup, index: usize)
        requires
            self.wf(),
            index < self.options(group),
        ensures
            self.choosing(group, index).wf(),
    {
        let next = self.choosing(group, index);
        assert forall|other: ColumnInfoGroup| #[trigger] next.selected(other) < next.options(
            other,
        ) by {
            assert(self.selected(other) < self.options(other));
            assert(self.selected(ColumnInfoGroup::Format) < self.options(ColumnInfoGroup::Format));
        }
    }

    /// Chooses the next option of the active group that can be chosen, in a circle.
    pub fn next_option(&mut self)
        requires
            old(self).wf(),
        ensures
            final(self).wf(),
            *final(self) == old(self).choosing_active(
                old(self).option_after(
                    old(self).active(),
                    old(self).selected(old(self).active()) as int,
                    old(self).options(old(self).active()) as int,
                ),
            ),
    {
        let group = ColumnInfoGroup::tab_order(self.active_group);
        let count: usize = self.option_count(group);
        let mut index: usize = self.selected_index(group);
        let mut steps: usize = count;
        assert(self.selected(group) < self.options(group));
        while steps > 0
            invariant
                self.wf(),
                *self == *old(self),
                group == self.active(),
                count == self.options(group),
                index < count,
                steps <= count,
                self.option_after(group, self.selected(group) as int, count as int)
                    == self.option_after(group, index as int, steps as int),
            decreases steps,
        {
            index = if index + 1 < count {
                index + 1
            } else {
                0
            };
            if self.option_enabled(group, index) {
                proof {
                    self.lemma_chosen(group, index);
                }
                self.set_selected_index(group, index);
                return;
            }
            steps = steps - 1;
        }
    }

    /// Chooses the previous option of the active group that can be chosen, in a circle.
    pub fn previous_option(&mut self)
        requires
            old(self).wf(),
        ensures
            final(self).wf(),
            *final(self) == old(self).choosing_active(
                old(self).option_before(
                    old(self).active(),
                    old(self).selected(old(self).active()) as int,
                    old(self).options(old(self).active()) as int,
                ),
            ),
    {
        let group = ColumnInfoGroup::tab_order(self.active_group);
        let count: usize = self.option_count(group);
        let mut index: usize = self.selected_index(group);
        let mut steps: usize = count;
        assert(self.selected(group) < self.options(group));
        while steps > 0
            invariant
                self.wf(),
                *self == *old(self),
                group == self.active(),
                count == self.options(group),
                index < count,
                steps <= count,
                self.option_before(group, self.selected(group) as int, count as int)
                    == self.option_before(group, index as int, steps as int),
            decreases steps,
        {
            index = if index > 0 {
                index - 1
            } else {
                count - 1
            };
            if self.option_enabled(group, index) {
                proof {
                    self.lemma_chosen(group, index);
                }
                self.set_selected_index(group, index);
                return;
            }
            steps = steps - 1;
        }
    }

    /// What the dialogue changes of the column.
    pub fn to_update(&self) -> (r: ColumnInfoUpdate)
        requires
            self.wf(),
        ensures
            r.visible == (self.visibility == 0),
            r.alignment == (if self.alignment == 1 {
                Some(ColumnAlignment::Left)
            } else if self.alignment == 2 {
                Some(ColumnAlignment::Right)
            } else {
                None
            }),
            type_place(r.column_type) == self.column_type,
            format_place(r.format) == self.format,
            r.sort == (if self.sort == 1 {
                ColumnSortChoice::Ascending
            } else if self.sort == 2 {
                ColumnSortChoice::Descending
            } else {
                ColumnSortChoice::Unsorted
            }),
            r.nulls@ == self.nulls@,
            r.clear_filters == (self.filters == 1),
    {
        assert(self.selected(ColumnInfoGroup::Type) < self.options(ColumnInfoGroup::Type));
        assert(self.selected(ColumnInfoGroup::Format) < self.options(ColumnInfoGroup::Format));
        ColumnInfoUpdate {
            visible: self.visibility == 0,
            alignment: match self.alignment {
                1 => Some(ColumnAlignment::Left),
                2 => Some(ColumnAlignment::Right),
                _ => None,
            },
            column_type: column_type_choice(self.column_type),
            format: column_format_choice(self.format),
            sort: match self.sort {
                1 => ColumnSortChoice::Ascending,
                2 => ColumnSortChoice::Descending,
                _ => ColumnSortChoice::Unsorted,
            },
            nulls: self.nulls.clone(),
            clear_filters: self.filters == 1,
        }
    }
}

/// A filter in words.
pub open spec fn filter_line(filter: ColumnFilterSummary) -> Seq<char> {
    filter.mode@ + " "@ + filter.kind@ + " "@ + filter.input@
}

/// The filters of a column in words.
pub open spec fn filter_lines(filters: Seq<ColumnFilterSummary>) -> Seq<Seq<char>> {
    if filters.len() == 0 {
        seq!["None"@]
    } else {
        Seq::new(filters.len(), |i: int| filter_line(filters[i]))
    }
}

fn describe_filters(filters: &Vec<ColumnFilterSummary>) -> (r: Vec<String>)
    ensures
        text::views(r@) == filter_lines(filters@),
{
    let mut out: Vec<String> = Vec::new();
    if filters.len() == 0 {
        out.push("None".to_owned());
        assert(text::views(out@) =~= filter_lines(filters@));
        return out;
    }
    let mut i: usize = 0;
    while i < filters.len()
        invariant
            i <= filters@.len(),
            out@.len() == i,
            forall|k: int| 0 <= k < i ==> (#[trigger] out@[k])@ == filter_line(filters@[k]),
        decreases filters@.len() - i,
    {
        out.push(concat5(&filters[i].mode, " ", &filters[i].kind, " ", &filters[i].input));
        i = i + 1;
    }
    assert(text::views(out@) =~= filter_lines(filters@));
    out
}

// ---------------------------------------------------------------------------
// What the dialogue shows
// ---------------------------------------------------------------------------

/// An option as it is shown.
#[derive(Debug, PartialEq, Eq)]
pub struct ColumnInfoOption {
    pub label: String,
    pub selected: bool,
    pub enabled: bool,
}

/// A group as it is shown.
#[derive(Debug, PartialEq, Eq)]
pub struct ColumnInfoSection {
    pub header: String,
    pub active: bool,
    pub options: Vec<ColumnInfoOption>,
    pub details: Vec<String>,
}

/// The dialogue as it is shown.
#[derive(Debug, PartialEq, Eq)]
pub struct ColumnInfoPopup {
    pub title: String,
    pub summary: String,
    pub sections: Vec<ColumnInfoSection>,
}

/// The name of an option.
pub open spec fn option_name(modal: ColumnInfoModal, group: ColumnInfoGroup, index: int) -> Seq<
    char,
> {
    match group {
        ColumnInfoGroup::Visibility => if index == 0 {
            "visible"@
        } else {
            "hidden"@
        },
        ColumnInfoGroup::Align => if index == 0 {
            "auto"@
        } else if index == 1 {
            "left"@
        } else {
            "right"@
        },
        ColumnInfoGroup::Type => if index == 0 {
            "text"@
        } else if index == 1 {
            "date"@
        } else if index == 2 {
            "ip"@
        } else if index == 3 {
            "float"@
        } else if index == 4 {
            "integer"@
        } else if index == 5 {
            "semver"@
        } else {
            "boolean"@
        },
        ColumnInfoGroup::Format => if index == 0 {
            "plain"@
        } else if index == 1 {
            "locale"@
        } else if index == 2 {
            "uppercase"@
        } else if index == 3 {
            "lowercase"@
        } else if index == 4 {
            "char"@
        } else if index == 5 {
            "bit"@
        } else {
            "word"@
        },
        ColumnInfoGroup::Sort => if index == 0 {
            "none"@
        } else if index == 1 {
            "▲ ascending"@
        } else {
            "▼ descending"@
        },
        ColumnInfoGroup::Filters => {
            let sign = match modal.filter_indicator {
                Some(c) => c,
                None => ' ',
            };
            if index == 0 {
                "keep "@.push(sign)
            } else {
                "clear "@.push(sign)
            }
        },
    }
}

/// Whether options are shown as they stand in a group.
pub open spec fn shows_options(
    r: Seq<ColumnInfoOption>,
    modal: ColumnInfoModal,
    group: ColumnInfoGroup,
) -> bool {
    if group is Filters && modal.filter_indicator is None {
        r.len() == 0
    } else {
        &&& r.len() == modal.options(group)
        &&& forall|i: int|
            0 <= i < r.len() ==> {
                &&& (#[trigger] r[i]).label@ == option_name(modal, group, i)
                &&& r[i].selected == (modal.selected(group) == i)
                &&& r[i].enabled == modal.enabled(group, i)
            }
    }
}

/// Whether a group is shown as it stands.
pub open spec fn shows_section(
    r: ColumnInfoSection,
    modal: ColumnInfoModal,
    group: ColumnInfoGroup,
) -> bool {
    &&& r.header@ == group.name()
    &&& r.active == (modal.active() == group)
    &&& shows_options(r.options@, modal, group)
    &&& text::views(r.details@) == if group is Filters {
        text::views(modal.filter_details@)
    } else {
        Seq::empty()
    }
}

/// A labelled text, if there is one.
pub open spec fn labelled(label: Seq<char>, text: Option<Seq<char>>) -> Seq<char> {
    match text {
        Some(text) => label + text,
        None => Seq::empty(),
    }
}

/// What is said of a column in a line.
pub open spec fn column_summary(modal: ColumnInfoModal) -> Seq<char> {
    modal.column_name@ + "  visible:"@ + text::decimal((modal.visible_column + 1) as nat) + " source:"@
        + text::decimal((modal.source_column + 1) as nat) + "  nulls:"@ + modal.nulls@ + labelled(
        " canonical:"@,
        text::opt_view(modal.canonical_source),
    ) + labelled(" type:"@, text::opt_view(modal.source_type)) + labelled(
        " declared:"@,
        text::opt_view(modal.source_declared_type),
    ) + (if modal.source_operations@.len() == 0 {
        Seq::empty()
    } else {
        " ["@ + text::joined(text::views(modal.source_operations@), ", "@) + "]"@
    })
}

fn label_text(label: &str, text: &Option<String>) -> (r: String)
    ensures
        r@ == labelled(label@, text::opt_view(*text)),
{
    match text {
        Some(text) => concat2(label, text),
        None => {
            let empty = String::new();
            assert(empty@ =~= Seq::<char>::empty());
            empty
        },
    }
}

impl ColumnInfoModal {
    fn option_label(&self, group: ColumnInfoGroup, index: usize) -> (r: String)
        requires
            index < self.options(group),
        ensures
            r@ == option_name(*self, group, index as int),
    {
        match group {
            ColumnInfoGroup::Visibility => match index {
                0 => "visible".to_owned(),
                _ => "hidden".to_owned(),
            },
            ColumnInfoGroup::Align => match index {
                0 => "auto".to_owned(),
                1 => "left".to_owned(),
                _ => "right".to_owned(),
            },
            ColumnInfoGroup::Type => match index {
                0 => "text".to_owned(),
                1 => "date".to_owned(),
                2 => "ip".to_owned(),
                3 => "float".to_owned(),
                4 => "integer".to_owned(),
                5 => "semver".to_owned(),
                _ => "boolean".to_owned(),
            },
            ColumnInfoGroup::Format => match index {
                0 => "plain".to_owned(),
                1 => "locale".to_owned(),
                2 => "uppercase".to_owned(),
                3 => "lowercase".to_owned(),
                4 => "char".to_owned(),
                5 => "bit".to_owned(),
                _ => "word".to_owned(),
            },
            ColumnInfoGroup::Sort => match index {
                0 => "none".to_owned(),
                1 => "▲ ascending".to_owned(),
                _ => "▼ descending".to_owned(),
            },
            ColumnInfoGroup::Filters => {
                let mut out = match index {
                    0 => "keep ".to_owned(),
                    _ => "clear ".to_owned(),
                };
                out.push(
                    match self.filter_indicator {
                        Some(c) => c,
                        None => ' ',
                    },
                );
                out
            },
        }
    }

    fn section_options(&self, group: ColumnInfoGroup) -> (r: Vec<ColumnInfoOption>)
        ensures
            shows_options(r@, *self, group),
    {
        let mut out: Vec<ColumnInfoOption> = Vec::new();
        if group == ColumnInfoGroup::Filters && self.filter_indicator.is_none() {
            return out;
        }
        let count: usize = self.option_count(group);
        let mut i: usize = 0;
        while i < count
            invariant
                i <= count,
                count == self.options(group),
                out@.len() == i,
                forall|k: int|
                    0 <= k < i ==> {
                        &&& (#[trigger] out@[k]).label@ == option_name(*self, group, k)
                        &&& out@[k].selected == (self.selected(group) == k)
                        &&& out@[k].enabled == self.enabled(group, k)
                    },
            decreases count - i,
        {
            out.push(
                ColumnInfoOption {
                    label: self.option_label(group, i),
                    selected: i == self.selected_index(group),
                    enabled: self.option_enabled(group, i),
                },
            );
            i = i + 1;
        }
        out
    }

    fn section(&self, group: ColumnInfoGroup) -> (r: ColumnInfoSection)
        ensures
            shows_section(r, *self, group),
    {
        let details = if group == ColumnInfoGroup::Filters {
            let copy = self.filter_details.clone();
            assert(text::views(copy@) =~= text::views(self.filter_details@));
            copy
        } else {
            let none: Vec<String> = Vec::new();
            assert(text::views(none@) =~= Seq::<Seq<char>>::empty());
            none
        };
        ColumnInfoSection {
            header: group.label().to_owned(),
            active: group == ColumnInfoGroup::tab_order(self.active_group),
            options: self.section_options(group),
            details,
        }
    }

    fn summary(&self) -> (r: String)
        requires
            self.wf(),
        ensures
            r@ == column_summary(*self),
    {
        let mut out = self.column_name.clone();
        out.append("  visible:");
        out.append(&decimal_of_usize(self.visible_column + 1));
        out.append(" source:");
        out.append(&decimal_of_usize(self.source_column + 1));
        out.append("  nulls:");
        out.append(&self.nulls);
        out.append(&label_text(" canonical:", &self.canonical_source));
        out.append(&label_text(" type:", &self.source_type));
        out.append(&label_text(" declared:", &self.source_declared_type));
        if self.source_operations.len() > 0 {
            let operations = concat3(" [", &join(&self.source_operations, ", "), "]");
            out.append(&operations);
        } else {
            assert(out@ + Seq::<char>::empty() =~= out@);
        }
        out
    }

    /// The dialogue as it is shown.
    pub fn popup(&self) -> (r: ColumnInfoPopup)
        requires
            self.wf(),
        ensures
            r.title@ == "Column Info"@,
            r.summary@ == column_summary(*self),
            r.sections@.len() == GROUP_COUNT,
            forall|i: int|
                0 <= i < GROUP_COUNT ==> shows_section(
                    #[trigger] r.sections@[i],
                    *self,
                    ColumnInfoGroup::in_view(i),
                ),
    {
        let mut sections: Vec<ColumnInfoSection> = Vec::new();
        let mut i: usize = 0;
        while i < GROUP_COUNT
            invariant
                i <= GROUP_COUNT,
                sections@.len() == i,
                forall|k: int|
                    0 <= k < i ==> shows_section(
                        #[trigger] sections@[k],
                        *self,
                        ColumnInfoGroup::in_view(k),
                    ),
            decreases GROUP_COUNT - i,
        {
            sections.push(self.section(ColumnInfoGroup::visual(i)));
            i = i + 1;
        }
        ColumnInfoPopup { title: "Column Info".to_owned(), summary: self.summary(), sections }
    }
}

// ---------------------------------------------------------------------------
// Keys
// ---------------------------------------------------------------------------

/// What follows a key in the dialogue.
#[derive(Debug, PartialEq, Eq)]
pub enum ColumnInfoStep {
    Stay(ColumnInfoModal),
    Close,
    Update(ColumnInfoUpdate),
}

/// Whether a key goes to the previous option.
pub open spec fn goes_back(code: KeyCode) -> bool {
    code is Up || code is Left || code == KeyCode::Char('k') || code == KeyCode::Char('h')
}

/// Whether a key goes to the next option.
pub open spec fn goes_on(code: KeyCode) -> bool {
    code is Down || code is Right || code == KeyCode::Char('j') || code == KeyCode::Char('l')
}

/// The dialogue after a key that does not end it.
pub open spec fn after_column_key(m: ColumnInfoModal, event: KeyEvent) -> ColumnInfoModal {
    let group = m.active();
    let count = m.options(group) as int;
    if event.code is Tab {
        ColumnInfoModal {
            active_group: if m.active_group + 1 < GROUP_COUNT {
                (m.active_group + 1) as usize
            } else {
                0
            },
            ..m
        }
    } else if event.code is BackTab {
        ColumnInfoModal {
            active_group: if m.active_group > 0 {
                (m.active_group - 1) as usize
            } else {
                (GROUP_COUNT - 1) as usize
            },
            ..m
        }
    } else if goes_back(event.code) {
        m.choosing_active(m.option_before(group, m.selected(group) as int, count))
    } else if goes_on(event.code) {
        m.choosing_active(m.option_after(group, m.selected(group) as int, count))
    } else {
        m
    }
}

/// Handles a key in the dialogue. Without a dialogue there is nothing to go on with.
pub fn handle_column_info_key(open: Option<ColumnInfoModal>, event: KeyEvent) -> (r: ColumnInfoStep)
    requires
        open is Some ==> open->0.wf(),
    ensures
        match open {
            None => r is Close,
            Some(modal) => if event.code is Esc {
                r is Close
            } else if keys::ends_line(event) {
                match r {
                    ColumnInfoStep::Update(update) => {
                        &&& update.visible == (modal.visibility == 0)
                        &&& type_place(update.column_type) == modal.column_type
                        &&& format_place(update.format) == modal.format
                        &&& update.sort == (if modal.sort == 1 {
                            ColumnSortChoice::Ascending
                        } else if modal.sort == 2 {
                            ColumnSortChoice::Descending
                        } else {
                            ColumnSortChoice::Unsorted
                        })
                        &&& update.alignment == (if modal.alignment == 1 {
                            Some(ColumnAlignment::Left)
                        } else if modal.alignment == 2 {
                            Some(ColumnAlignment::Right)
                        } else {
                            None
                        })
                        &&& update.nulls@ == modal.nulls@
                        &&& update.clear_filters == (modal.filters == 1)
                    },
                    _ => false,
                }
            } else {
                match r {
                    ColumnInfoStep::Stay(next) => next.wf() && next == after_column_key(
                        modal,
                        event,
                    ),
                    _ => false,
                }
            },
        },
{
    let mut modal = match open {
        Some(modal) => modal,
        None => {
            return ColumnInfoStep::Close;
        },
    };
    if is_line_end(event) {
        return ColumnInfoStep::Update(modal.to_update());
    }
    match event.code {
        KeyCode::Esc => {
            return ColumnInfoStep::Close;
        },
        KeyCode::Tab => modal.next_group(),
        KeyCode::BackTab => modal.previous_group(),
        KeyCode::Up => modal.previous_option(),
        KeyCode::Left => modal.previous_option(),
        KeyCode::Down => modal.next_option(),
        KeyCode::Right => modal.next_option(),
        KeyCode::Char(c) => {
            if c == 'k' || c == 'h' {
                modal.previous_option();
            } else if c == 'j' || c == 'l' {
                modal.next_option();
            }
        },
        _ => {},
    }
    ColumnInfoStep::Stay(modal)
}

// ---------------------------------------------------------------------------
// Laws
// ---------------------------------------------------------------------------

/// A type that is chosen always has the format that is chosen with it.
pub proof fn chosen_types_have_their_format(modal: ColumnInfoModal, index: usize)
    ensures
        ({
            let next = modal.choosing(ColumnInfoGroup::Type, index);
            type_has_format(next.column_type as int, next.format as int)
        }),
{
}

/// An option that is moved to can be chosen.
pub proof fn moves_end_on_enabled_options(
    modal: ColumnInfoModal,
    group: ColumnInfoGroup,
    index: int,
    steps: int,
)
    ensures
        modal.option_after(group, index, steps) is Some ==> modal.enabled(
            group,
            modal.option_after(group, index, steps)->0,
        ),
        modal.option_before(group, index, steps) is Some ==> modal.enabled(
            group,
            modal.option_before(group, index, steps)->0,
        ),
    decreases steps,
{
    if steps > 0 {
        let next = if index + 1 < modal.options(group) {
            index + 1
        } else {
            0
        };
        let previous = if index > 0 {
            index - 1
        } else {
            modal.options(group) - 1
        };
        moves_end_on_enabled_options(modal, group, next, steps - 1);
        moves_end_on_enabled_options(modal, group, previous, steps - 1);
    }
}

/// From an option that can be chosen, a move on and a move back lead to it again.
pub proof fn moving_back_undoes_moving_on(
    modal: ColumnInfoModal,
    group: ColumnInfoGroup,
    index: int,
)
    requires
        0 <= index < modal.options(group),
        modal.enabled(group, index),
    ensures
        ({
            let count = modal.options(group) as int;
            let next = modal.option_after(group, index, count);
            next is Some && modal.option_before(group, next->0, count) == Some(index)
        }),
{
    reveal_with_fuel(ColumnInfoModal::option_after, 8);
    reveal_with_fuel(ColumnInfoModal::option_before, 8);
}

/// Going to the next group and back leads to the same group.
pub proof fn going_back_undoes_going_on(modal: ColumnInfoModal, on: KeyEvent, back: KeyEvent)
    requires
        modal.wf(),
        on.code is Tab,
        back.code is BackTab,
    ensures
        after_column_key(after_column_key(modal, on), back) == modal,
{
}

/// Each option of a group stands at the place of its name.
pub proof fn options_stand_at_their_names(modal: ColumnInfoModal)
    ensures
        option_name(modal, ColumnInfoGroup::Visibility, 0) == "visible"@,
        option_name(modal, ColumnInfoGroup::Visibility, 1) == "hidden"@,
        option_name(modal, ColumnInfoGroup::Align, 0) == "auto"@,
        option_name(modal, ColumnInfoGroup::Align, 1) == "left"@,
        option_name(modal, ColumnInfoGroup::Align, 2) == "right"@,
        option_name(modal, ColumnInfoGroup::Type, type_place(ColumnTypeChoice::Text)) == "text"@,
        option_name(modal, ColumnInfoGroup::Type, type_place(ColumnTypeChoice::Date)) == "date"@,
        option_name(modal, ColumnInfoGroup::Type, type_place(ColumnTypeChoice::Ip)) == "ip"@,
        option_name(modal, ColumnInfoGroup::Type, type_place(ColumnTypeChoice::Float)) == "float"@,
        option_name(modal, ColumnInfoGroup::Type, type_place(ColumnTypeChoice::Integer))
            == "integer"@,
        option_name(modal, ColumnInfoGroup::Type, type_place(ColumnTypeChoice::SemVer))
            == "semver"@,
        option_name(modal, ColumnInfoGroup::Type, type_place(ColumnTypeChoice::Boolean))
            == "boolean"@,
        option_name(modal, ColumnInfoGroup::Format, format_place(ColumnFormatChoice::Plain))
            == "plain"@,
        option_name(modal, ColumnInfoGroup::Format, format_place(ColumnFormatChoice::Locale))
            == "locale"@,
        option_name(modal, ColumnInfoGroup::Format, format_place(ColumnFormatChoice::Uppercase))
            == "uppercase"@,
        option_name(modal, ColumnInfoGroup::Format, format_place(ColumnFormatChoice::Lowercase))
            == "lowercase"@,
        option_name(modal, ColumnInfoGroup::Format, format_place(ColumnFormatChoice::Char))
            == "char"@,
        option_name(modal, ColumnInfoGroup::Format, format_place(ColumnFormatChoice::Bit))
            == "bit"@,
        option_name(modal, ColumnInfoGroup::Format, format_place(ColumnFormatChoice::Word))
            == "word"@,
        option_name(modal, ColumnInfoGroup::Sort, 0) == "none"@,
        option_name(modal, ColumnInfoGroup::Sort, 1) == "▲ ascending"@,
        option_name(modal, ColumnInfoGroup::Sort, 2) == "▼ descending"@,
        modal.filter_indicator matches Some(c) ==> option_name(
            modal,
            ColumnInfoGroup::Filters,
            0,
        ) == "keep "@.push(c) && option_name(modal, ColumnInfoGroup::Filters, 1) == "clear "@.push(
            c,
        ),
{
}

/// Numbers can be shown by the locale, texts, dates, addresses and versions in capital
/// or small letters, and truth values in their three ways; everything can be shown
/// plainly.
pub proof fn formats_suit_their_types(column_type: ColumnTypeChoice)
    ensures
        ({
            let place = type_place(column_type);
            let number = column_type is Float || column_type is Integer;
            let truth = column_type is Boolean;
            &&& type_has_format(place, format_place(ColumnFormatChoice::Plain))
            &&& type_has_format(place, format_place(ColumnFormatChoice::Locale)) <==> number
            &&& type_has_format(place, format_place(ColumnFormatChoice::Uppercase)) <==> !number
                && !truth
            &&& type_has_format(place, format_place(ColumnFormatChoice::Lowercase)) <==> !number
                && !truth
            &&& type_has_format(place, format_place(ColumnFormatChoice::Char)) <==> truth
            &&& type_has_format(place, format_place(ColumnFormatChoice::Bit)) <==> truth
            &&& type_has_format(place, format_place(ColumnFormatChoice::Word)) <==> truth
        }),
{
}

/// One filter shows whether it keeps or drops, several or an unknown one show that they
/// do both, and none shows nothing.
pub proof fn filters_show_their_sign(filters: Seq<ColumnFilterSummary>)
    ensures
        filter_sign(filters) is None <==> filters.len() == 0,
        filter_sign(filters) == Some('+') <==> filters.len() == 1 && filters[0].mode@ == "in"@,
        filter_sign(filters) == Some('-') <==> filters.len() == 1 && filters[0].mode@ == "out"@,
        filters.len() > 1 ==> filter_sign(filters) == Some('±'),
{
    reveal_strlit("in");
    reveal_strlit("out");
    assert("in"@.len() == 2);
    assert("out"@.len() == 3);
}

/// Choosing sets the option of its group and of no other, except that a type without the
/// format that was chosen goes back to the plain one.
pub proof fn choosing_sets_its_own_group(
    modal: ColumnInfoModal,
    group: ColumnInfoGroup,
    other: ColumnInfoGroup,
    index: usize,
)
    ensures
        modal.choosing(group, index).selected(group) == index,
        other != group && !(group is Type && other is Format) ==> modal.choosing(
            group,
            index,
        ).selected(other) == modal.selected(other),
        group is Type && type_has_format(index as int, modal.format as int) ==> modal.choosing(
            group,
            index,
        ).format == modal.format,
        group is Type && !type_has_format(index as int, modal.format as int) ==> modal.choosing(
            group,
            index,
        ).format == 0,
        modal.choosing(group, index).active_group == modal.active_group,
        modal.choosing(group, index).column_name == modal.column_name,
{
}

/// The groups follow each other in their order as the key goes round them, forward and
/// back; the order in which they are drawn is another, and both hold each group once.
pub proof fn groups_go_round(m: ColumnInfoModal, event: KeyEvent)
    requires
        m.active_group < 6,
    ensures
        event.code is Tab && m.active() is Visibility ==> after_column_key(m, event).active()
            is Align,
        event.code is Tab && m.active() is Align ==> after_column_key(m, event).active() is Type,
        event.code is Tab && m.active() is Type ==> after_column_key(m, event).active() is Format,
        event.code is Tab && m.active() is Format ==> after_column_key(m, event).active() is Sort,
        event.code is Tab && m.active() is Sort ==> after_column_key(m, event).active() is Filters,
        event.code is Tab && m.active() is Filters ==> after_column_key(m, event).active()
            is Visibility,
        event.code is BackTab && m.active() is Visibility ==> after_column_key(m, event).active()
            is Filters,
        event.code is BackTab && m.active() is Align ==> after_column_key(m, event).active()
            is Visibility,
        event.code is BackTab && m.active() is Type ==> after_column_key(m, event).active()
            is Align,
        event.code is BackTab && m.active() is Format ==> after_column_key(m, event).active()
            is Type,
        event.code is BackTab && m.active() is Sort ==> after_column_key(m, event).active()
            is Format,
        event.code is BackTab && m.active() is Filters ==> after_column_key(m, event).active()
            is Sort,
        event.code is Tab || event.code is BackTab ==> after_column_key(m, event).selected(
            m.active(),
        ) == m.selected(m.active()),
        ColumnInfoGroup::in_view(0) is Visibility,
        ColumnInfoGroup::in_view(1) is Format,
        ColumnInfoGroup::in_view(2) is Align,
        ColumnInfoGroup::in_view(3) is Sort,
        ColumnInfoGroup::in_view(4) is Type,
        ColumnInfoGroup::in_view(5) is Filters,
{
}

/// In a group whose options are all there, going on and going back move by one and go
/// round at the ends.
pub proof fn keys_move_by_one_option(m: ColumnInfoModal, event: KeyEvent)
    requires
        m.active() is Visibility || m.active() is Align || m.active() is Type || m.active() is Sort,
        m.selected(m.active()) < m.options(m.active()),
    ensures
        ({
            let group = m.active();
            let now = m.selected(group);
            let count = m.options(group);
            let then = after_column_key(m, event).selected(group);
            let on = event.code is Down || event.code is Right || event.code == KeyCode::Char('j')
                || event.code == KeyCode::Char('l');
            let back = event.code is Up || event.code is Left || event.code == KeyCode::Char('k')
                || event.code == KeyCode::Char('h');
            &&& on && now + 1 < count ==> then == now + 1
            &&& on && now + 1 == count ==> then == 0
            &&& back && now > 0 ==> then == now - 1
            &&& back && now == 0 ==> then == count - 1
            &&& !on && !back ==> then == now
        }),
        m.options(ColumnInfoGroup::Visibility) == 2,
        m.options(ColumnInfoGroup::Align) == 3,
        m.options(ColumnInfoGroup::Type) == 7,
        m.options(ColumnInfoGroup::Format) == 7,
        m.options(ColumnInfoGroup::Sort) == 3,
{
    let group = m.active();
    let now = m.selected(group) as int;
    let count = m.options(group) as int;
    assert(m.option_after(group, now, count) == Some(
        if now + 1 < count {
            now + 1
        } else {
            0
        },
    ));
    assert(m.option_before(group, now, count) == Some(
        if now > 0 {
            now - 1
        } else {
            count - 1
        },
    ));
}

/// A filter is told by its mode, its kind and its condition, and where there is none,
/// that is told.
pub proof fn filters_are_told_in_words(filters: Seq<ColumnFilterSummary>, i: int)
    requires
        0 <= i < filters.len(),
    ensures
        filter_lines(Seq::empty()) == seq!["None"@],
        filter_lines(filters).len() == filters.len(),
        filter_lines(filters)[i] == filters[i].mode@.push(' ') + filters[i].kind@.push(' ')
            + filters[i].input@,
{
    reveal_strlit(" ");
    let f = filters[i];
    assert(filter_line(f) =~= f.mode@.push(' ') + f.kind@.push(' ') + f.input@);
}

/// The summary counts columns from one and tells what is known of the source, and of
/// nothing else.
pub proof fn summaries_tell_what_is_known(modal: ColumnInfoModal, label: Seq<char>, s: Seq<char>)
    requires
        modal.canonical_source is None,
        modal.source_type is None,
        modal.source_declared_type is None,
        modal.source_operations@.len() == 0,
    ensures
        column_summary(modal) == modal.column_name@ + "  visible:"@ + text::decimal(
            (modal.visible_column + 1) as nat,
        ) + " source:"@ + text::decimal((modal.source_column + 1) as nat) + "  nulls:"@
            + modal.nulls@,
        labelled(label, Some(s)) == label + s,
        labelled(label, None) == Seq::<char>::empty(),
{
    let none = Seq::<char>::empty();
    assert forall|t: Seq<char>| #[trigger] (t + none) == t by {
        assert(t + none =~= t);
    }
}

/// A group shows its options by their names, with the one that is chosen marked and no
/// other; where no filter is set there is none to show.
pub proof fn groups_show_their_options(
    r: ColumnInfoSection,
    modal: ColumnInfoModal,
    group: ColumnInfoGroup,
    i: int,
)
    requires
        shows_section(r, modal, group),
        0 <= i < r.options@.len(),
    ensures
        r.active <==> modal.active() == group,
        r.options@[i].label@ == option_name(modal, group, i),
        r.options@[i].selected <==> modal.selected(group) == i,
        r.options@[i].enabled <==> modal.enabled(group, i),
        r.options@.len() == modal.options(group),
        !(group is Filters && modal.filter_indicator is None),
        group !is Filters ==> r.details@.len() == 0,
        group is Filters ==> text::views(r.details@) == text::views(modal.filter_details@),
        group is Visibility ==> r.header@ == "Visibility"@,
        group is Align ==> r.header@ == "Align"@,
        group is Type ==> r.header@ == "Type"@,
        group is Format ==> r.header@ == "Format"@,
        group is Sort ==> r.header@ == "Sort"@,
        group is Filters ==> r.header@ == "Filters"@,
        group is Filters ==> modal.options(group) == 2,
{
    assert(r.options@[i].label@ == option_name(modal, group, i));
    assert(text::views(r.details@).len() == r.details@.len());
}

} // verus!
