//! Finding saved views, and choosing one for an input.

use vstd::prelude::*;

use crate::patterns::{self, MatchRank, best_match_rank, platform_eq};
use crate::saved_colors::{self, SavedViewWarning, WarningModel, warn};
use crate::saved_views::{
    self, SavedView, SavedViewParseError, ValidatedSavedView, normalize_view_name,
};
use crate::source::{self, extension_of, file_name_of, file_stem_of};
use crate::text::{self, concat2, concat3, contains_text, precedes_text, same, split_chars};

verus! {

// ---------------------------------------------------------------------------
// Files of views
// ---------------------------------------------------------------------------

/// The extensions of view files.
#[derive(Debug, Clone, Copy, PartialEq, Eq, Structural)]
pub enum ViewExtension {
    Yml,
    Yaml,
}

/// The extension of a view file.
pub open spec fn view_extension_of(path: Seq<char>) -> Option<ViewExtension> {
    match source::extension(path) {
        Some(e) => if e == "yml"@ {
            Some(ViewExtension::Yml)
        } else if e == "yaml"@ {
            Some(ViewExtension::Yaml)
        } else {
            None
        },
        None => None,
    }
}

/// The extension of a view file.
pub fn view_extension(path: &str) -> (r: Option<ViewExtension>)
    ensures
        r == view_extension_of(path@),
{
    match extension_of(path) {
        Some(e) => if same(&e, "yml") {
            Some(ViewExtension::Yml)
        } else if same(&e, "yaml") {
            Some(ViewExtension::Yaml)
        } else {
            None
        },
        None => None,
    }
}

/// The name of a file without its extension; nothing for a path without a name.
pub open spec fn stem_of(path: Seq<char>) -> Seq<char> {
    match source::file_stem(path) {
        Some(stem) => stem,
        None => Seq::empty(),
    }
}

/// The rank of an extension among files of the same name.
pub open spec fn extension_priority(path: Seq<char>) -> int {
    match view_extension_of(path) {
        Some(ViewExtension::Yml) => 0,
        Some(ViewExtension::Yaml) => 1,
        None => 2,
    }
}

/// The rank of an extension among files of the same name.
pub fn view_extension_priority(path: &str) -> (r: u8)
    ensures
        r == extension_priority(path@),
{
    match view_extension(path) {
        Some(ViewExtension::Yml) => 0,
        Some(ViewExtension::Yaml) => 1,
        None => 2,
    }
}

/// A part of a path.
#[derive(Debug, PartialEq, Eq)]
pub enum PathPart {
    Root,
    Current,
    Parent,
    Name(String),
}

/// The model of a part of a path.
pub enum PartModel {
    Root,
    Current,
    Parent,
    Name(Seq<char>),
}

impl View for PathPart {
    type V = PartModel;

    open spec fn view(&self) -> PartModel {
        match self {
            PathPart::Root => PartModel::Root,
            PathPart::Current => PartModel::Current,
            PathPart::Parent => PartModel::Parent,
            PathPart::Name(s) => PartModel::Name(s@),
        }
    }
}

/// The models of the parts of a path.
pub open spec fn part_views(v: Seq<PathPart>) -> Seq<PartModel> {
    Seq::new(v.len(), |i: int| v[i]@)
}

impl PartModel {
    /// The place of the part among the kinds of parts.
    pub open spec fn rank(self) -> int {
        match self {
            PartModel::Root => 0,
            PartModel::Current => 1,
            PartModel::Parent => 2,
            PartModel::Name(_) => 3,
        }
    }
}

/// The parts of a path in the first `n` of the pieces between its slashes: an
/// empty piece at the beginning of a longer path is the root, a single dot counts
/// at the beginning alone, and other empty pieces count for nothing.
pub open spec fn parts_of(pieces: Seq<Seq<char>>, n: int) -> Seq<PartModel>
    decreases n,
{
    if n <= 0 || n > pieces.len() {
        Seq::empty()
    } else {
        let before = parts_of(pieces, n - 1);
        let piece = pieces[n - 1];
        if piece.len() == 0 {
            if n == 1 && pieces.len() > 1 {
                before.push(PartModel::Root)
            } else {
                before
            }
        } else if piece == "."@ {
            if n == 1 {
                before.push(PartModel::Current)
            } else {
                before
            }
        } else if piece == ".."@ {
            before.push(PartModel::Parent)
        } else {
            before.push(PartModel::Name(piece))
        }
    }
}

/// The parts of a path.
pub open spec fn path_parts(path: Seq<char>) -> Seq<PartModel> {
    parts_of(text::split_on(path, '/'), text::split_on(path, '/').len() as int)
}

/// Whether a part of a path comes before another: by kind, and names in the order
/// of their characters.
pub open spec fn part_before(a: PartModel, b: PartModel) -> bool {
    match (a, b) {
        (PartModel::Name(x), PartModel::Name(y)) => text::text_before(x, y),
        _ => a.rank() < b.rank(),
    }
}

/// Whether a list of parts comes before another in the order of its parts, from
/// `i` on.
pub open spec fn parts_before(a: Seq<PartModel>, b: Seq<PartModel>, i: int) -> bool
    decreases b.len() - i,
{
    if i < 0 || i >= b.len() {
        false
    } else if i >= a.len() {
        true
    } else if a[i] == b[i] {
        parts_before(a, b, i + 1)
    } else {
        part_before(a[i], b[i])
    }
}

/// Whether a path comes before another, part by part.
pub open spec fn path_before(a: Seq<char>, b: Seq<char>) -> bool {
    parts_before(path_parts(a), path_parts(b), 0)
}

fn split_path(path: &str) -> (r: Vec<PathPart>)
    ensures
        part_views(r@) == path_parts(path@),
{
    let pieces = split_chars(path, '/');
    let ghost all = text::views(pieces@);
    let mut parts: Vec<PathPart> = Vec::new();
    let mut i: usize = 0;
    assert(part_views(parts@) =~= parts_of(all, 0));
    while i < pieces.len()
        invariant
            i <= pieces@.len(),
            all == text::views(pieces@),
            all == text::split_on(path@, '/'),
            part_views(parts@) == parts_of(all, i as int),
        decreases pieces@.len() - i,
    {
        let ghost before = parts@;
        assert(all[i as int] == pieces@[i as int]@);
        let piece = &pieces[i];
        if piece.as_str().is_empty() {
            if i == 0 && pieces.len() > 1 {
                parts.push(PathPart::Root);
                assert(part_views(parts@) =~= part_views(before).push(PartModel::Root));
            }
        } else if same(piece, ".") {
            if i == 0 {
                parts.push(PathPart::Current);
                assert(part_views(parts@) =~= part_views(before).push(PartModel::Current));
            }
        } else if same(piece, "..") {
            parts.push(PathPart::Parent);
            assert(part_views(parts@) =~= part_views(before).push(PartModel::Parent));
        } else {
            parts.push(PathPart::Name(piece.clone()));
            assert(part_views(parts@) =~= part_views(before).push(PartModel::Name(piece@)));
        }
        i = i + 1;
    }
    parts
}

fn part_rank(part: &PathPart) -> (r: u8)
    ensures
        r == part@.rank(),
{
    match part {
        PathPart::Root => 0,
        PathPart::Current => 1,
        PathPart::Parent => 2,
        PathPart::Name(_) => 3,
    }
}

/// Whether a part comes before another, or nothing if they are the same.
fn part_order(a: &PathPart, b: &PathPart) -> (r: Option<bool>)
    ensures
        r is None <==> a@ == b@,
        r matches Some(before) ==> before == part_before(a@, b@),
{
    if let (PathPart::Name(x), PathPart::Name(y)) = (a, b) {
        if same(x, y) {
            None
        } else {
            Some(precedes_text(x, y))
        }
    } else {
        let p: u8 = part_rank(a);
        let q: u8 = part_rank(b);
        if p == q {
            None
        } else {
            Some(p < q)
        }
    }
}

/// Whether a path comes before another, part by part.
pub fn precedes_path(a: &str, b: &str) -> (r: bool)
    ensures
        r == path_before(a@, b@),
{
    let x = split_path(a);
    let y = split_path(b);
    let ghost left = part_views(x@);
    let ghost right = part_views(y@);
    let mut i: usize = 0;
    while i < y.len()
        invariant
            i <= y@.len(),
            i <= x@.len(),
            left == part_views(x@),
            right == part_views(y@),
            left == path_parts(a@),
            right == path_parts(b@),
            parts_before(left, right, 0) == parts_before(left, right, i as int),
        decreases y@.len() - i,
    {
        if i >= x.len() {
            return true;
        }
        assert(left[i as int] == x@[i as int]@);
        assert(right[i as int] == y@[i as int]@);
        if let Some(before) = part_order(&x[i], &y[i]) {
            return before;
        }
        i = i + 1;
    }
    false
}

/// Whether a view file is read before another: by name, then by extension, then by
/// path.
pub open spec fn file_before(a: Seq<char>, b: Seq<char>) -> bool {
    if stem_of(a) != stem_of(b) {
        text::text_before(stem_of(a), stem_of(b))
    } else if extension_priority(a) != extension_priority(b) {
        extension_priority(a) < extension_priority(b)
    } else {
        path_before(a, b)
    }
}

fn stem(path: &str) -> (r: String)
    ensures
        r@ == stem_of(path@),
{
    match file_stem_of(path) {
        Some(stem) => stem,
        None => {
            let empty = String::new();
            assert(empty@ =~= Seq::<char>::empty());
            empty
        },
    }
}

fn precedes_file(a: &str, b: &str) -> (r: bool)
    ensures
        r == file_before(a@, b@),
{
    let x = stem(a);
    let y = stem(b);
    if !same(&x, &y) {
        return precedes_text(&x, &y);
    }
    let p: u8 = view_extension_priority(a);
    let q: u8 = view_extension_priority(b);
    if p != q {
        p < q
    } else {
        precedes_path(a, b)
    }
}

/// A path put before the first of the sorted paths that it comes before.
pub open spec fn inserted(sorted: Seq<Seq<char>>, path: Seq<char>) -> Seq<Seq<char>>
    decreases sorted.len(),
{
    if sorted.len() == 0 {
        seq![path]
    } else if file_before(path, sorted.last()) {
        inserted(sorted.drop_last(), path).push(sorted.last())
    } else {
        sorted.push(path)
    }
}

/// The view files among the first `n` paths, in the order in which they are read.
pub open spec fn view_files(paths: Seq<Seq<char>>, n: int) -> Seq<Seq<char>>
    decreases n,
{
    if n <= 0 || n > paths.len() {
        Seq::empty()
    } else {
        let before = view_files(paths, n - 1);
        if view_extension_of(paths[n - 1]) is Some {
            inserted(before, paths[n - 1])
        } else {
            before
        }
    }
}

fn insert_file(sorted: &mut Vec<String>, path: String)
    ensures
        text::views(final(sorted)@) == inserted(text::views(old(sorted)@), path@),
{
    let ghost all = text::views(sorted@);
    let ghost name = path@;
    let mut n: usize = sorted.len();
    assert(all.take(n as int) =~= all);
    assert(inserted(all, name) =~= inserted(all.take(n as int), name) + all.skip(n as int));
    while n > 0 && precedes_file(&path, &sorted[n - 1])
        invariant
            n <= sorted@.len(),
            all == text::views(sorted@),
            name == path@,
            inserted(all, name) == inserted(all.take(n as int), name) + all.skip(n as int),
        decreases n,
    {
        let ghost front = all.take(n as int);
        assert(front.last() == all[n - 1]);
        assert(front.drop_last() =~= all.take(n - 1));
        assert(inserted(front, name) =~= inserted(all.take(n - 1), name).push(all[n - 1]));
        assert(inserted(all.take(n - 1), name).push(all[n - 1]) + all.skip(n as int)
            =~= inserted(all.take(n - 1), name) + all.skip(n - 1));
        n = n - 1;
    }
    let ghost front = all.take(n as int);
    assert(inserted(front, name) =~= front.push(name)) by {
        if n > 0 {
            assert(front.last() == all[n - 1]);
        }
    }
    sorted.insert(n, path);
    assert(text::views(sorted@) =~= front.push(name) + all.skip(n as int));
}

/// The view files among paths, in the order in which they are read.
pub fn list_view_files(paths: &Vec<String>) -> (r: Vec<String>)
    ensures
        text::views(r@) == view_files(text::views(paths@), paths@.len() as int),
{
    let ghost all = text::views(paths@);
    let mut sorted: Vec<String> = Vec::new();
    let mut i: usize = 0;
    assert(text::views(sorted@) =~= Seq::<Seq<char>>::empty());
    while i < paths.len()
        invariant
            i <= paths@.len(),
            all == text::views(paths@),
            text::views(sorted@) == view_files(all, i as int),
        decreases paths@.len() - i,
    {
        assert(all[i as int] == paths@[i as int]@);
        if view_extension(&paths[i]).is_some() {
            insert_file(&mut sorted, paths[i].clone());
        }
        i = i + 1;
    }
    sorted
}

/// What becomes of a view file: one of a name that was there is not read if it has
/// the longer extension.
#[derive(Debug, PartialEq, Eq)]
pub enum DiscoveryStep {
    Read { path: String, name: String },
    Duplicate { path: String, name: String },
}

/// The path of a step.
pub open spec fn step_path(step: DiscoveryStep) -> Seq<char> {
    match step {
        DiscoveryStep::Read { path, .. } => path@,
        DiscoveryStep::Duplicate { path, .. } => path@,
    }
}

/// The name of a step.
pub open spec fn step_name(step: DiscoveryStep) -> Seq<char> {
    match step {
        DiscoveryStep::Read { name, .. } => name@,
        DiscoveryStep::Duplicate { name, .. } => name@,
    }
}

/// Whether a file has the name of one of the files before it.
pub open spec fn repeats_name(files: Seq<Seq<char>>, i: int) -> bool {
    exists|k: int| 0 <= k < i && stem_of(#[trigger] files[k]) == stem_of(files[i])
}

/// What becomes of each view file.
pub fn plan_discovery(files: &Vec<String>) -> (r: Vec<DiscoveryStep>)
    ensures
        r@.len() == files@.len(),
        forall|i: int|
            0 <= i < files@.len() ==> {
                let step = #[trigger] r@[i];
                &&& step_path(step) == files@[i]@
                &&& step_name(step) == stem_of(files@[i]@)
                &&& step is Duplicate <==> repeats_name(text::views(files@), i) && view_extension_of(
                    files@[i]@,
                ) == Some(ViewExtension::Yaml)
            },
{
    let ghost all = text::views(files@);
    let mut steps: Vec<DiscoveryStep> = Vec::new();
    let mut names: Vec<String> = Vec::new();
    let mut i: usize = 0;
    while i < files.len()
        invariant
            i <= files@.len(),
            all == text::views(files@),
            names@.len() == i,
            forall|k: int| 0 <= k < i ==> (#[trigger] names@[k])@ == stem_of(all[k]),
            steps@.len() == i,
            forall|k: int|
                0 <= k < i ==> {
                    let step = #[trigger] steps@[k];
                    &&& step_path(step) == files@[k]@
                    &&& step_name(step) == stem_of(files@[k]@)
                    &&& step is Duplicate <==> repeats_name(all, k) && view_extension_of(
                        files@[k]@,
                    ) == Some(ViewExtension::Yaml)
                },
        decreases files@.len() - i,
    {
        let name = stem(&files[i]);
        let repeated = contains_text(&names, &name);
        proof {
            if repeated {
                let k = choose|k: int| 0 <= k < names@.len() && text::views(names@)[k] == name@;
                assert(names@[k]@ == stem_of(all[k]));
                assert(stem_of(all[k]) == stem_of(all[i as int]));
            }
            if repeats_name(all, i as int) {
                let k = choose|k: int|
                    0 <= k < i && stem_of(#[trigger] all[k]) == stem_of(all[i as int]);
                assert(text::views(names@)[k] == names@[k]@);
            }
        }
        let step = if repeated && view_extension(&files[i]) == Some(ViewExtension::Yaml) {
            DiscoveryStep::Duplicate { path: files[i].clone(), name: name.clone() }
        } else {
            DiscoveryStep::Read { path: files[i].clone(), name: name.clone() }
        };
        steps.push(step);
        names.push(name);
        i = i + 1;
    }
    steps
}

/// A view and the file it was read from.
#[derive(Debug, PartialEq)]
pub struct SavedViewFile {
    pub path: String,
    pub canonical_name: String,
    pub view: SavedView,
    pub warnings: Vec<SavedViewWarning>,
}

/// The views that were found, and what is wrong with the others.
#[derive(Debug, PartialEq)]
pub struct SavedViewDiscovery {
    pub views: Vec<SavedViewFile>,
    pub warnings: Vec<SavedViewWarning>,
}

impl Default for SavedViewDiscovery {
    fn default() -> (r: Self)
        ensures
            r.views@.len() == 0,
            r.warnings@.len() == 0,
    {
        SavedViewDiscovery { views: Vec::new(), warnings: Vec::new() }
    }
}

/// What came of reading a view file.
#[derive(Debug, PartialEq)]
pub enum ViewOutcome {
    Parsed(ValidatedSavedView),
    Unparsed(SavedViewParseError),
    Unread(String),
}

impl SavedViewDiscovery {
    /// Takes up what came of reading a view file.
    pub fn read(&mut self, path: &str, name: &str, outcome: ViewOutcome)
        ensures
            match outcome {
                ViewOutcome::Parsed(validated) => {
                    &&& final(self).warnings@ == old(self).warnings@
                    &&& final(self).views@.len() == old(self).views@.len() + 1
                    &&& final(self).views@.drop_last() == old(self).views@
                    &&& final(self).views@.last().path@ == path@
                    &&& final(self).views@.last().canonical_name@ == name@
                    &&& final(self).views@.last().view == validated.view
                    &&& final(self).views@.last().warnings == validated.warnings
                },
                ViewOutcome::Unparsed(fault) => {
                    &&& final(self).views@ == old(self).views@
                    &&& saved_colors::warning_views(final(self).warnings@) == saved_colors::warning_views(old(self).warnings@)
                        + saved_colors::warned(path@, "failed to parse saved view: "@ + fault.text())
                },
                ViewOutcome::Unread(fault) => {
                    &&& final(self).views@ == old(self).views@
                    &&& saved_colors::warning_views(final(self).warnings@) == saved_colors::warning_views(old(self).warnings@)
                        + saved_colors::warned(path@, "failed to read saved view: "@ + fault@)
                },
            },
    {
        match outcome {
            ViewOutcome::Parsed(validated) => {
                self.views.push(
                    SavedViewFile {
                        path: path.to_owned(),
                        canonical_name: name.to_owned(),
                        view: validated.view,
                        warnings: validated.warnings,
                    },
                );
                assert(self.views@.drop_last() =~= old(self).views@);
            },
            ViewOutcome::Unparsed(fault) => {
                warn(&mut self.warnings, path, &concat2("failed to parse saved view: ", &fault.message()));
            },
            ViewOutcome::Unread(fault) => {
                warn(&mut self.warnings, path, &concat2("failed to read saved view: ", &fault));
            },
        }
    }

    /// Takes note of a view file that is not read.
    pub fn skip(&mut self, path: &str, name: &str)
        ensures
            final(self).views@ == old(self).views@,
            saved_colors::warning_views(final(self).warnings@) == saved_colors::warning_views(old(self).warnings@) + saved_colors::warned(
                path@,
                "duplicate saved view '"@ + name@ + "': .yml takes precedence over .yaml"@,
            ),
    {
        let message = concat3(
            "duplicate saved view '",
            name,
            "': .yml takes precedence over .yaml",
        );
        warn(&mut self.warnings, path, &message);
    }
}

// ---------------------------------------------------------------------------
// Choosing a view
// ---------------------------------------------------------------------------

/// How a view is chosen: by the input, or by its name.
#[derive(Debug, PartialEq, Eq)]
pub enum ViewChoice<'a> {
    Auto { input_path: &'a str },
    Force { name: &'a str },
}

/// The view that was chosen.
#[derive(Debug, PartialEq)]
pub struct SelectedSavedView<'a> {
    pub view: &'a SavedViewFile,
    pub warnings: Vec<SavedViewWarning>,
}

/// How closely a view names a file.
pub open spec fn file_rank(view: SavedViewFile, name: Seq<char>, ignore_case: bool) -> Option<
    MatchRank,
> {
    patterns::best_rank(
        patterns::pattern_views(view.view.filenames@),
        view.view.filenames@.len() as int,
        name,
        ignore_case,
    )
}

/// Whether a view is chosen before another that also fits: the closer match comes
/// first, then the order of paths.
pub open spec fn chosen_before(a: (MatchRank, Seq<char>), b: (MatchRank, Seq<char>)) -> bool {
    a.0.order() < b.0.order() || (a.0 == b.0 && path_before(a.1, b.1))
}

/// The place of the view that is chosen for a file among the first `n`.
pub open spec fn chosen_view(
    views: Seq<SavedViewFile>,
    n: int,
    name: Seq<char>,
    ignore_case: bool,
) -> Option<int>
    decreases n,
{
    if n <= 0 || n > views.len() {
        None
    } else {
        let before = chosen_view(views, n - 1, name, ignore_case);
        match file_rank(views[n - 1], name, ignore_case) {
            None => before,
            Some(rank) => match before {
                None => Some(n - 1),
                Some(k) => {
                    let known = file_rank(views[k], name, ignore_case)->0;
                    if chosen_before((rank, views[n - 1].path@), (known, views[k].path@)) {
                        Some(n - 1)
                    } else {
                        before
                    }
                },
            },
        }
    }
}

/// Whether another view fits a file just as closely.
pub open spec fn is_tied(views: Seq<SavedViewFile>, at: int, name: Seq<char>, ignore_case: bool) -> bool {
    exists|k: int|
        0 <= k < views.len() && k != at && file_rank(#[trigger] views[k], name, ignore_case)
            == file_rank(views[at], name, ignore_case)
}

/// The place of the first view of a name from `from` on.
pub open spec fn named_view(
    views: Seq<SavedViewFile>,
    name: Seq<char>,
    ignore_case: bool,
    from: int,
) -> Option<int>
    decreases views.len() - from,
{
    if from < 0 || from >= views.len() {
        None
    } else if patterns::same_name(views[from].canonical_name@, name, ignore_case) {
        Some(from)
    } else {
        named_view(views, name, ignore_case, from + 1)
    }
}

/// The place of the view that is chosen.
pub open spec fn view_selected(views: Seq<SavedViewFile>, choice: ViewChoice, ignore_case: bool) -> Option<
    int,
> {
    match choice {
        ViewChoice::Force { name } => named_view(views, saved_views::view_name(name@), ignore_case, 0),
        ViewChoice::Auto { input_path } => match source::file_name(input_path@) {
            None => None,
            Some(name) => chosen_view(views, views.len() as int, name, ignore_case),
        },
    }
}

/// What is said of the view that is chosen.
pub open spec fn selection_warnings(
    views: Seq<SavedViewFile>,
    at: int,
    choice: ViewChoice,
    ignore_case: bool,
) -> Seq<WarningModel> {
    match choice {
        ViewChoice::Force { .. } => saved_colors::silent(),
        ViewChoice::Auto { input_path } => {
            let name = source::file_name(input_path@)->0;
            if is_tied(views, at, name, ignore_case) {
                saved_colors::warned(
                    name,
                    "multiple saved views matched '"@ + name + "'; using "@ + views[at].path@,
                )
            } else {
                saved_colors::silent()
            }
        },
    }
}

proof fn lemma_chosen(views: Seq<SavedViewFile>, n: int, name: Seq<char>, ignore_case: bool)
    requires
        0 <= n <= views.len(),
    ensures
        chosen_view(views, n, name, ignore_case) matches Some(k) ==> 0 <= k < n && file_rank(
            views[k],
            name,
            ignore_case,
        ) is Some,
    decreases n,
{
    if n > 0 {
        lemma_chosen(views, n - 1, name, ignore_case);
    }
}

fn find_named(views: &Vec<SavedViewFile>, name: &str, ignore_case: bool) -> (r: Option<usize>)
    ensures
        match (r, named_view(views@, name@, ignore_case, 0)) {
            (Some(i), Some(m)) => i == m && i < views@.len(),
            (None, None) => true,
            _ => false,
        },
{
    let mut i: usize = 0;
    while i < views.len()
        invariant
            i <= views@.len(),
            named_view(views@, name@, ignore_case, 0) == named_view(
                views@,
                name@,
                ignore_case,
                i as int,
            ),
        decreases views@.len() - i,
    {
        if platform_eq(&views[i].canonical_name, name, ignore_case) {
            return Some(i);
        }
        i = i + 1;
    }
    None
}

fn find_chosen(views: &Vec<SavedViewFile>, name: &str, ignore_case: bool) -> (r: Option<
    (usize, MatchRank),
>)
    ensures
        match (r, chosen_view(views@, views@.len() as int, name@, ignore_case)) {
            (Some((i, rank)), Some(m)) => {
                &&& i == m
                &&& i < views@.len()
                &&& file_rank(views@[i as int], name@, ignore_case) == Some(rank)
            },
            (None, None) => true,
            _ => false,
        },
{
    let mut best: Option<(usize, MatchRank)> = None;
    let mut i: usize = 0;
    while i < views.len()
        invariant
            i <= views@.len(),
            match (best, chosen_view(views@, i as int, name@, ignore_case)) {
                (Some((k, rank)), Some(m)) => {
                    &&& k == m
                    &&& k < i
                    &&& file_rank(views@[k as int], name@, ignore_case) == Some(rank)
                },
                (None, None) => true,
                _ => false,
            },
        decreases views@.len() - i,
    {
        if let Some(rank) = best_match_rank(&views[i].view.filenames, name, ignore_case) {
            best = match best {
                None => Some((i, rank)),
                Some((k, known)) => if rank.closer(known) || (rank == known && precedes_path(
                    &views[i].path,
                    &views[k].path,
                )) {
                    Some((i, rank))
                } else {
                    Some((k, known))
                },
            };
        }
        i = i + 1;
    }
    best
}

fn find_tie(
    views: &Vec<SavedViewFile>,
    at: usize,
    rank: MatchRank,
    name: &str,
    ignore_case: bool,
) -> (r: bool)
    requires
        at < views@.len(),
        file_rank(views@[at as int], name@, ignore_case) == Some(rank),
    ensures
        r == is_tied(views@, at as int, name@, ignore_case),
{
    let mut i: usize = 0;
    while i < views.len()
        invariant
            i <= views@.len(),
            at < views@.len(),
            file_rank(views@[at as int], name@, ignore_case) == Some(rank),
            forall|k: int|
                0 <= k < i && k != at ==> file_rank(#[trigger] views@[k], name@, ignore_case)
                    != Some(rank),
        decreases views@.len() - i,
    {
        if i != at {
            if let Some(other) = best_match_rank(&views[i].view.filenames, name, ignore_case) {
                if other == rank {
                    assert(file_rank(views@[i as int], name@, ignore_case) == Some(rank));
                    return true;
                }
            }
        }
        i = i + 1;
    }
    false
}

/// Chooses a view: the first of a name, or the one that names the input most
/// closely.
pub fn select_saved_view<'a>(
    views: &'a Vec<SavedViewFile>,
    choice: &ViewChoice,
    ignore_case: bool,
) -> (r: Option<SelectedSavedView<'a>>)
    ensures
        match (r, view_selected(views@, *choice, ignore_case)) {
            (Some(selected), Some(at)) => {
                &&& *selected.view == views@[at]
                &&& saved_colors::warning_views(selected.warnings@) == selection_warnings(
                    views@,
                    at,
                    *choice,
                    ignore_case,
                )
            },
            (None, None) => true,
            _ => false,
        },
{
    let mut warnings: Vec<SavedViewWarning> = Vec::new();
    assert(saved_colors::warning_views(warnings@) =~= saved_colors::silent());
    match choice {
        ViewChoice::Force { name } => {
            match find_named(views, &normalize_view_name(name), ignore_case) {
                Some(i) => Some(SelectedSavedView { view: &views[i], warnings }),
                None => None,
            }
        },
        ViewChoice::Auto { input_path } => {
            let name = match file_name_of(input_path) {
                Some(name) => name,
                None => {
                    return None;
                },
            };
            match find_chosen(views, &name, ignore_case) {
                None => None,
                Some((i, rank)) => {
                    if find_tie(views, i, rank, &name, ignore_case) {
                        let message = concat2(
                            &concat3("multiple saved views matched '", &name, "'; using "),
                            &views[i].path,
                        );
                        let ghost before = saved_colors::warning_views(warnings@);
                        warn(&mut warnings, &name, &message);
                        assert(before + saved_colors::warned(name@, message@) =~= saved_colors::warned(name@, message@));
                    }
                    Some(SelectedSavedView { view: &views[i], warnings })
                },
            }
        },
    }
}

// ---------------------------------------------------------------------------
// Laws
// ---------------------------------------------------------------------------

/// No view that fits a file less closely is chosen for it.
pub proof fn closest_view_is_chosen(
    views: Seq<SavedViewFile>,
    n: int,
    name: Seq<char>,
    ignore_case: bool,
    k: int,
)
    requires
        0 <= k < n <= views.len(),
        file_rank(views[k], name, ignore_case) is Some,
    ensures
        ({
            let chosen = chosen_view(views, n, name, ignore_case);
            &&& chosen is Some
            &&& file_rank(views[chosen->0], name, ignore_case) is Some
            &&& file_rank(views[chosen->0], name, ignore_case)->0.order() <= file_rank(
                views[k],
                name,
                ignore_case,
            )->0.order()
        }),
    decreases n,
{
    lemma_chosen(views, n - 1, name, ignore_case);
    if k < n - 1 {
        closest_view_is_chosen(views, n - 1, name, ignore_case, k);
    }
}

proof fn lemma_inserted(sorted: Seq<Seq<char>>, path: Seq<char>)
    ensures
        inserted(sorted, path).to_multiset() == sorted.to_multiset().insert(path),
        inserted(sorted, path).len() == sorted.len() + 1,
    decreases sorted.len(),
{
    broadcast use vstd::seq_lib::group_to_multiset_ensures;

    if sorted.len() == 0 {
        assert(seq![path] =~= sorted.push(path));
    } else if file_before(path, sorted.last()) {
        lemma_inserted(sorted.drop_last(), path);
        assert(sorted =~= sorted.drop_last().push(sorted.last()));
        assert(sorted.to_multiset().insert(path) =~= sorted.drop_last().to_multiset().insert(
            path,
        ).insert(sorted.last()));
    }
}

/// Every view file is read or skipped once, and nothing else is.
pub proof fn listing_keeps_view_files(paths: Seq<Seq<char>>, n: int, path: Seq<char>)
    requires
        0 <= n <= paths.len(),
        view_extension_of(path) is Some,
    ensures
        view_files(paths, n).to_multiset().count(path) == paths.take(n).to_multiset().count(path),
    decreases n,
{
    broadcast use vstd::seq_lib::group_to_multiset_ensures;

    if n > 0 {
        listing_keeps_view_files(paths, n - 1, path);
        assert(paths.take(n) =~= paths.take(n - 1).push(paths[n - 1]));
        lemma_inserted(view_files(paths, n - 1), paths[n - 1]);
    } else {
        assert(paths.take(0) =~= Seq::<Seq<char>>::empty());
    }
}

proof fn lemma_parts_asymmetric(a: Seq<PartModel>, b: Seq<PartModel>, i: int)
    requires
        parts_before(a, b, i),
    ensures
        !parts_before(b, a, i),
    decreases b.len() - i,
{
    if 0 <= i < b.len() && i < a.len() {
        if a[i] == b[i] {
            lemma_parts_asymmetric(a, b, i + 1);
        } else if let (PartModel::Name(x), PartModel::Name(y)) = (a[i], b[i]) {
            text::text_order(x, y, y);
        }
    }
}

proof fn lemma_part_transitive(a: PartModel, b: PartModel, c: PartModel)
    requires
        part_before(a, b),
        part_before(b, c),
    ensures
        part_before(a, c),
        a != c,
{
    if let (PartModel::Name(x), PartModel::Name(y), PartModel::Name(z)) = (a, b, c) {
        text::text_order(x, y, z);
    }
}

proof fn lemma_parts_transitive(
    a: Seq<PartModel>,
    b: Seq<PartModel>,
    c: Seq<PartModel>,
    i: int,
)
    requires
        parts_before(a, b, i),
        parts_before(b, c, i),
    ensures
        parts_before(a, c, i),
    decreases b.len() - i,
{
    if 0 <= i < b.len() && i < a.len() && i < c.len() {
        if a[i] == b[i] && b[i] == c[i] {
            lemma_parts_transitive(a, b, c, i + 1);
        } else if a[i] != b[i] && b[i] != c[i] {
            lemma_part_transitive(a[i], b[i], c[i]);
        }
    }
}

proof fn lemma_parts_total(a: Seq<PartModel>, b: Seq<PartModel>, i: int)
    requires
        0 <= i <= a.len(),
        i <= b.len(),
        !parts_before(a, b, i),
        !parts_before(b, a, i),
    ensures
        a.skip(i) == b.skip(i),
    decreases b.len() - i,
{
    if i < b.len() && i < a.len() {
        if a[i] == b[i] {
            lemma_parts_total(a, b, i + 1);
        } else if let (PartModel::Name(x), PartModel::Name(y)) = (a[i], b[i]) {
            text::text_order(x, y, y);
        }
        assert(a.skip(i) =~= seq![a[i]] + a.skip(i + 1));
        assert(b.skip(i) =~= seq![b[i]] + b.skip(i + 1));
    } else {
        assert(a.skip(i) =~= b.skip(i));
    }
}

/// The order of paths is a strict order in which only paths of the same parts
/// stand side by side.
pub proof fn path_order(a: Seq<char>, b: Seq<char>, c: Seq<char>)
    ensures
        path_before(a, b) ==> !path_before(b, a),
        path_before(a, b) && path_before(b, c) ==> path_before(a, c),
        !path_before(a, b) && !path_before(b, a) ==> path_parts(a) == path_parts(b),
{
    let x = path_parts(a);
    let y = path_parts(b);
    if path_before(a, b) {
        lemma_parts_asymmetric(x, y, 0);
        if path_before(b, c) {
            lemma_parts_transitive(x, y, path_parts(c), 0);
        }
    } else if !path_before(b, a) {
        lemma_parts_total(x, y, 0);
        assert(x.skip(0) =~= x);
        assert(y.skip(0) =~= y);
    }
}

/// The order in which view files are read is a strict order, and what comes after
/// a file comes after everything that the file does not come before.
pub proof fn file_order(a: Seq<char>, b: Seq<char>, c: Seq<char>)
    ensures
        file_before(a, b) ==> !file_before(b, a),
        !file_before(a, b) && !file_before(b, c) ==> !file_before(a, c),
{
    text::text_order(stem_of(a), stem_of(b), stem_of(c));
    text::text_order(stem_of(b), stem_of(a), stem_of(c));
    text::text_order(stem_of(c), stem_of(b), stem_of(a));
    text::text_order(stem_of(b), stem_of(c), stem_of(a));
    text::text_order(stem_of(a), stem_of(c), stem_of(b));
    path_order(a, b, c);
    path_order(b, a, c);
    path_order(c, b, a);
    path_order(b, c, a);
    path_order(a, c, b);
}

/// Whether files stand in the order in which they are read.
pub open spec fn in_order(files: Seq<Seq<char>>) -> bool {
    forall|i: int, j: int|
        0 <= i < j < files.len() ==> !file_before(#[trigger] files[j], #[trigger] files[i])
}

proof fn lemma_inserted_in_order(sorted: Seq<Seq<char>>, path: Seq<char>)
    requires
        in_order(sorted),
    ensures
        in_order(inserted(sorted, path)),
        forall|i: int|
            0 <= i < inserted(sorted, path).len() ==> #[trigger] inserted(sorted, path)[i] == path
                || sorted.contains(inserted(sorted, path)[i]),
    decreases sorted.len(),
{
    let all = inserted(sorted, path);
    if sorted.len() == 0 {
    } else {
        let front = sorted.drop_last();
        let last = sorted.last();
        if file_before(path, last) {
            assert forall|i: int, j: int| 0 <= i < j < front.len() implies !file_before(
                #[trigger] front[j],
                #[trigger] front[i],
            ) by {
                assert(!file_before(sorted[j], sorted[i]));
            }
            lemma_inserted_in_order(front, path);
            let inner = inserted(front, path);
            file_order(path, last, last);
            assert forall|i: int| 0 <= i < inner.len() implies !file_before(last, #[trigger] inner[i])
                && (inner[i] == path || sorted.contains(inner[i])) by {
                if inner[i] != path {
                    let k = choose|k: int| 0 <= k < front.len() && front[k] == inner[i];
                    assert(sorted[k] == inner[i]);
                    assert(!file_before(sorted[sorted.len() - 1], sorted[k]));
                }
            }
            assert(sorted[sorted.len() - 1] == last);
            assert forall|i: int, j: int| 0 <= i < j < all.len() implies !file_before(
                #[trigger] all[j],
                #[trigger] all[i],
            ) by {
                if j < inner.len() {
                    assert(!file_before(inner[j], inner[i]));
                }
            }
        } else {
            assert forall|i: int, j: int| 0 <= i < j < all.len() implies !file_before(
                #[trigger] all[j],
                #[trigger] all[i],
            ) by {
                if j < sorted.len() {
                    assert(!file_before(sorted[j], sorted[i]));
                } else if i < sorted.len() - 1 {
                    assert(!file_before(sorted[sorted.len() - 1], sorted[i]));
                    file_order(path, last, sorted[i]);
                }
            }
            assert forall|i: int| 0 <= i < all.len() implies #[trigger] all[i] == path
                || sorted.contains(all[i]) by {
                if i < sorted.len() {
                    assert(sorted[i] == all[i]);
                }
            }
        }
    }
}

/// The view files are listed in the order in which they are read.
pub proof fn listing_is_in_order(paths: Seq<Seq<char>>, n: int)
    requires
        0 <= n <= paths.len(),
    ensures
        in_order(view_files(paths, n)),
    decreases n,
{
    if n > 0 {
        listing_is_in_order(paths, n - 1);
        lemma_inserted_in_order(view_files(paths, n - 1), paths[n - 1]);
    }
}

/// Where no two view files share both their name and their extension, as in one
/// directory, the files that are read have strictly ascending names, so that no
/// name is read twice.
pub proof fn discovery_ascends(files: Seq<Seq<char>>, i: int, j: int)
    requires
        in_order(files),
        forall|k: int| 0 <= k < files.len() ==> view_extension_of(#[trigger] files[k]) is Some,
        forall|k: int, m: int|
            0 <= k < m < files.len() ==> stem_of(#[trigger] files[k]) != stem_of(
                #[trigger] files[m],
            ) || view_extension_of(files[k]) != view_extension_of(files[m]),
        0 <= i < j < files.len(),
        !(repeats_name(files, j) && view_extension_of(files[j]) == Some(ViewExtension::Yaml)),
    ensures
        text::text_before(stem_of(files[i]), stem_of(files[j])),
{
    assert(!file_before(files[j], files[i]));
    text::text_order(stem_of(files[i]), stem_of(files[j]), stem_of(files[j]));
}

/// A file is a view exactly by its extension, and of two views of one name the shorter
/// extension comes first, whatever their directories.
pub proof fn short_extensions_come_first(dir: Seq<char>, other: Seq<char>, stem: Seq<char>)
    requires
        stem.len() > 0,
        text::lacks(stem, '/'),
    ensures
        ({
            let short = dir.push('/') + (stem.push('.') + seq!['y', 'm', 'l']);
            let long = other.push('/') + (stem.push('.') + seq!['y', 'a', 'm', 'l']);
            &&& view_extension_of(short) == Some(ViewExtension::Yml)
            &&& view_extension_of(long) == Some(ViewExtension::Yaml)
            &&& stem_of(short) == stem
            &&& stem_of(long) == stem
            &&& file_before(short, long)
            &&& !file_before(long, short)
        }),
{
    reveal_strlit("yml");
    reveal_strlit("yaml");
    let yml = seq!['y', 'm', 'l'];
    let yaml = seq!['y', 'a', 'm', 'l'];
    assert("yml"@ =~= yml);
    assert("yaml"@ =~= yaml);
    assert(yml.len() != yaml.len());
    lemma_named_below(dir, stem, yml);
    lemma_named_below(other, stem, yaml);
}

proof fn lemma_named_below(dir: Seq<char>, stem: Seq<char>, e: Seq<char>)
    requires
        stem.len() > 0,
        text::lacks(stem, '/'),
        text::lacks(e, '/'),
        text::lacks(e, '.'),
        e.len() > 1,
    ensures
        source::extension(dir.push('/') + (stem.push('.') + e)) == Some(e),
        source::file_stem(dir.push('/') + (stem.push('.') + e)) == Some(stem),
{
    reveal_strlit(".");
    reveal_strlit("..");
    let name = stem.push('.') + e;
    assert forall|i: int| 0 <= i < name.len() implies #[trigger] name[i] != '/' by {
        if i < stem.len() {
            assert(stem[i] != '/');
        } else if i > stem.len() {
            assert(e[i - stem.len() - 1] != '/');
        }
    }
    assert(name.len() > "."@.len() && name.len() > ".."@.len());
    source::paths_have_the_extension_of_their_name(dir, stem, e);
}

/// A file with any other extension is no view.
pub proof fn other_extensions_are_no_views(path: Seq<char>)
    ensures
        view_extension_of(path) is Some <==> (source::extension(path) == Some("yml"@)
            || source::extension(path) == Some("yaml"@)),
        view_extension_of(path) == Some(ViewExtension::Yml) <==> source::extension(path) == Some(
            "yml"@,
        ),
        source::extension(path) is None ==> view_extension_of(path) is None,
{
    reveal_strlit("yml");
    reveal_strlit("yaml");
    assert("yml"@.len() == 3);
    assert("yaml"@.len() == 4);
}

/// Views of different names go by their names, in the order of their characters.
pub proof fn views_go_by_their_names(a: Seq<char>, b: Seq<char>)
    ensures
        stem_of(a) != stem_of(b) ==> (file_before(a, b) <==> text::text_before(
            stem_of(a),
            stem_of(b),
        )),
{
}

/// The view that is asked for by name is the first of that name, and there is none only
/// where no view has it.
pub proof fn first_view_of_a_name_is_taken(
    views: Seq<SavedViewFile>,
    name: Seq<char>,
    ignore_case: bool,
    from: int,
)
    requires
        0 <= from <= views.len(),
    ensures
        named_view(views, name, ignore_case, from) is None <==> forall|i: int|
            from <= i < views.len() ==> !patterns::same_name(
                (#[trigger] views[i]).canonical_name@,
                name,
                ignore_case,
            ),
        named_view(views, name, ignore_case, from) matches Some(at) ==> {
            &&& from <= at < views.len()
            &&& patterns::same_name(views[at].canonical_name@, name, ignore_case)
            &&& forall|i: int|
                from <= i < at ==> !patterns::same_name(
                    (#[trigger] views[i]).canonical_name@,
                    name,
                    ignore_case,
                )
        },
    decreases views.len() - from,
{
    if from < views.len() && !patterns::same_name(views[from].canonical_name@, name, ignore_case) {
        first_view_of_a_name_is_taken(views, name, ignore_case, from + 1);
    }
}

/// A view that is asked for by name is never doubted; one that is found by the file is
/// doubted where another view fits as closely, and the warning names the file.
pub proof fn doubts_are_told(
    views: Seq<SavedViewFile>,
    at: int,
    name: &str,
    path: &str,
    ignore_case: bool,
)
    ensures
        selection_warnings(views, at, ViewChoice::Force { name }, ignore_case).len() == 0,
        ({
            let warnings = selection_warnings(
                views,
                at,
                ViewChoice::Auto { input_path: path },
                ignore_case,
            );
            let file = source::file_name(path@)->0;
            &&& warnings.len() <= 1
            &&& warnings.len() == 1 <==> exists|k: int|
                0 <= k < views.len() && k != at && file_rank(
                    #[trigger] views[k],
                    file,
                    ignore_case,
                ) == file_rank(views[at], file, ignore_case)
            &&& warnings.len() == 1 ==> warnings[0].field == file
        }),
        view_selected(views, ViewChoice::Force { name }, ignore_case) == named_view(
            views,
            saved_views::view_name(name@),
            ignore_case,
            0,
        ),
{
}

/// Of the views that fit a file as closely as any, the one with the first path is
/// taken, and there is none only where no view fits.
pub proof fn first_of_the_closest_is_chosen(
    views: Seq<SavedViewFile>,
    n: int,
    name: Seq<char>,
    ignore_case: bool,
    k: int,
)
    requires
        0 <= k < n <= views.len(),
        file_rank(views[k], name, ignore_case) is Some,
        chosen_view(views, n, name, ignore_case) is Some,
        file_rank(views[chosen_view(views, n, name, ignore_case)->0], name, ignore_case)
            == file_rank(views[k], name, ignore_case),
    ensures
        !path_before(views[k].path@, views[chosen_view(views, n, name, ignore_case)->0].path@),
    decreases n,
{
    lemma_chosen(views, n - 1, name, ignore_case);
    let before = chosen_view(views, n - 1, name, ignore_case);
    let now = chosen_view(views, n, name, ignore_case)->0;
    let p = views[k].path@;
    if k < n - 1 {
        closest_view_is_chosen(views, n - 1, name, ignore_case, k);
        let b = before->0;
        let q = views[b].path@;
        let r = views[n - 1].path@;
        if now == b {
            first_of_the_closest_is_chosen(views, n - 1, name, ignore_case, k);
        } else {
            assert(now == n - 1);
            if file_rank(views[b], name, ignore_case) == file_rank(views[k], name, ignore_case) {
                first_of_the_closest_is_chosen(views, n - 1, name, ignore_case, k);
                path_order(p, r, q);
                path_order(r, p, q);
            }
        }
    } else {
        path_order(p, p, p);
    }
}

/// No view is chosen that does not fit the file.
pub proof fn chosen_views_fit(views: Seq<SavedViewFile>, n: int, name: Seq<char>, ignore_case: bool)
    requires
        0 <= n <= views.len(),
    ensures
        chosen_view(views, n, name, ignore_case) matches Some(at) ==> 0 <= at < n && file_rank(
            views[at],
            name,
            ignore_case,
        ) is Some,
        chosen_view(views, n, name, ignore_case) is None ==> forall|k: int|
            0 <= k < n ==> file_rank(#[trigger] views[k], name, ignore_case) is None,
    decreases n,
{
    if n > 0 {
        chosen_views_fit(views, n - 1, name, ignore_case);
    }
}

/// A path goes part by part: one that begins with another comes behind it, and at the
/// first different names the order of the names decides.
pub proof fn paths_go_part_by_part(
    common: Seq<PartModel>,
    a: Seq<char>,
    rest: Seq<PartModel>,
    b: Seq<char>,
    other: Seq<PartModel>,
)
    ensures
        parts_before(common, common.push(PartModel::Name(a)) + rest, 0),
        !parts_before(common, common, 0),
        a != b ==> parts_before(
            common.push(PartModel::Name(a)) + rest,
            common.push(PartModel::Name(b)) + other,
            0,
        ) == text::text_before(a, b),
        parts_before(
            common.push(PartModel::Root) + rest,
            common.push(PartModel::Name(b)) + other,
            0,
        ),
        parts_before(
            common.push(PartModel::Parent) + rest,
            common.push(PartModel::Name(b)) + other,
            0,
        ),
        parts_before(
            common.push(PartModel::Current) + rest,
            common.push(PartModel::Parent) + other,
            0,
        ),
        parts_before(
            common.push(PartModel::Root) + rest,
            common.push(PartModel::Current) + other,
            0,
        ),
{
    let x = common.push(PartModel::Name(a)) + rest;
    let y = common.push(PartModel::Name(b)) + other;
    lemma_same_parts(common, x, common, 0);
    lemma_same_parts(common, common, common, 0);
    lemma_same_parts(x, y, common, 0);
    lemma_same_parts(common.push(PartModel::Root) + rest, y, common, 0);
    lemma_same_parts(common.push(PartModel::Parent) + rest, y, common, 0);
    lemma_same_parts(
        common.push(PartModel::Current) + rest,
        common.push(PartModel::Parent) + other,
        common,
        0,
    );
    lemma_same_parts(
        common.push(PartModel::Root) + rest,
        common.push(PartModel::Current) + other,
        common,
        0,
    );
}

proof fn lemma_same_parts(a: Seq<PartModel>, b: Seq<PartModel>, common: Seq<PartModel>, i: int)
    requires
        0 <= i <= common.len(),
        common.len() <= a.len(),
        common.len() <= b.len(),
        forall|k: int| 0 <= k < common.len() ==> a[k] == #[trigger] common[k] && b[k] == common[k],
    ensures
        parts_before(a, b, i) == parts_before(a, b, common.len() as int),
    decreases common.len() - i,
{
    if i < common.len() {
        assert(a[i] == common[i] && b[i] == common[i]);
        lemma_same_parts(a, b, common, i + 1);
    }
}

/// The parts of a path are its names in their order, with the root in front where it
/// begins with a slash; empty parts and dots further on say nothing.
pub proof fn path_parts_are_the_names(dir: Seq<char>, name: Seq<char>)
    requires
        text::lacks(name, '/'),
        dir.len() > 0,
    ensures
        source::is_plain_name(name) ==> path_parts(dir.push('/') + name) == path_parts(dir).push(
            PartModel::Name(name),
        ),
        name == seq!['.'] ==> path_parts(dir.push('/') + name) == path_parts(dir),
        name == seq!['.', '.'] ==> path_parts(dir.push('/') + name) == path_parts(dir).push(
            PartModel::Parent,
        ),
        path_parts(Seq::empty()).len() == 0,
        source::is_plain_name(name) ==> path_parts(name) == seq![PartModel::Name(name)],
        source::is_plain_name(name) ==> path_parts(seq!['/'] + name) == seq![
            PartModel::Root,
            PartModel::Name(name),
        ],
{
    reveal_strlit(".");
    reveal_strlit("..");
    assert("."@ =~= seq!['.']);
    assert(".."@ =~= seq!['.', '.']);
    let none = Seq::<char>::empty();
    text::splits_stand_between_separators(dir, name, '/');
    text::splits_stand_between_separators(none, name, '/');
    text::splits_stand_between_separators(none, none, '/');
    text::lemma_split_nonempty(dir, '/');
    let pieces = text::split_on(dir, '/');
    let n = pieces.len() as int;
    assert(none.push('/') + name =~= seq!['/'] + name);
    lemma_slash_parts(dir);
    lemma_parts_grow(pieces, name, n);
    assert(parts_of(pieces.push(name), n + 1) == path_parts(dir.push('/') + name));
    assert(parts_of(seq![none], 1) =~= parts_of(seq![none], 0));
    assert(path_parts(none).len() == 0);
    if source::is_plain_name(name) {
        assert(parts_of(seq![name], 0) =~= Seq::<PartModel>::empty());
        assert(parts_of(seq![name], 1) =~= seq![PartModel::Name(name)]);
        let two = seq![none].push(name);
        assert(parts_of(two, 0) =~= Seq::<PartModel>::empty());
        assert(parts_of(two, 1) =~= seq![PartModel::Root]);
        assert(parts_of(two, 2) =~= seq![PartModel::Root, PartModel::Name(name)]);
    }
}

proof fn lemma_slash_parts(dir: Seq<char>)
    requires
        dir.len() > 0,
    ensures
        text::split_on(dir, '/').len() > 1 || text::split_on(dir, '/')[0].len() > 0,
{
    text::lemma_split_nonempty(dir.drop_last(), '/');
}

proof fn lemma_parts_grow(pieces: Seq<Seq<char>>, name: Seq<char>, n: int)
    requires
        0 <= n <= pieces.len(),
        pieces.len() > 1 || (pieces.len() == 1 && pieces[0].len() > 0),
    ensures
        parts_of(pieces.push(name), n) == parts_of(pieces, n),
    decreases n,
{
    if n > 0 {
        lemma_parts_grow(pieces, name, n - 1);
        assert(pieces.push(name)[n - 1] == pieces[n - 1]);
    }
}

} // verus!
