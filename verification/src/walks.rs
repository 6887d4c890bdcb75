//! Walking over the rows of a table and showing them to a visitor.

use vstd::prelude::*;

use crate::table::{self, CellModel, Row, RowId, ScanDirection, ScanProgress, ScanRequest};

verus! {

// ---------------------------------------------------------------------------
// Visitors and sources
// ---------------------------------------------------------------------------

/// The model of a row.
pub struct RowModel {
    pub id: RowId,
    pub cells: Seq<CellModel>,
}

/// The model of a row.
pub open spec fn row_model(row: Row) -> RowModel {
    RowModel { id: row.id, cells: table::cell_views(row.cells@) }
}

/// A row that was visited at its place, and whether the visitor stopped there.
pub struct VisitModel {
    pub index: int,
    pub row: RowModel,
    pub stop: bool,
}

/// Somebody who looks at rows and may stop at one.
pub trait RowVisitor: Sized {
    /// The rows that were looked at.
    spec fn visits(&self) -> Seq<VisitModel>;

    /// Looks at the row at a place. Whether to stop there.
    fn visit(&mut self, index: usize, row: &Row) -> (stop: bool)
        ensures
            final(self).visits() == old(self).visits().push(
                VisitModel { index: index as int, row: row_model(*row), stop },
            ),
    ;
}

/// Rows that are fetched by their place out of an input, which may be read on for
/// that.
pub trait RowSource<I>: Sized {
    type State;

    type Fault;

    type FaultView;

    /// What decides about the rows.
    spec fn state(&self) -> Self::State;

    /// Whether rows can be fetched.
    spec fn ready(&self) -> bool;

    /// The model of a fault.
    spec fn fault_model(fault: Self::Fault) -> Self::FaultView;

    /// What fetching a row does, and what it gives.
    spec fn fetched(state: Self::State, input: I, index: usize) -> (
        Self::State,
        Result<Option<RowModel>, Self::FaultView>,
    );

    /// Whether a walk that stands at `at` has nothing more before it.
    spec fn ends_at(state: Self::State, at: usize) -> bool;

    /// Fetches the row at a place.
    fn fetch(&mut self, input: &I, index: usize) -> (r: Result<Option<Row>, Self::Fault>)
        requires
            old(self).ready(),
        ensures
            final(self).ready(),
            final(self).state() == Self::fetched(old(self).state(), *input, index).0,
            match (r, Self::fetched(old(self).state(), *input, index).1) {
                (Ok(Some(row)), Ok(Some(m))) => row_model(row) == m && index < usize::MAX,
                (Ok(None), Ok(None)) => true,
                (Err(e), Err(m)) => Self::fault_model(e) == m,
                _ => false,
            },
    ;

    /// Whether a walk that stands at `at` has nothing more before it.
    fn has_ended(&self, at: usize) -> (r: bool)
        requires
            self.ready(),
        ensures
            r == Self::ends_at(self.state(), at),
    ;
}

// ---------------------------------------------------------------------------
// Walks
// ---------------------------------------------------------------------------

/// The place at which a walk stands after `k` rows.
pub open spec fn walk_place(request: ScanRequest, k: int) -> int {
    match request.direction {
        ScanDirection::Forward => request.start + k,
        ScanDirection::Reverse => request.start - k,
    }
}

/// The state of a source after the first `k` rows of a walk were fetched.
pub open spec fn state_after<I, S: RowSource<I>>(
    state: S::State,
    input: I,
    request: ScanRequest,
    k: int,
) -> S::State
    decreases k,
{
    if k <= 0 {
        state
    } else {
        S::fetched(
            state_after::<I, S>(state, input, request, k - 1),
            input,
            walk_place(request, k - 1) as usize,
        ).0
    }
}

/// What comes of fetching the row after the first `k` rows of a walk.
pub open spec fn fetched_next<I, S: RowSource<I>>(
    state: S::State,
    input: I,
    request: ScanRequest,
    k: int,
) -> Result<Option<RowModel>, S::FaultView> {
    S::fetched(
        state_after::<I, S>(state, input, request, k),
        input,
        walk_place(request, k) as usize,
    ).1
}

/// Whether these are the first visits of a walk: at its places, of the rows that
/// are fetched there, and without a stop before the last.
pub open spec fn are_visits<I, S: RowSource<I>>(
    state: S::State,
    input: I,
    request: ScanRequest,
    visits: Seq<VisitModel>,
) -> bool {
    &&& visits.len() <= request.max_rows
    &&& request.direction is Reverse ==> visits.len() <= request.start + 1
    &&& forall|k: int|
        #![trigger visits[k]]
        0 <= k < visits.len() ==> {
            &&& visits[k].index == walk_place(request, k) <= usize::MAX
            &&& fetched_next::<I, S>(state, input, request, k) == Ok::<
                Option<RowModel>,
                S::FaultView,
            >(Some(visits[k].row))
            &&& visits[k].stop ==> k == visits.len() - 1
        }
}

/// Where a walk that nobody stopped and that is not at the first row can go on.
pub open spec fn standing<I, S: RowSource<I>>(
    state: S::State,
    request: ScanRequest,
    n: int,
) -> ScanProgress {
    let at = walk_place(request, n) as usize;
    let ended = S::ends_at(state, at);
    ScanProgress {
        visited: n as usize,
        next: if ended {
            None
        } else {
            Some(at)
        },
        reached_end: ended,
    }
}

/// What a walk comes to, with the state that it leaves and the visits that it
/// made. A walk ends where the visitor stops it, behind row zero when it goes
/// backwards, after as many rows as were asked for, where there is no row, or
/// where a row cannot be fetched.
pub open spec fn is_walk<I, S: RowSource<I>>(
    before: S::State,
    after: S::State,
    input: I,
    request: ScanRequest,
    visits: Seq<VisitModel>,
    outcome: Result<ScanProgress, S::FaultView>,
) -> bool {
    let n = visits.len() as int;
    let reached = state_after::<I, S>(before, input, request, n);
    &&& are_visits::<I, S>(before, input, request, visits)
    &&& if n > 0 && visits[n - 1].stop {
        &&& after == reached
        &&& outcome == Ok::<ScanProgress, S::FaultView>(
            ScanProgress { visited: n as usize, next: None, reached_end: false },
        )
    } else if request.direction is Reverse && n > request.start {
        &&& after == reached
        &&& outcome == Ok::<ScanProgress, S::FaultView>(
            ScanProgress { visited: n as usize, next: None, reached_end: true },
        )
    } else if n == request.max_rows {
        &&& after == reached
        &&& outcome == Ok::<ScanProgress, S::FaultView>(standing::<I, S>(after, request, n))
    } else {
        &&& after == state_after::<I, S>(before, input, request, n + 1)
        &&& match fetched_next::<I, S>(before, input, request, n) {
            Ok(None) => outcome == Ok::<ScanProgress, S::FaultView>(
                standing::<I, S>(after, request, n),
            ),
            Err(fault) => outcome == Err::<ScanProgress, S::FaultView>(fault),
            Ok(Some(_)) => false,
        }
    }
}

/// What a walk came to.
pub open spec fn walk_result<I, S: RowSource<I>>(r: Result<ScanProgress, S::Fault>) -> Result<
    ScanProgress,
    S::FaultView,
> {
    match r {
        Ok(progress) => Ok(progress),
        Err(fault) => Err(S::fault_model(fault)),
    }
}

/// Shows the rows of a walk to a visitor, one after the other.
pub fn scan_rows<I, S: RowSource<I>, V: RowVisitor>(
    source: &mut S,
    input: &I,
    request: ScanRequest,
    visitor: &mut V,
) -> (r: Result<ScanProgress, S::Fault>)
    requires
        old(source).ready(),
    ensures
        final(source).ready(),
        old(visitor).visits() =~= final(visitor).visits().take(
            old(visitor).visits().len() as int,
        ),
        old(visitor).visits().len() <= final(visitor).visits().len(),
        is_walk::<I, S>(
            old(source).state(),
            final(source).state(),
            *input,
            request,
            final(visitor).visits().skip(old(visitor).visits().len() as int),
            walk_result::<I, S>(r),
        ),
{
    let ghost begin = source.state();
    let ghost known = visitor.visits();
    let ghost mut made: Seq<VisitModel> = Seq::empty();
    let mut current: usize = request.start;
    let mut visited: usize = 0;
    assert(known + made =~= known);
    while visited < request.max_rows
        invariant
            begin == old(source).state(),
            known == old(visitor).visits(),
            source.ready(),
            visitor.visits() == known + made,
            made.len() == visited,
            visited <= request.max_rows,
            current == walk_place(request, visited as int),
            source.state() == state_after::<I, S>(begin, *input, request, visited as int),
            are_visits::<I, S>(begin, *input, request, made),
            forall|k: int| 0 <= k < made.len() ==> !(#[trigger] made[k]).stop,
        decreases request.max_rows - visited,
    {
        assert((known + made).take(known.len() as int) =~= known);
        assert((known + made).skip(known.len() as int) =~= made);
        assert(state_after::<I, S>(begin, *input, request, visited + 1) == S::fetched(
            source.state(),
            *input,
            current,
        ).0);
        let row = match source.fetch(input, current) {
            Err(fault) => {
                return Err(fault);
            },
            Ok(None) => {
                let ended = source.has_ended(current);
                return Ok(
                    ScanProgress {
                        visited,
                        next: if ended {
                            None
                        } else {
                            Some(current)
                        },
                        reached_end: ended,
                    },
                );
            },
            Ok(Some(row)) => row,
        };
        let stop = visitor.visit(current, &row);
        let ghost visit = VisitModel { index: current as int, row: row_model(row), stop };
        proof {
            let grown = made.push(visit);
            assert(known + grown =~= (known + made).push(visit));
            assert((known + grown).take(known.len() as int) =~= known);
            assert((known + grown).skip(known.len() as int) =~= grown);
            assert forall|k: int| #![trigger grown[k]] 0 <= k < grown.len() implies {
                &&& grown[k].index == walk_place(request, k) <= usize::MAX
                &&& fetched_next::<I, S>(begin, *input, request, k) == Ok::<
                    Option<RowModel>,
                    S::FaultView,
                >(Some(grown[k].row))
                &&& grown[k].stop ==> k == grown.len() - 1
            } by {
                if k < made.len() {
                    assert(grown[k] == made[k]);
                }
            }
            made = grown;
        }
        visited = visited + 1;
        if stop {
            return Ok(ScanProgress { visited, next: None, reached_end: false });
        }
        match request.direction {
            ScanDirection::Forward => {
                current = current + 1;
            },
            ScanDirection::Reverse => {
                if current == 0 {
                    return Ok(ScanProgress { visited, next: None, reached_end: true });
                }
                current = current - 1;
            },
        }
    }
    assert((known + made).take(known.len() as int) =~= known);
    assert((known + made).skip(known.len() as int) =~= made);
    let ended = source.has_ended(current);
    Ok(
        ScanProgress {
            visited,
            next: if ended {
                None
            } else {
                Some(current)
            },
            reached_end: ended,
        },
    )
}

// ---------------------------------------------------------------------------
// Laws
// ---------------------------------------------------------------------------

/// Whether a source has exactly the given rows, all of them at hand.
pub open spec fn has_rows<I, S: RowSource<I>>(
    state: S::State,
    input: I,
    rows: Seq<RowModel>,
) -> bool {
    &&& rows.len() <= usize::MAX
    &&& forall|index: usize|
        #![trigger S::fetched(state, input, index)]
        S::fetched(state, input, index) == (
            state,
            Ok::<Option<RowModel>, S::FaultView>(
                if index < rows.len() {
                    Some(rows[index as int])
                } else {
                    None
                },
            ),
        )
    &&& forall|at: usize| #![trigger S::ends_at(state, at)] S::ends_at(state, at) == (at >= rows.len())
}

proof fn lemma_rows_stay<I, S: RowSource<I>>(
    state: S::State,
    input: I,
    rows: Seq<RowModel>,
    request: ScanRequest,
    k: int,
)
    requires
        has_rows::<I, S>(state, input, rows),
    ensures
        state_after::<I, S>(state, input, request, k) == state,
    decreases k,
{
    if k > 0 {
        lemma_rows_stay::<I, S>(state, input, rows, request, k - 1);
    }
}

/// A walk over rows that are at hand shows them as they are, changes nothing, and
/// comes to what the number of rows and the visitor's stop say.
pub proof fn walks_show_the_rows_at_hand<I, S: RowSource<I>>(
    before: S::State,
    after: S::State,
    input: I,
    rows: Seq<RowModel>,
    request: ScanRequest,
    visits: Seq<VisitModel>,
    outcome: Result<ScanProgress, S::FaultView>,
)
    requires
        has_rows::<I, S>(before, input, rows),
        is_walk::<I, S>(before, after, input, request, visits, outcome),
    ensures
        after == before,
        forall|k: int|
            #![trigger visits[k]]
            0 <= k < visits.len() ==> {
                &&& 0 <= visits[k].index < rows.len()
                &&& visits[k].row == rows[visits[k].index]
            },
        outcome == Ok::<ScanProgress, S::FaultView>(
            table::scan_outcome(
                request,
                rows.len(),
                true,
                if visits.len() > 0 && visits.last().stop {
                    Some(visits.len())
                } else {
                    None
                },
            ),
        ),
{
    let n = visits.len() as int;
    assert forall|k: int| #![trigger visits[k]] 0 <= k < n implies {
        &&& 0 <= visits[k].index < rows.len()
        &&& visits[k].row == rows[visits[k].index]
    } by {
        lemma_rows_stay::<I, S>(before, input, rows, request, k);
        assert(fetched_next::<I, S>(before, input, request, k) == S::fetched(
            before,
            input,
            walk_place(request, k) as usize,
        ).1);
    }
    lemma_rows_stay::<I, S>(before, input, rows, request, n);
    lemma_rows_stay::<I, S>(before, input, rows, request, n + 1);
    if n > 0 {
        assert(visits[0].index == request.start);
        assert(visits[n - 1].index == walk_place(request, n - 1));
    }
    assert(fetched_next::<I, S>(before, input, request, n) == S::fetched(
        before,
        input,
        walk_place(request, n) as usize,
    ).1);
    assert(S::ends_at(before, walk_place(request, n) as usize) == (walk_place(request, n) as usize >= rows.len()));
}

/// A walk stands behind its start or before it, as many rows as it has seen.
pub proof fn walks_stand_in_their_direction(start: usize, max_rows: usize, k: int)
    ensures
        walk_place(
            ScanRequest { start, direction: ScanDirection::Forward, max_rows },
            k,
        ) == start + k,
        walk_place(
            ScanRequest { start, direction: ScanDirection::Reverse, max_rows },
            k,
        ) == start - k,
{
}

/// A walk that stops where it was asked to goes on from there, unless it has come to the
/// end of the rows.
pub proof fn walks_go_on_from_where_they_stand<I, S: RowSource<I>>(
    state: S::State,
    request: ScanRequest,
    n: int,
)
    requires
        0 <= n <= usize::MAX,
    ensures
        ({
            let at = walk_place(request, n) as usize;
            let progress = standing::<I, S>(state, request, n);
            &&& progress.visited == n
            &&& progress.reached_end <==> S::ends_at(state, at)
            &&& S::ends_at(state, at) ==> progress.next is None
            &&& !S::ends_at(state, at) ==> progress.next == Some(at)
        }),
{
}

} // verus!
