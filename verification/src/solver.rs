//! Systems of linear equations with exactly one solution.
//!
//! A system is given by its rows: the coefficients of the unknowns, then the right-hand side.
//! It is solved by elimination with partial pivoting. A number whose size does not exceed a
//! small tolerance counts as zero.

use vstd::prelude::*;

use crate::arithmetic::{from_integer, is_at_most, is_below, is_ranked_after, lawful, magnitude, minus, over, times, Arithmetic, Machine, Numerals};

verus! {

/// Why amounts cannot be computed.
#[derive(Debug, Clone, PartialEq)]
pub enum CalculationError<N> {
    /// No choice of amounts balances the elements.
    Inconsistent,
    /// More than one choice of amounts balances the elements.
    NotUnique,
    /// The amounts that balance the elements are not all positive.
    NegativeAmount { formula: String, moles: N },
}

/// What a [`CalculationError`] says.
pub enum CalculationFault<N> {
    Inconsistent,
    NotUnique,
    NegativeAmount { formula: Seq<char>, moles: N },
}

impl<N> View for CalculationError<N> {
    type V = CalculationFault<N>;

    open spec fn view(&self) -> CalculationFault<N> {
        match *self {
            CalculationError::Inconsistent => CalculationFault::Inconsistent,
            CalculationError::NotUnique => CalculationFault::NotUnique,
            CalculationError::NegativeAmount { formula, moles } => CalculationFault::NegativeAmount {
                formula: formula@,
                moles,
            },
        }
    }
}

/// The size up to which a number counts as zero.
pub open spec fn tolerance<M: Numerals>() -> M::Number {
    M::quotient(M::integer(1), M::integer(100_000_000))
}

/// Among the rows from `from` up to `to`, the last of those whose entry in a column has the
/// largest size.
pub open spec fn largest<M: Numerals>(
    rows: Seq<Seq<M::Number>>,
    column: int,
    from: int,
    to: int,
) -> int
    recommends
        from < to,
    decreases to - from,
{
    if to <= from + 1 {
        from
    } else {
        let best = largest::<M>(rows, column, from, to - 1);
        if M::ranks_after(M::size(rows[best][column]), M::size(rows[to - 1][column])) {
            best
        } else {
            to - 1
        }
    }
}

/// The row, from `from` on, by which a column is cleared; there is none where all its entries
/// there count as zero.
pub open spec fn pivot<M: Numerals>(
    rows: Seq<Seq<M::Number>>,
    column: int,
    from: int,
    eps: M::Number,
) -> Option<int> {
    let best = largest::<M>(rows, column, from, rows.len() as int);
    if from < rows.len() && M::below(eps, M::size(rows[best][column])) {
        Some(best)
    } else {
        None
    }
}

/// A row divided by its entry in a column. Entries before that column stay.
pub open spec fn scaled<M: Numerals>(row: Seq<M::Number>, column: int, unknowns: int) -> Seq<
    M::Number,
> {
    Seq::new(
        row.len(),
        |j: int|
            if column <= j <= unknowns {
                M::quotient(row[j], row[column])
            } else {
                row[j]
            },
    )
}

/// A row less the multiple of a scaled row that clears its entry in a column. Entries before
/// that column stay.
pub open spec fn reduced<M: Numerals>(
    row: Seq<M::Number>,
    pivot_row: Seq<M::Number>,
    column: int,
    unknowns: int,
) -> Seq<M::Number> {
    Seq::new(
        row.len(),
        |j: int|
            if column <= j <= unknowns {
                M::difference(row[j], M::product(row[column], pivot_row[j]))
            } else {
                row[j]
            },
    )
}

/// The rows with two of them exchanged.
pub open spec fn exchanged<N>(rows: Seq<Seq<N>>, i: int, j: int) -> Seq<Seq<N>> {
    Seq::new(
        rows.len(),
        |k: int|
            if k == i {
                rows[j]
            } else if k == j {
                rows[i]
            } else {
                rows[k]
            },
    )
}

/// The rows with one of them scaled.
pub open spec fn with_scaled<M: Numerals>(
    rows: Seq<Seq<M::Number>>,
    place: int,
    column: int,
    unknowns: int,
) -> Seq<Seq<M::Number>> {
    rows.update(place, scaled::<M>(rows[place], column, unknowns))
}

/// The rows after the row at `place` has cleared a column. Rows whose entry there counts as zero
/// stay.
pub open spec fn cleared<M: Numerals>(
    rows: Seq<Seq<M::Number>>,
    place: int,
    column: int,
    unknowns: int,
    eps: M::Number,
) -> Seq<Seq<M::Number>> {
    Seq::new(
        rows.len(),
        |i: int|
            if i == place || M::at_most(M::size(rows[i][column]), eps) {
                rows[i]
            } else {
                reduced::<M>(rows[i], rows[place], column, unknowns)
            },
    )
}

/// The rows after row `chosen` has moved to `place`, has been scaled, and has cleared a column.
pub open spec fn pivoted<M: Numerals>(
    rows: Seq<Seq<M::Number>>,
    place: int,
    chosen: int,
    column: int,
    unknowns: int,
    eps: M::Number,
) -> Seq<Seq<M::Number>> {
    cleared::<M>(
        with_scaled::<M>(exchanged(rows, place, chosen), place, column, unknowns),
        place,
        column,
        unknowns,
        eps,
    )
}

/// The rows, and the columns that have been cleared, after the columns from `column` on have been
/// dealt with.
pub open spec fn eliminated<M: Numerals>(
    rows: Seq<Seq<M::Number>>,
    columns: Seq<int>,
    column: int,
    unknowns: int,
    eps: M::Number,
) -> (Seq<Seq<M::Number>>, Seq<int>)
    decreases unknowns - column,
{
    if column >= unknowns {
        (rows, columns)
    } else {
        let place = columns.len() as int;
        match pivot::<M>(rows, column, place, eps) {
            Some(chosen) => eliminated::<M>(
                pivoted::<M>(rows, place, chosen, column, unknowns, eps),
                columns.push(column),
                column + 1,
                unknowns,
                eps,
            ),
            None => eliminated::<M>(rows, columns, column + 1, unknowns, eps),
        }
    }
}

/// Whether a row asks that zero be something else.
pub open spec fn contradicts<M: Numerals>(
    row: Seq<M::Number>,
    unknowns: int,
    eps: M::Number,
) -> bool {
    &&& forall|j: int| 0 <= j < unknowns ==> M::at_most(M::size(#[trigger] row[j]), eps)
    &&& M::below(eps, M::size(row[unknowns]))
}

/// The outcome for rows in which columns have been cleared.
pub open spec fn outcome<M: Numerals>(
    rows: Seq<Seq<M::Number>>,
    columns: Seq<int>,
    unknowns: int,
    eps: M::Number,
) -> Result<Seq<M::Number>, CalculationFault<M::Number>> {
    if exists|i: int| 0 <= i < rows.len() && contradicts::<M>(#[trigger] rows[i], unknowns, eps) {
        Err(CalculationFault::Inconsistent)
    } else if columns.len() < unknowns {
        Err(CalculationFault::NotUnique)
    } else {
        Ok(Seq::new(unknowns as nat, |j: int| rows[j][unknowns]))
    }
}

/// The solution of a system, or why there is not exactly one.
pub open spec fn solution<M: Numerals>(
    rows: Seq<Seq<M::Number>>,
    unknowns: int,
    eps: M::Number,
) -> Result<Seq<M::Number>, CalculationFault<M::Number>> {
    let (end, columns) = eliminated::<M>(rows, Seq::empty(), 0, unknowns, eps);
    outcome::<M>(end, columns, unknowns, eps)
}

/// The numbers that a vector of vectors holds.
pub open spec fn grid<N>(rows: Seq<Vec<N>>) -> Seq<Seq<N>> {
    rows.map_values(|row: Vec<N>| row@)
}

/// What the result of solving a system says.
pub open spec fn values_of<N>(result: Result<Vec<N>, CalculationError<N>>) -> Result<
    Seq<N>,
    CalculationFault<N>,
> {
    match result {
        Ok(values) => Ok(values@),
        Err(error) => Err(error@),
    }
}

/// Whether each row has a coefficient for each unknown and a right-hand side.
pub open spec fn wide_enough<N>(rows: Seq<Seq<N>>, unknowns: int) -> bool {
    forall|i: int| 0 <= i < rows.len() ==> #[trigger] rows[i].len() > unknowns
}

pub fn tolerance_number<A: Arithmetic>() -> (eps: A::Number)
    requires
        lawful::<A>(),
    ensures
        eps == tolerance::<Machine<A>>(),
{
    over::<A>(from_integer::<A>(1), from_integer::<A>(100_000_000))
}

fn find_pivot<A: Arithmetic>(
    rows: &Vec<Vec<A::Number>>,
    column: usize,
    from: usize,
    eps: A::Number,
) -> (chosen: Option<usize>)
    requires
        lawful::<A>(),
        from <= rows@.len(),
        forall|i: int| 0 <= i < rows@.len() ==> column < #[trigger] grid(rows@)[i].len(),
    ensures
        match chosen {
            Some(i) => from <= i < rows@.len() && pivot::<Machine<A>>(
                grid(rows@),
                column as int,
                from as int,
                eps,
            ) == Some(i as int),
            None => pivot::<Machine<A>>(grid(rows@), column as int, from as int, eps) is None,
        },
{
    if from == rows.len() {
        return None;
    }
    let ghost g = grid(rows@);
    let mut best: usize = from;
    assert(column < g[from as int].len());
    let mut best_size: A::Number = magnitude::<A>(rows[from][column]);
    for i in from + 1..rows.len()
        invariant
            lawful::<A>(),
            from < rows@.len(),
            g == grid(rows@),
            forall|k: int| 0 <= k < rows@.len() ==> column < #[trigger] g[k].len(),
            from <= best < i,
            best == largest::<Machine<A>>(g, column as int, from as int, i as int),
            best_size == A::size(g[best as int][column as int]),
    {
        assert(column < g[i as int].len());
        let size: A::Number = magnitude::<A>(rows[i][column]);
        if !is_ranked_after::<A>(best_size, size) {
            best = i;
            best_size = size;
        }
    }
    if is_below::<A>(eps, best_size) {
        Some(best)
    } else {
        None
    }
}

fn scale_row<A: Arithmetic>(row: &Vec<A::Number>, column: usize, unknowns: usize) -> (result: Vec<
    A::Number,
>)
    requires
        lawful::<A>(),
        column <= unknowns < row@.len(),
    ensures
        result@ == scaled::<Machine<A>>(row@, column as int, unknowns as int),
{
    let divisor: A::Number = row[column];
    let mut result: Vec<A::Number> = Vec::new();
    for j in 0..row.len()
        invariant
            lawful::<A>(),
            column <= unknowns < row@.len(),
            divisor == row@[column as int],
            result@ == scaled::<Machine<A>>(row@, column as int, unknowns as int).take(j as int),
    {
        if column <= j && j <= unknowns {
            result.push(over::<A>(row[j], divisor));
        } else {
            result.push(row[j]);
        }
    }
    result
}

fn reduce_row<A: Arithmetic>(
    row: &Vec<A::Number>,
    pivot_row: &Vec<A::Number>,
    column: usize,
    unknowns: usize,
) -> (result: Vec<A::Number>)
    requires
        lawful::<A>(),
        column <= unknowns < row@.len(),
        unknowns < pivot_row@.len(),
    ensures
        result@ == reduced::<Machine<A>>(row@, pivot_row@, column as int, unknowns as int),
{
    let factor: A::Number = row[column];
    let mut result: Vec<A::Number> = Vec::new();
    for j in 0..row.len()
        invariant
            lawful::<A>(),
            column <= unknowns < row@.len(),
            unknowns < pivot_row@.len(),
            factor == row@[column as int],
            result@ == reduced::<Machine<A>>(
                row@,
                pivot_row@,
                column as int,
                unknowns as int,
            ).take(j as int),
    {
        if column <= j && j <= unknowns {
            result.push(minus::<A>(row[j], times::<A>(factor, pivot_row[j])));
        } else {
            result.push(row[j]);
        }
    }
    result
}

fn copy_row<N: Copy>(row: &Vec<N>) -> (result: Vec<N>)
    ensures
        result@ == row@,
{
    let mut result: Vec<N> = Vec::new();
    for j in 0..row.len()
        invariant
            result@ == row@.take(j as int),
    {
        result.push(row[j]);
    }
    assert(row@.take(row@.len() as int) == row@);
    result
}

fn pivot_rows<A: Arithmetic>(
    rows: &Vec<Vec<A::Number>>,
    place: usize,
    chosen: usize,
    column: usize,
    unknowns: usize,
    eps: A::Number,
) -> (result: Vec<Vec<A::Number>>)
    requires
        lawful::<A>(),
        place < rows@.len(),
        chosen < rows@.len(),
        column < unknowns,
        wide_enough(grid(rows@), unknowns as int),
    ensures
        grid(result@) == pivoted::<Machine<A>>(
            grid(rows@),
            place as int,
            chosen as int,
            column as int,
            unknowns as int,
            eps,
        ),
        result@.len() == rows@.len(),
        wide_enough(grid(result@), unknowns as int),
{
    let ghost g = grid(rows@);
    assert(g[chosen as int].len() > unknowns);
    let pivot_row: Vec<A::Number> = scale_row::<A>(&rows[chosen], column, unknowns);
    let ghost start = with_scaled::<Machine<A>>(
        exchanged(g, place as int, chosen as int),
        place as int,
        column as int,
        unknowns as int,
    );
    let ghost goal = cleared::<Machine<A>>(
        start,
        place as int,
        column as int,
        unknowns as int,
        eps,
    );
    assert(pivot_row@ == start[place as int]);
    let mut result: Vec<Vec<A::Number>> = Vec::new();
    for i in 0..rows.len()
        invariant
            lawful::<A>(),
            place < rows@.len(),
            chosen < rows@.len(),
            column < unknowns,
            g == grid(rows@),
            wide_enough(g, unknowns as int),
            pivot_row@ == start[place as int],
            pivot_row@.len() > unknowns,
            start == with_scaled::<Machine<A>>(
                exchanged(g, place as int, chosen as int),
                place as int,
                column as int,
                unknowns as int,
            ),
            goal == cleared::<Machine<A>>(
                start,
                place as int,
                column as int,
                unknowns as int,
                eps,
            ),
            grid(result@) == goal.take(i as int),
            wide_enough(grid(result@), unknowns as int),
    {
        let ghost done = result@;
        if i == place {
            result.push(copy_row(&pivot_row));
        } else {
            let source: usize = if i == chosen {
                place
            } else {
                i
            };
            assert(g[source as int].len() > unknowns);
            assert(start[i as int] == g[source as int]);
            if is_at_most::<A>(magnitude::<A>(rows[source][column]), eps) {
                result.push(copy_row(&rows[source]));
            } else {
                result.push(reduce_row::<A>(&rows[source], &pivot_row, column, unknowns));
            }
        }
        assert(grid(result@) == grid(done).push(result@[i as int]@));
        assert(goal.take(i + 1) == goal.take(i as int).push(goal[i as int]));
    }
    assert(goal.take(goal.len() as int) == goal);
    result
}

fn row_contradicts<A: Arithmetic>(row: &Vec<A::Number>, unknowns: usize, eps: A::Number) -> (r:
    bool)
    requires
        lawful::<A>(),
        unknowns < row@.len(),
    ensures
        r == contradicts::<Machine<A>>(row@, unknowns as int, eps),
{
    for j in 0..unknowns
        invariant
            lawful::<A>(),
            unknowns < row@.len(),
            forall|k: int| 0 <= k < j ==> A::at_most(A::size(#[trigger] row@[k]), eps),
    {
        if !is_at_most::<A>(magnitude::<A>(row[j]), eps) {
            return false;
        }
    }
    is_below::<A>(eps, magnitude::<A>(row[unknowns]))
}

/// Solves a system of linear equations.
pub fn solve_unique_linear_system<A: Arithmetic>(
    matrix: Vec<Vec<A::Number>>,
    unknown_count: usize,
) -> (result: Result<Vec<A::Number>, CalculationError<A::Number>>)
    requires
        lawful::<A>(),
        wide_enough(grid(matrix@), unknown_count as int),
    ensures
        values_of(result) == solution::<Machine<A>>(
            grid(matrix@),
            unknown_count as int,
            tolerance::<Machine<A>>(),
        ),
{
    let eps: A::Number = tolerance_number::<A>();
    let ghost start = grid(matrix@);
    let ghost mut columns: Seq<int> = Seq::empty();
    let mut rows: Vec<Vec<A::Number>> = matrix;
    let mut row: usize = 0;
    for column in 0..unknown_count
        invariant
            lawful::<A>(),
            rows@.len() == start.len(),
            wide_enough(grid(rows@), unknown_count as int),
            row == columns.len(),
            row <= rows@.len(),
            row <= column,
            eliminated::<Machine<A>>(start, Seq::empty(), 0, unknown_count as int, eps)
                == eliminated::<Machine<A>>(
                grid(rows@),
                columns,
                column as int,
                unknown_count as int,
                eps,
            ),
    {
        assert(forall|i: int| 0 <= i < rows@.len() ==> #[trigger] grid(rows@)[i].len() > column);
        match find_pivot::<A>(&rows, column, row, eps) {
            Some(chosen) => {
                rows = pivot_rows::<A>(&rows, row, chosen, column, unknown_count, eps);
                proof {
                    columns = columns.push(column as int);
                }
                row += 1;
            },
            None => {},
        }
    }
    let ghost end = grid(rows@);
    for i in 0..rows.len()
        invariant
            lawful::<A>(),
            start == grid(matrix@),
            eps == tolerance::<Machine<A>>(),
            end == grid(rows@),
            wide_enough(end, unknown_count as int),
            forall|k: int|
                0 <= k < i ==> !contradicts::<Machine<A>>(
                    #[trigger] end[k],
                    unknown_count as int,
                    eps,
                ),
            solution::<Machine<A>>(start, unknown_count as int, eps) == outcome::<Machine<A>>(
                end,
                columns,
                unknown_count as int,
                eps,
            ),
    {
        assert(end[i as int].len() > unknown_count);
        if row_contradicts::<A>(&rows[i], unknown_count, eps) {
            return Err(CalculationError::Inconsistent);
        }
    }
    if row < unknown_count {
        return Err(CalculationError::NotUnique);
    }
    let mut values: Vec<A::Number> = Vec::new();
    for j in 0..unknown_count
        invariant
            end == grid(rows@),
            wide_enough(end, unknown_count as int),
            unknown_count <= rows@.len(),
            values@ == Seq::new(unknown_count as nat, |k: int| end[k][unknown_count as int]).take(
                j as int,
            ),
    {
        assert(end[j as int].len() > unknown_count);
        values.push(rows[j][unknown_count]);
    }
    assert(values@ == Seq::new(unknown_count as nat, |k: int| end[k][unknown_count as int]));
    Ok(values)
}

} // verus!
