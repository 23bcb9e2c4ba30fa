//! What the solver computes where nothing is rounded.

use vstd::prelude::*;

use crate::arithmetic::{Exact, Numerals};
use crate::solver::{cleared, contradicts, eliminated, exchanged, largest, outcome, pivot, pivoted, reduced, scaled, solution, wide_enough, with_scaled, CalculationFault};

verus! {

/// The sum of the first `n` coefficients of a row, each times the value of its unknown.
pub open spec fn dot(row: Seq<real>, values: Seq<real>, n: int) -> real
    decreases n,
{
    if n <= 0 {
        0real
    } else {
        dot(row, values, n - 1) + row[n - 1] * values[n - 1]
    }
}

/// Whether values for the unknowns satisfy one equation.
pub open spec fn holds(row: Seq<real>, values: Seq<real>, unknowns: int) -> bool {
    dot(row, values, unknowns) == row[unknowns]
}

/// Whether values for the unknowns satisfy all equations.
pub open spec fn solves(rows: Seq<Seq<real>>, values: Seq<real>, unknowns: int) -> bool {
    &&& values.len() == unknowns
    &&& forall|i: int| 0 <= i < rows.len() ==> holds(#[trigger] rows[i], values, unknowns)
}

/// The rows are in reduced echelon form as far as the columns before `column` are concerned.
spec fn echelon(rows: Seq<Seq<real>>, columns: Seq<int>, column: int) -> bool {
    &&& columns.len() <= rows.len()
    &&& forall|k: int| 0 <= k < columns.len() ==> 0 <= #[trigger] columns[k] < column
    &&& forall|k: int, l: int| 0 <= k < l < columns.len() ==> columns[k] < columns[l]
    &&& forall|k: int| 0 <= k < columns.len() ==> #[trigger] rows[k][columns[k]] == 1real
    &&& forall|i: int, k: int|
        0 <= i < rows.len() && 0 <= k < columns.len() && i != k
            ==> #[trigger] rows[i][#[trigger] columns[k]] == 0real
    &&& forall|i: int, j: int|
        columns.len() <= i < rows.len() && 0 <= j < column ==> #[trigger] rows[i][j] == 0real
}

proof fn lemma_largest(rows: Seq<Seq<real>>, column: int, from: int, to: int)
    requires
        from < to,
    ensures
        from <= largest::<Exact>(rows, column, from, to) < to,
        forall|i: int|
            from <= i < to ==> Exact::size(#[trigger] rows[i][column]) <= Exact::size(
                rows[largest::<Exact>(rows, column, from, to)][column],
            ),
    decreases to - from,
{
    if from + 1 < to {
        lemma_largest(rows, column, from, to - 1);
    }
}

/// A quotient times its divisor.
pub proof fn lemma_quotient(a: real, d: real)
    by (nonlinear_arith)
    requires
        d != 0real,
    ensures
        (a / d) * d == a,
{
}

/// A factor other than zero can be cancelled.
pub proof fn lemma_cancel(a: real, b: real, d: real)
    by (nonlinear_arith)
    requires
        d != 0real,
        a * d == b * d,
    ensures
        a == b,
{
}

/// A sum of two products, spelled out.
proof fn lemma_spread(a: real, q: real, x: real, d: real)
    by (nonlinear_arith)
    ensures
        (a + q * x) * d == a * d + (q * d) * x,
{
}

/// A difference of products, spelled out.
proof fn lemma_spread_difference(u: real, v: real, a: real, f: real, p: real, x: real)
    by (nonlinear_arith)
    ensures
        (u - f * v) + (a - f * p) * x == (u + a * x) - f * (v + p * x),
{
}

/// Zero times a number, and one times a number.
pub proof fn lemma_zero_and_one(x: real)
    by (nonlinear_arith)
    ensures
        0real * x == 0real,
        x * 0real == 0real,
        1real * x == x,
        x * 1real == x,
{
}

proof fn lemma_dot_scaled(row: Seq<real>, column: int, unknowns: int, values: Seq<real>, n: int)
    requires
        0 <= column < unknowns < row.len(),
        0 <= n <= unknowns,
        row[column] != 0real,
        forall|j: int| 0 <= j < column ==> #[trigger] row[j] == 0real,
    ensures
        dot(scaled::<Exact>(row, column, unknowns), values, n) * row[column] == dot(row, values, n),
    decreases n,
{
    let s = scaled::<Exact>(row, column, unknowns);
    let d = row[column];
    if n > 0 {
        lemma_dot_scaled(row, column, unknowns, values, n - 1);
        let a = row[n - 1];
        let x = values[n - 1];
        let before = dot(s, values, n - 1);
        if n - 1 < column {
            lemma_zero_and_one(x);
        } else {
            assert(s[n - 1] == a / d);
            lemma_quotient(a, d);
            lemma_spread(before, a / d, x, d);
        }
    } else {
        lemma_zero_and_one(d);
    }
}

proof fn lemma_holds_scaled(row: Seq<real>, column: int, unknowns: int, values: Seq<real>)
    requires
        0 <= column < unknowns < row.len(),
        row[column] != 0real,
        forall|j: int| 0 <= j < column ==> #[trigger] row[j] == 0real,
    ensures
        holds(scaled::<Exact>(row, column, unknowns), values, unknowns) <==> holds(
            row,
            values,
            unknowns,
        ),
{
    let s = scaled::<Exact>(row, column, unknowns);
    lemma_dot_scaled(row, column, unknowns, values, unknowns);
    let d = row[column];
    let a = dot(s, values, unknowns);
    let b = row[unknowns];
    assert(s[unknowns] == b / d);
    lemma_quotient(b, d);
    if a * d == b {
        lemma_cancel(a, b / d, d);
    }
}

proof fn lemma_dot_reduced(
    row: Seq<real>,
    pivot_row: Seq<real>,
    column: int,
    unknowns: int,
    values: Seq<real>,
    n: int,
)
    requires
        0 <= column < unknowns < row.len(),
        unknowns < pivot_row.len(),
        0 <= n <= unknowns,
        forall|j: int| 0 <= j < column ==> #[trigger] pivot_row[j] == 0real,
    ensures
        dot(reduced::<Exact>(row, pivot_row, column, unknowns), values, n) == dot(row, values, n)
            - row[column] * dot(pivot_row, values, n),
    decreases n,
{
    let r = reduced::<Exact>(row, pivot_row, column, unknowns);
    let f = row[column];
    if n > 0 {
        lemma_dot_reduced(row, pivot_row, column, unknowns, values, n - 1);
        let a = row[n - 1];
        let p = pivot_row[n - 1];
        let x = values[n - 1];
        let u = dot(row, values, n - 1);
        let v = dot(pivot_row, values, n - 1);
        if n - 1 < column {
            lemma_zero_and_one(x);
        } else {
            assert(r[n - 1] == a - f * p);
            lemma_spread_difference(u, v, a, f, p, x);
        }
    } else {
        lemma_zero_and_one(f);
    }
}

proof fn lemma_holds_reduced(
    row: Seq<real>,
    pivot_row: Seq<real>,
    column: int,
    unknowns: int,
    values: Seq<real>,
)
    requires
        0 <= column < unknowns < row.len(),
        unknowns < pivot_row.len(),
        forall|j: int| 0 <= j < column ==> #[trigger] pivot_row[j] == 0real,
        holds(pivot_row, values, unknowns),
    ensures
        holds(reduced::<Exact>(row, pivot_row, column, unknowns), values, unknowns) <==> holds(
            row,
            values,
            unknowns,
        ),
{
    lemma_dot_reduced(row, pivot_row, column, unknowns, values, unknowns);
}

/// One pivot step keeps the set of solutions.
proof fn lemma_pivoted_solves(
    rows: Seq<Seq<real>>,
    columns: Seq<int>,
    chosen: int,
    column: int,
    unknowns: int,
    values: Seq<real>,
)
    requires
        wide_enough(rows, unknowns),
        0 <= column < unknowns,
        columns.len() <= chosen < rows.len(),
        rows[chosen][column] != 0real,
        echelon(rows, columns, column),
    ensures
        solves(
            pivoted::<Exact>(rows, columns.len() as int, chosen, column, unknowns, 0real),
            values,
            unknowns,
        ) <==> solves(rows, values, unknowns),
{
    let place = columns.len() as int;
    let swapped = exchanged(rows, place, chosen);
    let start = with_scaled::<Exact>(swapped, place, column, unknowns);
    let end = cleared::<Exact>(start, place, column, unknowns, 0real);
    let p = start[place];
    assert(rows[chosen].len() > unknowns);
    lemma_holds_scaled(rows[chosen], column, unknowns, values);
    assert(end[place] == p);
    assert forall|i: int| 0 <= i < rows.len() && i != place && holds(p, values, unknowns) implies (
    holds(#[trigger] end[i], values, unknowns) <==> holds(swapped[i], values, unknowns)) by {
        assert(swapped[i].len() > unknowns) by {
            assert(rows[i].len() > unknowns);
            assert(rows[place].len() > unknowns);
        }
        if Exact::size(start[i][column]) > 0real {
            lemma_holds_reduced(swapped[i], p, column, unknowns, values);
        }
    }
    if solves(rows, values, unknowns) {
        assert(holds(rows[chosen], values, unknowns));
        assert forall|i: int| 0 <= i < end.len() implies holds(#[trigger] end[i], values, unknowns) by {
            let source = if i == place {
                chosen
            } else if i == chosen {
                place
            } else {
                i
            };
            assert(swapped[i] == rows[source]);
            assert(holds(rows[source], values, unknowns));
        }
    }
    if solves(end, values, unknowns) {
        assert(holds(end[place], values, unknowns));
        assert forall|i: int| 0 <= i < rows.len() implies holds(
            #[trigger] rows[i],
            values,
            unknowns,
        ) by {
            let target = if i == place {
                chosen
            } else if i == chosen {
                place
            } else {
                i
            };
            assert(swapped[target] == rows[i]);
            assert(holds(end[target], values, unknowns));
        }
    }
}

/// One pivot step extends the echelon form by one column.
proof fn lemma_pivoted_echelon(
    rows: Seq<Seq<real>>,
    columns: Seq<int>,
    chosen: int,
    column: int,
    unknowns: int,
)
    requires
        wide_enough(rows, unknowns),
        0 <= column < unknowns,
        columns.len() <= chosen < rows.len(),
        rows[chosen][column] != 0real,
        echelon(rows, columns, column),
    ensures
        echelon(
            pivoted::<Exact>(rows, columns.len() as int, chosen, column, unknowns, 0real),
            columns.push(column),
            column + 1,
        ),
        wide_enough(
            pivoted::<Exact>(rows, columns.len() as int, chosen, column, unknowns, 0real),
            unknowns,
        ),
{
    let place = columns.len() as int;
    let swapped = exchanged(rows, place, chosen);
    let start = with_scaled::<Exact>(swapped, place, column, unknowns);
    let end = cleared::<Exact>(start, place, column, unknowns, 0real);
    let next = columns.push(column);
    let p = start[place];
    let d = rows[chosen][column];
    assert(rows[chosen].len() > unknowns);
    assert(rows[place].len() > unknowns);
    assert(p[column] == d / d);
    assert(d / d == 1real) by {
        lemma_quotient(d, d);
        lemma_zero_and_one(d);
        lemma_cancel(d / d, 1real, d);
    }
    assert forall|i: int| 0 <= i < rows.len() implies #[trigger] end[i].len() > unknowns by {
        assert(rows[i].len() > unknowns);
    }
    // Entries before the column are those of the exchanged rows.
    assert forall|i: int, j: int| 0 <= i < rows.len() && 0 <= j < column implies #[trigger] end[i][j]
        == swapped[i][j] by {
        assert(rows[i].len() > unknowns);
    }
    // The column itself is cleared.
    assert forall|i: int| 0 <= i < rows.len() && i != place implies #[trigger] end[i][column]
        == 0real by {
        assert(rows[i].len() > unknowns);
        let a = start[i][column];
        if Exact::size(a) > 0real {
            assert(end[i][column] == a - a * p[column]);
            lemma_zero_and_one(a);
        }
    }
    assert forall|i: int, k: int|
        0 <= i < end.len() && 0 <= k < next.len() && i != k implies #[trigger] end[i][#[trigger] next[k]]
        == 0real by {
        if k < place {
            let c = columns[k];
            assert(next[k] == c);
            assert(end[i][c] == swapped[i][c]);
            let source = if i == place {
                chosen
            } else if i == chosen {
                place
            } else {
                i
            };
            assert(swapped[i] == rows[source]);
            assert(rows[source][columns[k]] == 0real);
        }
    }
    assert forall|k: int| 0 <= k < next.len() implies #[trigger] end[k][next[k]] == 1real by {
        if k < place {
            let c = columns[k];
            assert(end[k][c] == swapped[k][c]);
            assert(rows[k][columns[k]] == 1real);
        }
    }
    assert forall|i: int, j: int| next.len() <= i < end.len() && 0 <= j < column + 1 implies #[trigger] end[i][j]
        == 0real by {
        if j < column {
            assert(end[i][j] == swapped[i][j]);
            let source = if i == chosen {
                place
            } else {
                i
            };
            assert(swapped[i] == rows[source]);
            assert(rows[source][j] == 0real);
        }
    }
}

/// Elimination keeps the set of solutions and ends in echelon form.
proof fn lemma_eliminated(rows: Seq<Seq<real>>, columns: Seq<int>, column: int, unknowns: int)
    requires
        wide_enough(rows, unknowns),
        0 <= column <= unknowns,
        echelon(rows, columns, column),
    ensures
        ({
            let (end, found) = eliminated::<Exact>(rows, columns, column, unknowns, 0real);
            &&& wide_enough(end, unknowns)
            &&& end.len() == rows.len()
            &&& echelon(end, found, unknowns)
            &&& forall|values: Seq<real>| #[trigger]
                solves(end, values, unknowns) <==> solves(rows, values, unknowns)
        }),
    decreases unknowns - column,
{
    if column < unknowns {
        let place = columns.len() as int;
        match pivot::<Exact>(rows, column, place, 0real) {
            Some(chosen) => {
                lemma_largest(rows, column, place, rows.len() as int);
                assert(rows[chosen][column] != 0real);
                lemma_pivoted_echelon(rows, columns, chosen, column, unknowns);
                let next = pivoted::<Exact>(rows, place, chosen, column, unknowns, 0real);
                lemma_eliminated(next, columns.push(column), column + 1, unknowns);
                assert forall|values: Seq<real>| #[trigger]
                    solves(next, values, unknowns) <==> solves(rows, values, unknowns) by {
                    lemma_pivoted_solves(rows, columns, chosen, column, unknowns, values);
                }
                let (end, found) = eliminated::<Exact>(rows, columns, column, unknowns, 0real);
                assert forall|values: Seq<real>| #[trigger]
                    solves(end, values, unknowns) <==> solves(rows, values, unknowns) by {
                    assert(solves(end, values, unknowns) <==> solves(next, values, unknowns));
                }
            },
            None => {
                if place < rows.len() {
                    lemma_largest(rows, column, place, rows.len() as int);
                }
                assert forall|i: int, j: int|
                    columns.len() <= i < rows.len() && 0 <= j < column + 1 implies #[trigger] rows[i][j]
                    == 0real by {
                    if j == column {
                        assert(Exact::size(rows[i][column]) <= 0real);
                    }
                }
                lemma_eliminated(rows, columns, column + 1, unknowns);
            },
        }
    }
}

/// No more columns are cleared than there are rows.
pub proof fn lemma_enough_rows(rows: Seq<Seq<real>>, unknowns: int)
    requires
        0 <= unknowns,
        wide_enough(rows, unknowns),
    ensures
        ({
            let (end, columns) = eliminated::<Exact>(rows, Seq::empty(), 0, unknowns, 0real);
            columns.len() <= end.len()
        }),
{
    assert(echelon(rows, Seq::empty(), 0));
    lemma_eliminated(rows, Seq::empty(), 0, unknowns);
}

/// A sum of products of which only those at `a` and `b` can differ from zero.
proof fn lemma_dot_two_terms(row: Seq<real>, values: Seq<real>, n: int, a: int, b: int)
    requires
        a != b,
        0 <= a,
        0 <= b,
        forall|j: int|
            0 <= j < n && j != a && j != b ==> (#[trigger] row[j]) * values[j] == 0real,
    ensures
        dot(row, values, n) == (if a < n {
            row[a] * values[a]
        } else {
            0real
        }) + (if b < n {
            row[b] * values[b]
        } else {
            0real
        }),
    decreases n,
{
    if n > 0 {
        lemma_dot_two_terms(row, values, n - 1, a, b);
        if n - 1 != a && n - 1 != b {
            assert(row[n - 1] * values[n - 1] == 0real);
        }
    }
}

/// A row of zeros yields zero.
proof fn lemma_dot_zero_row(row: Seq<real>, values: Seq<real>, n: int)
    requires
        forall|j: int| 0 <= j < n ==> #[trigger] row[j] == 0real,
    ensures
        dot(row, values, n) == 0real,
    decreases n,
{
    if n > 0 {
        lemma_dot_zero_row(row, values, n - 1);
        let x = values[n - 1];
        lemma_zero_and_one(x);
        assert(row[n - 1] == 0real);
    }
}

/// Strictly increasing columns lie at or above their index.
proof fn lemma_columns_climb(columns: Seq<int>, k: int)
    requires
        0 <= k < columns.len(),
        forall|i: int| 0 <= i < columns.len() ==> 0 <= #[trigger] columns[i],
        forall|i: int, j: int| 0 <= i < j < columns.len() ==> columns[i] < columns[j],
    ensures
        columns[k] >= k,
    decreases k,
{
    if k > 0 {
        lemma_columns_climb(columns, k - 1);
        assert(columns[k - 1] < columns[k]);
    }
}

/// As many increasing columns as there are unknowns are all the columns, in order.
proof fn lemma_columns_all(columns: Seq<int>, unknowns: int, k: int)
    requires
        0 <= k < columns.len(),
        columns.len() == unknowns,
        forall|i: int| 0 <= i < columns.len() ==> 0 <= #[trigger] columns[i] < unknowns,
        forall|i: int, j: int| 0 <= i < j < columns.len() ==> columns[i] < columns[j],
    ensures
        columns[k] == k,
    decreases unknowns - k,
{
    lemma_columns_climb(columns, k);
    if k < unknowns - 1 {
        lemma_columns_all(columns, unknowns, k + 1);
        assert(columns[k] < columns[k + 1]);
    } else {
        assert(columns[k] < unknowns);
    }
}

/// Fewer increasing columns than unknowns leave a column out.
proof fn lemma_free_column(columns: Seq<int>, unknowns: int) -> (free: int)
    requires
        columns.len() < unknowns,
        forall|i: int, j: int| 0 <= i < j < columns.len() ==> columns[i] < columns[j],
    ensures
        0 <= free < unknowns,
        !columns.contains(free),
    decreases columns.len(),
{
    if columns.len() == 0 {
        0
    } else if columns.last() == unknowns - 1 {
        let fewer = columns.drop_last();
        let free = lemma_free_column(fewer, unknowns - 1);
        if columns.contains(free) {
            let k = choose|k: int| 0 <= k < columns.len() && columns[k] == free;
            if k < fewer.len() {
                assert(fewer[k] == free);
            }
        }
        free
    } else {
        let free = unknowns - 1;
        if columns.contains(free) {
            let k = choose|k: int| 0 <= k < columns.len() && columns[k] == free;
            if k < columns.len() - 1 {
                let fewer = columns.drop_last();
                // The last column lies beyond the last unknown: another one below is free.
                let other = lemma_free_column(fewer, unknowns);
                if columns.contains(other) {
                    let l = choose|l: int| 0 <= l < columns.len() && columns[l] == other;
                    if l < fewer.len() {
                        assert(fewer[l] == other);
                    } else {
                        assert(columns[k] < columns[l]);
                    }
                }
                other
            } else {
                free
            }
        } else {
            free
        }
    }
}

/// The values that solve rows in echelon form when the unknown of a free column is `t` and those
/// of the other free columns are zero.
spec fn choice(rows: Seq<Seq<real>>, columns: Seq<int>, unknowns: int, free: int, t: real) -> Seq<
    real,
> {
    Seq::new(
        unknowns as nat,
        |j: int|
            if j == free {
                t
            } else if columns.contains(j) {
                let k = columns.index_of(j);
                rows[k][unknowns] - rows[k][free] * t
            } else {
                0real
            },
    )
}

proof fn lemma_choice_solves(
    rows: Seq<Seq<real>>,
    columns: Seq<int>,
    unknowns: int,
    free: int,
    t: real,
)
    requires
        wide_enough(rows, unknowns),
        echelon(rows, columns, unknowns),
        0 <= free < unknowns,
        !columns.contains(free),
        forall|i: int| 0 <= i < rows.len() ==> !contradicts::<Exact>(#[trigger] rows[i], unknowns, 0real),
    ensures
        solves(rows, choice(rows, columns, unknowns, free, t), unknowns),
{
    let values = choice(rows, columns, unknowns, free, t);
    assert forall|i: int| 0 <= i < rows.len() implies holds(#[trigger] rows[i], values, unknowns) by {
        let row = rows[i];
        if i < columns.len() {
            let c = columns[i];
            assert(columns.contains(c));
            assert(c != free);
            assert forall|j: int| 0 <= j < unknowns && j != c && j != free implies (
            #[trigger] row[j]) * values[j] == 0real by {
                let x = values[j];
                let a = row[j];
                if columns.contains(j) {
                    let k = columns.index_of(j);
                    assert(columns[k] == j);
                    assert(rows[i][columns[k]] == 0real);
                    lemma_zero_and_one(x);
                } else {
                    lemma_zero_and_one(a);
                }
            }
            lemma_dot_two_terms(row, values, unknowns, c, free);
            let k = columns.index_of(c);
            assert(columns[k] == c);
            assert(k == i) by {
                if k < i {
                    assert(columns[k] < columns[i]);
                }
                if i < k {
                    assert(columns[i] < columns[k]);
                }
            }
            assert(row[columns[i]] == 1real);
            let b = row[unknowns];
            let f = row[free];
            assert(values[c] == b - f * t);
            lemma_zero_and_one(b - f * t);
        } else {
            assert forall|j: int| 0 <= j < unknowns implies #[trigger] row[j] == 0real by {
                assert(rows[i][j] == 0real);
            }
            lemma_dot_zero_row(row, values, unknowns);
            assert(!contradicts::<Exact>(rows[i], unknowns, 0real));
        }
    }
}

/// Law: without rounding, and with nothing but zero counting as zero, a system is solved
/// correctly. The values found satisfy all equations and no other values do; `Inconsistent` is
/// reported if and only if no values satisfy them, and `NotUnique` if and only if two different
/// choices of values do.
pub proof fn law_solution_is_the_only_one(rows: Seq<Seq<real>>, unknowns: int)
    requires
        0 <= unknowns,
        wide_enough(rows, unknowns),
    ensures
        match solution::<Exact>(rows, unknowns, 0real) {
            Ok(found) => solves(rows, found, unknowns) && forall|values: Seq<real>| #[trigger]
                solves(rows, values, unknowns) ==> values == found,
            Err(CalculationFault::Inconsistent) => forall|values: Seq<real>|
                !#[trigger] solves(rows, values, unknowns),
            Err(CalculationFault::NotUnique) => exists|v: Seq<real>, w: Seq<real>|
                v != w && #[trigger] solves(rows, v, unknowns) && #[trigger] solves(
                    rows,
                    w,
                    unknowns,
                ),
            Err(CalculationFault::NegativeAmount { formula, moles }) => false,
        },
{
    lemma_eliminated(rows, Seq::empty(), 0, unknowns);
    let (end, columns) = eliminated::<Exact>(rows, Seq::empty(), 0, unknowns, 0real);
    if exists|i: int| 0 <= i < end.len() && contradicts::<Exact>(#[trigger] end[i], unknowns, 0real) {
        let i = choose|i: int|
            0 <= i < end.len() && contradicts::<Exact>(#[trigger] end[i], unknowns, 0real);
        assert forall|values: Seq<real>| !#[trigger] solves(rows, values, unknowns) by {
            if solves(rows, values, unknowns) {
                assert(solves(end, values, unknowns));
                assert(holds(end[i], values, unknowns));
                lemma_dot_zero_row(end[i], values, unknowns);
            }
        }
    } else if columns.len() < unknowns {
        let free = lemma_free_column(columns, unknowns);
        let v = choice(end, columns, unknowns, free, 0real);
        let w = choice(end, columns, unknowns, free, 1real);
        lemma_choice_solves(end, columns, unknowns, free, 0real);
        lemma_choice_solves(end, columns, unknowns, free, 1real);
        assert(v[free] != w[free]);
        assert(solves(rows, v, unknowns));
        assert(solves(rows, w, unknowns));
    } else {
        lemma_full_columns(columns, unknowns);
        let found = Seq::new(unknowns as nat, |j: int| end[j][unknowns]);
        assert forall|values: Seq<real>, k: int|
            values.len() == unknowns && 0 <= k < unknowns implies #[trigger] dot(
            end[k],
            values,
            unknowns,
        ) == values[k] by {
            lemma_identity_row(end, columns, unknowns, k, values);
        }
        assert forall|i: int| 0 <= i < end.len() implies holds(#[trigger] end[i], found, unknowns) by {
            if i < unknowns {
                assert(dot(end[i], found, unknowns) == found[i]);
            } else {
                assert forall|j: int| 0 <= j < unknowns implies #[trigger] end[i][j] == 0real by {}
                lemma_dot_zero_row(end[i], found, unknowns);
                assert(!contradicts::<Exact>(end[i], unknowns, 0real));
            }
        }
        assert(solves(end, found, unknowns));
        assert forall|values: Seq<real>| #[trigger] solves(rows, values, unknowns) implies values
            == found by {
            assert(solves(end, values, unknowns));
            assert forall|k: int| 0 <= k < unknowns implies values[k] == found[k] by {
                assert(holds(end[k], values, unknowns));
                assert(dot(end[k], values, unknowns) == values[k]);
            }
            assert(values == found);
        }
    }
}

proof fn lemma_full_columns(columns: Seq<int>, unknowns: int)
    requires
        columns.len() >= unknowns >= 0,
        forall|i: int| 0 <= i < columns.len() ==> 0 <= #[trigger] columns[i] < unknowns,
        forall|i: int, j: int| 0 <= i < j < columns.len() ==> columns[i] < columns[j],
    ensures
        columns.len() == unknowns,
        forall|k: int| 0 <= k < unknowns ==> #[trigger] columns[k] == k,
{
    if columns.len() > unknowns {
        lemma_columns_climb(columns, unknowns);
    }
    assert forall|k: int| 0 <= k < unknowns implies #[trigger] columns[k] == k by {
        lemma_columns_all(columns, unknowns, k);
    }
}

/// Where all columns are cleared, row `k` is the equation for unknown `k` alone.
proof fn lemma_identity_row(
    rows: Seq<Seq<real>>,
    columns: Seq<int>,
    unknowns: int,
    k: int,
    values: Seq<real>,
)
    requires
        echelon(rows, columns, unknowns),
        columns.len() == unknowns,
        forall|l: int| 0 <= l < unknowns ==> #[trigger] columns[l] == l,
        0 <= k < unknowns,
    ensures
        dot(rows[k], values, unknowns) == values[k],
{
    let row = rows[k];
    assert forall|j: int| 0 <= j < unknowns && j != k && j != unknowns implies (#[trigger] row[j])
        * values[j] == 0real by {
        assert(columns[j] == j);
        assert(rows[k][columns[j]] == 0real);
        lemma_zero_and_one(values[j]);
    }
    lemma_dot_two_terms(row, values, unknowns, k, unknowns);
    assert(rows[k][columns[k]] == 1real);
    lemma_zero_and_one(values[k]);
}

/// Whether a number is zero or clearly not zero.
pub open spec fn clear_cut(x: real, eps: real) -> bool {
    x == 0real || Exact::size(x) > eps
}

/// Whether all numbers that the elimination compares with the tolerance are clear-cut.
pub open spec fn decisive(
    rows: Seq<Seq<real>>,
    columns: Seq<int>,
    column: int,
    unknowns: int,
    eps: real,
) -> bool
    decreases unknowns - column,
{
    if column >= unknowns {
        forall|i: int, j: int|
            0 <= i < rows.len() && 0 <= j <= unknowns ==> clear_cut(#[trigger] rows[i][j], eps)
    } else {
        &&& forall|i: int| 0 <= i < rows.len() ==> clear_cut(#[trigger] rows[i][column], eps)
        &&& match pivot::<Exact>(rows, column, columns.len() as int, eps) {
            Some(chosen) => decisive(
                pivoted::<Exact>(rows, columns.len() as int, chosen, column, unknowns, eps),
                columns.push(column),
                column + 1,
                unknowns,
                eps,
            ),
            None => decisive(rows, columns, column + 1, unknowns, eps),
        }
    }
}

pub proof fn lemma_decisive(
    rows: Seq<Seq<real>>,
    columns: Seq<int>,
    column: int,
    unknowns: int,
    eps: real,
)
    requires
        eps >= 0real,
        0 <= column <= unknowns,
        decisive(rows, columns, column, unknowns, eps),
    ensures
        ({
            let (end, found) = eliminated::<Exact>(rows, columns, column, unknowns, eps);
            &&& eliminated::<Exact>(rows, columns, column, unknowns, 0real) == (end, found)
            &&& forall|i: int, j: int|
                0 <= i < end.len() && 0 <= j <= unknowns ==> clear_cut(#[trigger] end[i][j], eps)
        }),
    decreases unknowns - column,
{
    if column < unknowns {
        let place = columns.len() as int;
        if place < rows.len() {
            lemma_largest(rows, column, place, rows.len() as int);
            let best = largest::<Exact>(rows, column, place, rows.len() as int);
            assert(clear_cut(rows[best][column], eps));
        }
        match pivot::<Exact>(rows, column, place, eps) {
            Some(chosen) => {
                assert(pivot::<Exact>(rows, column, place, 0real) == Some(chosen));
                let start = with_scaled::<Exact>(
                    exchanged(rows, place, chosen),
                    place,
                    column,
                    unknowns,
                );
                assert forall|i: int| 0 <= i < rows.len() && i != place implies clear_cut(
                    #[trigger] start[i][column],
                    eps,
                ) by {
                    let source = if i == chosen {
                        place
                    } else {
                        i
                    };
                    assert(start[i] == rows[source]);
                    assert(clear_cut(rows[source][column], eps));
                }
                let next = pivoted::<Exact>(rows, place, chosen, column, unknowns, eps);
                assert(next == pivoted::<Exact>(rows, place, chosen, column, unknowns, 0real)) by {
                    assert forall|i: int| 0 <= i < rows.len() && i != place implies (Exact::at_most(
                        Exact::size(#[trigger] start[i][column]),
                        eps,
                    ) <==> Exact::at_most(Exact::size(start[i][column]), 0real)) by {
                        assert(clear_cut(start[i][column], eps));
                    }
                    assert(cleared::<Exact>(start, place, column, unknowns, eps) =~= cleared::<
                        Exact,
                    >(start, place, column, unknowns, 0real));
                }
                lemma_decisive(next, columns.push(column), column + 1, unknowns, eps);
            },
            None => {
                assert(pivot::<Exact>(rows, column, place, 0real) is None);
                lemma_decisive(rows, columns, column + 1, unknowns, eps);
            },
        }
    }
}

/// Law: a tolerance changes nothing where all numbers that are compared with it are either zero
/// or larger than it.
pub proof fn law_tolerance_is_harmless(rows: Seq<Seq<real>>, unknowns: int, eps: real)
    requires
        eps >= 0real,
        0 <= unknowns,
        decisive(rows, Seq::empty(), 0, unknowns, eps),
    ensures
        solution::<Exact>(rows, unknowns, eps) == solution::<Exact>(rows, unknowns, 0real),
{
    lemma_decisive(rows, Seq::empty(), 0, unknowns, eps);
    let (end, columns) = eliminated::<Exact>(rows, Seq::empty(), 0, unknowns, eps);
    assert forall|i: int| 0 <= i < end.len() implies (contradicts::<Exact>(
        #[trigger] end[i],
        unknowns,
        eps,
    ) <==> contradicts::<Exact>(end[i], unknowns, 0real)) by {
        assert forall|j: int| 0 <= j <= unknowns implies clear_cut(#[trigger] end[i][j], eps) by {}
    }
    assert(outcome::<Exact>(end, columns, unknowns, eps) == outcome::<Exact>(
        end,
        columns,
        unknowns,
        0real,
    ));
}

} // verus!
