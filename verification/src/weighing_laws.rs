//! What the amounts of a reaction satisfy where nothing is rounded.

use vstd::prelude::*;
use vstd::seq_lib::to_multiset_build;

use crate::arithmetic::{Exact, Numerals};
use crate::elements::weight_of;
use crate::formula::{count_in, count_or_zero, mass_of, ordered, FormulaFault, Substance};
use crate::formula_laws::{lemma_count_in_push, lemma_count_in_some};
use crate::solver::{eliminated, pivot, pivoted, solution, tolerance, wide_enough, CalculationFault};
use crate::solver_laws::{clear_cut, decisive, dot, holds, law_solution_is_the_only_one, law_tolerance_is_harmless, lemma_cancel, lemma_decisive, lemma_enough_rows, lemma_quotient, lemma_zero_and_one, solves};
use crate::text::{ascending, lemma_precedes_irreflexive, lemma_with_texts, precedes, with_texts};
use crate::weighing::{amount, amounts, balance_row, balance_rows, elements_of, gas_formula, keys, moles_of, pairs, reaction_amounts, sorted_out, with_elements, Amount};

verus! {

/// The sum of the first `n` values of a function.
pub open spec fn total(f: spec_fn(int) -> real, n: int) -> real
    decreases n,
{
    if n <= 0 {
        0real
    } else {
        total(f, n - 1) + f(n - 1)
    }
}

/// How much of an element the given amounts of compounds hold, in moles.
pub open spec fn element_moles(
    compounds: Seq<Substance<real>>,
    shares: Seq<Amount<real>>,
    element: Seq<char>,
) -> real {
    total(
        |j: int| count_or_zero::<Exact>(compounds[j].atoms, element) * shares[j].moles,
        compounds.len() as int,
    )
}

/// The mass of some amounts.
pub open spec fn total_grams(shares: Seq<Amount<real>>) -> real {
    total(|j: int| shares[j].grams, shares.len() as int)
}

/// Whether the molar mass of a compound is that of its atoms.
pub open spec fn consistent(compound: Substance<real>) -> bool {
    &&& ordered(compound.atoms)
    &&& mass_of::<Exact>(compound.atoms) == Ok::<real, FormulaFault>(compound.molar_mass)
}

/// Whether the tolerance decides nothing wrongly in the element balance of a reaction: all
/// numbers that are compared with it are zero or larger than it.
pub open spec fn decisive_balance(
    target: Substance<real>,
    mass: real,
    precursors: Seq<Substance<real>>,
    byproducts: Seq<Substance<real>>,
    eps: real,
) -> bool {
    decisive(
        balance_rows::<Exact>(target, moles_of::<Exact>(target, mass), precursors, byproducts),
        Seq::empty(),
        0,
        (precursors.len() + byproducts.len()) as int,
        eps,
    )
}

proof fn lemma_distribute(c: real, a: real, b: real)
    by (nonlinear_arith)
    ensures
        c * (a + b) == c * a + c * b,
{
}

proof fn lemma_rotate(m: real, w: real, c: real)
    by (nonlinear_arith)
    ensures
        m * (w * c) == w * (c * m),
{
}

proof fn lemma_negative_factor(c: real, x: real)
    by (nonlinear_arith)
    ensures
        (-c) * x == -(c * x),
{
}

proof fn lemma_total_same(f: spec_fn(int) -> real, g: spec_fn(int) -> real, n: int)
    requires
        forall|i: int| 0 <= i < n ==> #[trigger] f(i) == g(i),
    ensures
        total(f, n) == total(g, n),
    decreases n,
{
    if n > 0 {
        lemma_total_same(f, g, n - 1);
        assert(f(n - 1) == g(n - 1));
    }
}

proof fn lemma_total_sum(f: spec_fn(int) -> real, g: spec_fn(int) -> real, n: int)
    ensures
        total(|i: int| f(i) + g(i), n) == total(f, n) + total(g, n),
    decreases n,
{
    if n > 0 {
        lemma_total_sum(f, g, n - 1);
    }
}

proof fn lemma_total_times(f: spec_fn(int) -> real, c: real, n: int)
    ensures
        total(|i: int| c * f(i), n) == c * total(f, n),
    decreases n,
{
    if n > 0 {
        lemma_total_times(f, c, n - 1);
        lemma_distribute(c, total(f, n - 1), f(n - 1));
    } else {
        lemma_zero_and_one(c);
    }
}

proof fn lemma_total_zero(f: spec_fn(int) -> real, n: int)
    requires
        forall|i: int| 0 <= i < n ==> #[trigger] f(i) == 0real,
    ensures
        total(f, n) == 0real,
    decreases n,
{
    if n > 0 {
        lemma_total_zero(f, n - 1);
        assert(f(n - 1) == 0real);
    }
}

/// A sum of which only the value at `k` can differ from zero.
proof fn lemma_total_one(f: spec_fn(int) -> real, n: int, k: int)
    requires
        0 <= k < n,
        forall|i: int| 0 <= i < n && i != k ==> #[trigger] f(i) == 0real,
    ensures
        total(f, n) == f(k),
    decreases n,
{
    if k == n - 1 {
        lemma_total_zero(f, n - 1);
    } else {
        lemma_total_one(f, n - 1, k);
        assert(f(n - 1) == 0real);
    }
}

/// The order of two sums can be exchanged.
proof fn lemma_total_swap(h: spec_fn(int, int) -> real, n: int, m: int)
    ensures
        total(|i: int| total(|j: int| h(i, j), m), n) == total(
            |j: int| total(|i: int| h(i, j), n),
            m,
        ),
    decreases n,
{
    let outer = |i: int| total(|j: int| h(i, j), m);
    let other = |j: int| total(|i: int| h(i, j), n);
    if n <= 0 {
        lemma_total_zero(other, m);
    } else {
        lemma_total_swap(h, n - 1, m);
        let shorter = |j: int| total(|i: int| h(i, j), n - 1);
        let last = |j: int| h(n - 1, j);
        lemma_total_sum(shorter, last, m);
        lemma_total_same(other, |j: int| shorter(j) + last(j), m);
        assert(outer(n - 1) == total(last, m));
    }
}

/// What the amounts of compounds are for numbers of moles that are clear-cut.
proof fn lemma_amounts(
    compounds: Seq<Substance<real>>,
    moles: Seq<real>,
    eps: real,
    shares: Seq<Amount<real>>,
)
    requires
        eps >= 0real,
        moles.len() >= compounds.len(),
        forall|j: int| 0 <= j < compounds.len() ==> clear_cut(#[trigger] moles[j], eps),
        amounts::<Exact>(compounds, moles, eps) == Ok::<Seq<Amount<real>>, CalculationFault<real>>(
            shares,
        ),
    ensures
        shares.len() == compounds.len(),
        forall|j: int|
            0 <= j < shares.len() ==> {
                &&& (#[trigger] shares[j]).formula == compounds[j].formula
                &&& shares[j].moles == moles[j]
                &&& shares[j].grams == moles[j] * compounds[j].molar_mass
                &&& moles[j] >= 0real
            },
    decreases compounds.len(),
{
    if compounds.len() > 0 {
        let last = compounds.len() - 1;
        match amounts::<Exact>(compounds.drop_last(), moles, eps) {
            Err(_) => {},
            Ok(front) => {
                lemma_amounts(compounds.drop_last(), moles, eps, front);
                assert(clear_cut(moles[last], eps));
                assert(shares.drop_last() == front);
                assert forall|j: int| 0 <= j < shares.len() implies {
                    &&& (#[trigger] shares[j]).formula == compounds[j].formula
                    &&& shares[j].moles == moles[j]
                    &&& shares[j].grams == moles[j] * compounds[j].molar_mass
                    &&& moles[j] >= 0real
                } by {
                    if j < last {
                        assert(shares[j] == front[j]);
                    }
                }
            },
        }
    }
}

/// The balance row of an element, applied to the amounts of a reaction.
proof fn lemma_row_balance(
    element: Seq<char>,
    target: Substance<real>,
    target_moles: real,
    precursors: Seq<Substance<real>>,
    byproducts: Seq<Substance<real>>,
    moles: Seq<real>,
    n: int,
)
    requires
        0 <= n <= precursors.len() + byproducts.len(),
    ensures
        ({
            let row = balance_row::<Exact>(element, target, target_moles, precursors, byproducts);
            let p = precursors.len() as int;
            dot(row, moles, n) == (if n <= p {
                total(
                    |j: int| count_or_zero::<Exact>(precursors[j].atoms, element) * moles[j],
                    n,
                )
            } else {
                total(
                    |j: int| count_or_zero::<Exact>(precursors[j].atoms, element) * moles[j],
                    p,
                ) - total(
                    |j: int| count_or_zero::<Exact>(byproducts[j].atoms, element) * moles[p + j],
                    n - p,
                )
            })
        }),
    decreases n,
{
    let p = precursors.len() as int;
    let f = |j: int| count_or_zero::<Exact>(precursors[j].atoms, element) * moles[j];
    let g = |j: int| count_or_zero::<Exact>(byproducts[j].atoms, element) * moles[p + j];
    let row = balance_row::<Exact>(element, target, target_moles, precursors, byproducts);
    if n > 0 {
        lemma_row_balance(element, target, target_moles, precursors, byproducts, moles, n - 1);
        if n > p {
            let c = count_or_zero::<Exact>(byproducts[n - 1 - p].atoms, element);
            let x = moles[n - 1];
            lemma_negative_factor(c, x);
            assert(row[n - 1] == -c);
            assert(g(n - 1 - p) == c * x);
            assert(total(g, n - p) == total(g, n - p - 1) + g(n - p - 1));
            if n - 1 == p {
                assert(total(g, 0) == 0real);
            }
        } else {
            assert(total(f, n) == total(f, n - 1) + f(n - 1));
        }
    }
}

proof fn lemma_with_elements(list: Seq<Seq<char>>, compounds: Seq<Substance<real>>)
    requires
        ascending(list),
    ensures
        ascending(with_elements(list, compounds)),
        forall|e: Seq<char>| #[trigger]
            with_elements(list, compounds).contains(e) <==> list.contains(e) || exists|j: int|
                0 <= j < compounds.len() && keys((#[trigger] compounds[j]).atoms).contains(e),
    decreases compounds.len(),
{
    if compounds.len() > 0 {
        let front = compounds.drop_last();
        lemma_with_elements(list, front);
        let before = with_elements(list, front);
        let names = keys(compounds.last().atoms);
        lemma_with_texts(before, names);
        assert forall|e: Seq<char>| #[trigger]
            with_elements(list, compounds).contains(e) <==> list.contains(e) || exists|j: int|
                0 <= j < compounds.len() && keys((#[trigger] compounds[j]).atoms).contains(e) by {
            assert(before.contains(e) <==> list.contains(e) || exists|j: int|
                0 <= j < front.len() && keys((#[trigger] front[j]).atoms).contains(e));
            if before.contains(e) && !list.contains(e) {
                let j = choose|j: int|
                    0 <= j < front.len() && keys((#[trigger] front[j]).atoms).contains(e);
                assert(keys(compounds[j].atoms).contains(e));
            }
            if names.contains(e) {
                assert(keys(compounds[compounds.len() - 1].atoms).contains(e));
            }
            if exists|j: int|
                0 <= j < compounds.len() && keys((#[trigger] compounds[j]).atoms).contains(e) {
                let j = choose|j: int|
                    0 <= j < compounds.len() && keys((#[trigger] compounds[j]).atoms).contains(e);
                if j < front.len() {
                    assert(keys(front[j].atoms).contains(e));
                }
            }
        }
    }
}

/// The elements of a reaction are ascending, and hold those of each compound in it.
proof fn lemma_elements_of(
    target: Substance<real>,
    precursors: Seq<Substance<real>>,
    byproducts: Seq<Substance<real>>,
)
    ensures
        ascending(elements_of(target, precursors, byproducts)),
        forall|e: Seq<char>|
            keys(target.atoms).contains(e) ==> #[trigger] elements_of(
                target,
                precursors,
                byproducts,
            ).contains(e),
        forall|e: Seq<char>, j: int|
            0 <= j < precursors.len() && #[trigger] keys(precursors[j].atoms).contains(e)
                ==> elements_of(target, precursors, byproducts).contains(e),
        forall|e: Seq<char>, j: int|
            0 <= j < byproducts.len() && #[trigger] keys(byproducts[j].atoms).contains(e)
                ==> elements_of(target, precursors, byproducts).contains(e),
{
    let first = with_texts(Seq::<Seq<char>>::empty(), keys(target.atoms));
    lemma_with_texts(Seq::<Seq<char>>::empty(), keys(target.atoms));
    lemma_with_elements(first, precursors);
    let second = with_elements(first, precursors);
    lemma_with_elements(second, byproducts);
    let all = elements_of(target, precursors, byproducts);
    assert forall|e: Seq<char>| keys(target.atoms).contains(e) implies #[trigger] all.contains(e) by {
        assert(first.contains(e));
        assert(second.contains(e));
    }
    assert forall|e: Seq<char>, j: int|
        0 <= j < precursors.len() && #[trigger] keys(precursors[j].atoms).contains(e) implies all.contains(e) by {
        assert(second.contains(e));
    }
}

/// A compound that does not list an element holds none of it.
proof fn lemma_absent(atoms: Seq<(Seq<char>, real)>, element: Seq<char>)
    requires
        !keys(atoms).contains(element),
    ensures
        count_or_zero::<Exact>(atoms, element) == 0real,
{
    lemma_count_in_some(atoms, element);
    if count_in(atoms, element) is Some {
        let i = choose|i: int| 0 <= i < atoms.len() && (#[trigger] atoms[i]).0 == element;
        assert(keys(atoms)[i] == element);
    }
}

/// The facts about a successful calculation from which the laws follow.
proof fn lemma_reaction(
    target: Substance<real>,
    mass: real,
    precursors: Seq<Substance<real>>,
    byproducts: Seq<Substance<real>>,
    eps: real,
    used: Seq<Amount<real>>,
    released: Seq<Amount<real>>,
) -> (moles: Seq<real>)
    requires
        eps >= 0real,
        decisive_balance(target, mass, precursors, byproducts, eps),
        reaction_amounts::<Exact>(target, mass, precursors, byproducts, eps) == Ok::<
            (Seq<Amount<real>>, Seq<Amount<real>>),
            CalculationFault<real>,
        >((used, released)),
    ensures
        moles.len() == precursors.len() + byproducts.len(),
        solves(
            balance_rows::<Exact>(target, moles_of::<Exact>(target, mass), precursors, byproducts),
            moles,
            moles.len() as int,
        ),
        used.len() == precursors.len(),
        released.len() == byproducts.len(),
        forall|j: int|
            0 <= j < used.len() ==> {
                &&& (#[trigger] used[j]).formula == precursors[j].formula
                &&& used[j].moles == moles[j]
                &&& used[j].grams == moles[j] * precursors[j].molar_mass
                &&& moles[j] >= 0real
            },
        forall|j: int|
            0 <= j < released.len() ==> {
                &&& (#[trigger] released[j]).formula == byproducts[j].formula
                &&& released[j].moles == moles[precursors.len() + j]
                &&& released[j].grams == moles[precursors.len() + j] * byproducts[j].molar_mass
                &&& moles[precursors.len() + j] >= 0real
            },
{
    let t = moles_of::<Exact>(target, mass);
    let rows = balance_rows::<Exact>(target, t, precursors, byproducts);
    let p = precursors.len() as int;
    let n = p + byproducts.len();
    assert(wide_enough(rows, n));
    law_tolerance_is_harmless(rows, n, eps);
    law_solution_is_the_only_one(rows, n);
    lemma_decisive(rows, Seq::empty(), 0, n, eps);
    let moles = match solution::<Exact>(rows, n, eps) {
        Ok(moles) => moles,
        Err(_) => Seq::empty(),
    };
    let (end, columns) = eliminated::<Exact>(rows, Seq::empty(), 0, n, eps);
    lemma_solution_entries(rows, n, eps);
    assert forall|j: int| 0 <= j < n implies clear_cut(#[trigger] moles[j], eps) by {
        assert(clear_cut(end[j][n], eps));
    }
    let front = moles.take(p);
    let back = moles.skip(p);
    assert forall|j: int| 0 <= j < precursors.len() implies clear_cut(#[trigger] front[j], eps) by {
        assert(front[j] == moles[j]);
    }
    assert forall|j: int| 0 <= j < byproducts.len() implies clear_cut(#[trigger] back[j], eps) by {
        assert(back[j] == moles[p + j]);
    }
    lemma_amounts(precursors, front, eps, used);
    lemma_amounts(byproducts, back, eps, released);
    moles
}

/// A solution is read off the last column of rows that exist.
proof fn lemma_solution_entries(rows: Seq<Seq<real>>, n: int, eps: real)
    requires
        0 <= n,
        wide_enough(rows, n),
        eps >= 0real,
        decisive(rows, Seq::empty(), 0, n, eps),
    ensures
        ({
            let (end, columns) = eliminated::<Exact>(rows, Seq::empty(), 0, n, eps);
            solution::<Exact>(rows, n, eps) matches Ok(values) ==> values.len() == n && n
                <= end.len() && forall|j: int| 0 <= j < n ==> values[j] == #[trigger] end[j][n]
        }),
{
    lemma_decisive(rows, Seq::empty(), 0, n, eps);
    lemma_enough_rows(rows, n);
}

/// Law: the amounts found balance each element. What the precursors bring in of it equals what
/// the target and the byproducts hold. There is one amount for each compound, in order, and none
/// is negative.
pub proof fn law_elements_balance(
    target: Substance<real>,
    mass: real,
    precursors: Seq<Substance<real>>,
    byproducts: Seq<Substance<real>>,
    eps: real,
    element: Seq<char>,
)
    requires
        eps >= 0real,
        decisive_balance(target, mass, precursors, byproducts, eps),
    ensures
        reaction_amounts::<Exact>(target, mass, precursors, byproducts, eps) matches Ok(
            (used, released),
        ) ==> {
            &&& element_moles(precursors, used, element) == count_or_zero::<Exact>(
                target.atoms,
                element,
            ) * moles_of::<Exact>(target, mass) + element_moles(byproducts, released, element)
            &&& used.len() == precursors.len()
            &&& released.len() == byproducts.len()
            &&& forall|j: int|
                0 <= j < used.len() ==> (#[trigger] used[j]).formula == precursors[j].formula
                    && used[j].moles >= 0real
            &&& forall|j: int|
                0 <= j < released.len() ==> (#[trigger] released[j]).formula
                    == byproducts[j].formula && released[j].moles >= 0real
        },
{
    if let Ok((used, released)) = reaction_amounts::<Exact>(
        target,
        mass,
        precursors,
        byproducts,
        eps,
    ) {
        let moles = lemma_reaction(target, mass, precursors, byproducts, eps, used, released);
        let t = moles_of::<Exact>(target, mass);
        let p = precursors.len() as int;
        let n = p + byproducts.len();
        let f = |j: int| count_or_zero::<Exact>(precursors[j].atoms, element) * used[j].moles;
        let g = |j: int| count_or_zero::<Exact>(byproducts[j].atoms, element) * released[j].moles;
        let f1 = |j: int| count_or_zero::<Exact>(precursors[j].atoms, element) * moles[j];
        let g1 = |j: int| count_or_zero::<Exact>(byproducts[j].atoms, element) * moles[p + j];
        lemma_total_same(f, f1, p);
        lemma_total_same(g, g1, n - p);
        lemma_rows_say_balanced(target, t, precursors, byproducts, moles);
        assert(balances(target, t, precursors, byproducts, moles, element));
    }
}

/// Whether numbers of moles, first of the precursors and then of the byproducts, balance each
/// element: what the precursors bring in of it equals what the target and the byproducts hold.
pub open spec fn balanced(
    target: Substance<real>,
    target_moles: real,
    precursors: Seq<Substance<real>>,
    byproducts: Seq<Substance<real>>,
    moles: Seq<real>,
) -> bool {
    &&& moles.len() == precursors.len() + byproducts.len()
    &&& forall|element: Seq<char>| #[trigger]
        balances(target, target_moles, precursors, byproducts, moles, element)
}

/// Whether numbers of moles balance one element.
pub open spec fn balances(
    target: Substance<real>,
    target_moles: real,
    precursors: Seq<Substance<real>>,
    byproducts: Seq<Substance<real>>,
    moles: Seq<real>,
    element: Seq<char>,
) -> bool {
    total(
        |j: int| count_or_zero::<Exact>(precursors[j].atoms, element) * moles[j],
        precursors.len() as int,
    ) == count_or_zero::<Exact>(target.atoms, element) * target_moles + total(
        |j: int|
            count_or_zero::<Exact>(byproducts[j].atoms, element) * moles[precursors.len() + j],
        byproducts.len() as int,
    )
}

/// The rows that are solved say that each element is balanced, and nothing else.
proof fn lemma_rows_say_balanced(
    target: Substance<real>,
    t: real,
    precursors: Seq<Substance<real>>,
    byproducts: Seq<Substance<real>>,
    moles: Seq<real>,
)
    ensures
        solves(
            balance_rows::<Exact>(target, t, precursors, byproducts),
            moles,
            (precursors.len() + byproducts.len()) as int,
        ) <==> balanced(target, t, precursors, byproducts, moles),
{
    let p = precursors.len() as int;
    let n = p + byproducts.len();
    let rows = balance_rows::<Exact>(target, t, precursors, byproducts);
    let elements = elements_of(target, precursors, byproducts);
    lemma_elements_of(target, precursors, byproducts);
    if solves(rows, moles, n) {
        assert forall|element: Seq<char>| #[trigger]
            balances(target, t, precursors, byproducts, moles, element) by {
            if elements.contains(element) {
                let i = choose|i: int| 0 <= i < elements.len() && elements[i] == element;
                assert(rows[i] == balance_row::<Exact>(element, target, t, precursors, byproducts));
                assert(holds(rows[i], moles, n));
                lemma_row_says_balance(element, target, t, precursors, byproducts, moles);
            } else {
                lemma_absent_is_balanced(element, target, t, precursors, byproducts, moles);
            }
        }
    }
    if balanced(target, t, precursors, byproducts, moles) {
        assert forall|i: int| 0 <= i < rows.len() implies holds(#[trigger] rows[i], moles, n) by {
            let element = elements[i];
            assert(rows[i] == balance_row::<Exact>(element, target, t, precursors, byproducts));
            assert(balances(target, t, precursors, byproducts, moles, element));
            lemma_row_says_balance(element, target, t, precursors, byproducts, moles);
        }
    }
}

/// The row of an element says that the element is balanced.
proof fn lemma_row_says_balance(
    element: Seq<char>,
    target: Substance<real>,
    t: real,
    precursors: Seq<Substance<real>>,
    byproducts: Seq<Substance<real>>,
    moles: Seq<real>,
)
    ensures
        holds(
            balance_row::<Exact>(element, target, t, precursors, byproducts),
            moles,
            (precursors.len() + byproducts.len()) as int,
        ) <==> balances(target, t, precursors, byproducts, moles, element),
{
    let n = (precursors.len() + byproducts.len()) as int;
    lemma_row_balance(element, target, t, precursors, byproducts, moles, n);
    let g = |j: int|
        count_or_zero::<Exact>(byproducts[j].atoms, element) * moles[precursors.len() + j];
    if byproducts.len() == 0 {
        assert(total(g, 0) == 0real);
    }
}

/// An element that no compound holds is balanced.
proof fn lemma_absent_is_balanced(
    element: Seq<char>,
    target: Substance<real>,
    t: real,
    precursors: Seq<Substance<real>>,
    byproducts: Seq<Substance<real>>,
    moles: Seq<real>,
)
    requires
        !elements_of(target, precursors, byproducts).contains(element),
    ensures
        balances(target, t, precursors, byproducts, moles, element),
{
    let p = precursors.len() as int;
    let f = |j: int| count_or_zero::<Exact>(precursors[j].atoms, element) * moles[j];
    let g = |j: int| count_or_zero::<Exact>(byproducts[j].atoms, element) * moles[p + j];
    lemma_elements_of(target, precursors, byproducts);
    assert forall|j: int| 0 <= j < p implies #[trigger] f(j) == 0real by {
        lemma_absent(precursors[j].atoms, element);
        lemma_zero_and_one(moles[j]);
    }
    assert forall|j: int| 0 <= j < byproducts.len() implies #[trigger] g(j) == 0real by {
        lemma_absent(byproducts[j].atoms, element);
        lemma_zero_and_one(moles[p + j]);
    }
    lemma_total_zero(f, p);
    lemma_total_zero(g, byproducts.len() as int);
    lemma_absent(target.atoms, element);
    lemma_zero_and_one(t);
}

/// Law: a tolerance of zero decides nothing wrongly.
pub proof fn law_zero_tolerance_is_decisive(
    target: Substance<real>,
    mass: real,
    precursors: Seq<Substance<real>>,
    byproducts: Seq<Substance<real>>,
)
    ensures
        decisive_balance(target, mass, precursors, byproducts, 0real),
{
    lemma_zero_is_decisive(
        balance_rows::<Exact>(target, moles_of::<Exact>(target, mass), precursors, byproducts),
        Seq::empty(),
        0,
        (precursors.len() + byproducts.len()) as int,
    );
}

proof fn lemma_zero_is_decisive(
    rows: Seq<Seq<real>>,
    columns: Seq<int>,
    column: int,
    unknowns: int,
)
    ensures
        decisive(rows, columns, column, unknowns, 0real),
    decreases unknowns - column,
{
    if column < unknowns {
        match pivot::<Exact>(rows, column, columns.len() as int, 0real) {
            Some(chosen) => lemma_zero_is_decisive(
                pivoted::<Exact>(rows, columns.len() as int, chosen, column, unknowns, 0real),
                columns.push(column),
                column + 1,
                unknowns,
            ),
            None => lemma_zero_is_decisive(rows, columns, column + 1, unknowns),
        }
    }
}

/// Amounts are refused only for a negative number of moles.
proof fn lemma_refused_amounts(
    compounds: Seq<Substance<real>>,
    moles: Seq<real>,
    eps: real,
    fault: CalculationFault<real>,
)
    requires
        eps >= 0real,
        amounts::<Exact>(compounds, moles, eps) == Err::<Seq<Amount<real>>, CalculationFault<real>>(
            fault,
        ),
    ensures
        exists|j: int|
            0 <= j < compounds.len() && #[trigger] moles[j] < 0real && fault
                == (CalculationFault::NegativeAmount {
                formula: compounds[j].formula,
                moles: moles[j],
            }),
    decreases compounds.len(),
{
    if compounds.len() > 0 {
        let last = compounds.len() - 1;
        match amounts::<Exact>(compounds.drop_last(), moles, eps) {
            Err(earlier) => {
                lemma_refused_amounts(compounds.drop_last(), moles, eps, earlier);
                let j = choose|j: int|
                    0 <= j < compounds.drop_last().len() && #[trigger] moles[j] < 0real && fault
                        == (CalculationFault::NegativeAmount {
                        formula: compounds.drop_last()[j].formula,
                        moles: moles[j],
                    });
                assert(compounds.drop_last()[j] == compounds[j]);
                assert(moles[j] < 0real);
            },
            Ok(front) => {
                assert(moles[last] < 0real);
            },
        }
    }
}

/// The formula of a compound of a reaction, counting the precursors first.
pub open spec fn formula_at(
    precursors: Seq<Substance<real>>,
    byproducts: Seq<Substance<real>>,
    j: int,
) -> Seq<char> {
    if j < precursors.len() {
        precursors[j].formula
    } else {
        byproducts[j - precursors.len()].formula
    }
}

/// Whether some numbers of moles are the only ones that balance a reaction.
pub open spec fn only_balance(
    target: Substance<real>,
    target_moles: real,
    precursors: Seq<Substance<real>>,
    byproducts: Seq<Substance<real>>,
    moles: Seq<real>,
) -> bool {
    &&& balanced(target, target_moles, precursors, byproducts, moles)
    &&& forall|other: Seq<real>| #[trigger]
        balanced(target, target_moles, precursors, byproducts, other) ==> other == moles
}

/// Law: amounts are found if and only if exactly one choice of amounts balances the elements and
/// none of them is negative; they are then that choice. A refusal says why: no choice balances the
/// elements, or more than one does, or the only one has a negative amount of the compound named.
pub proof fn law_refusals_are_justified(
    target: Substance<real>,
    mass: real,
    precursors: Seq<Substance<real>>,
    byproducts: Seq<Substance<real>>,
    eps: real,
)
    requires
        eps >= 0real,
        decisive_balance(target, mass, precursors, byproducts, eps),
    ensures
        ({
            let t = moles_of::<Exact>(target, mass);
            let p = precursors.len() as int;
            match reaction_amounts::<Exact>(target, mass, precursors, byproducts, eps) {
                Ok((used, released)) => exists|moles: Seq<real>|
                    {
                        &&& #[trigger] only_balance(target, t, precursors, byproducts, moles)
                        &&& forall|j: int| 0 <= j < moles.len() ==> #[trigger] moles[j] >= 0real
                        &&& forall|j: int|
                            0 <= j < p ==> (#[trigger] used[j]).moles == moles[j]
                        &&& forall|j: int|
                            0 <= j < byproducts.len() ==> (#[trigger] released[j]).moles
                                == moles[p + j]
                    },
                Err(CalculationFault::Inconsistent) => forall|moles: Seq<real>|
                    !#[trigger] balanced(target, t, precursors, byproducts, moles),
                Err(CalculationFault::NotUnique) => exists|v: Seq<real>, w: Seq<real>|
                    v != w && #[trigger] balanced(target, t, precursors, byproducts, v)
                        && #[trigger] balanced(target, t, precursors, byproducts, w),
                Err(CalculationFault::NegativeAmount { formula, moles: amount }) => exists|
                    moles: Seq<real>,
                    j: int,
                |
                    {
                        &&& #[trigger] only_balance(target, t, precursors, byproducts, moles)
                        &&& 0 <= j < moles.len()
                        &&& #[trigger] moles[j] == amount
                        &&& amount < 0real
                        &&& formula == formula_at(precursors, byproducts, j)
                    },
            }
        }),
{
    let t = moles_of::<Exact>(target, mass);
    let rows = balance_rows::<Exact>(target, t, precursors, byproducts);
    let p = precursors.len() as int;
    let n = p + byproducts.len();
    assert(wide_enough(rows, n));
    law_tolerance_is_harmless(rows, n, eps);
    law_solution_is_the_only_one(rows, n);
    assert forall|moles: Seq<real>| #[trigger]
        balanced(target, t, precursors, byproducts, moles) <==> solves(rows, moles, n) by {
        lemma_rows_say_balanced(target, t, precursors, byproducts, moles);
    }
    match solution::<Exact>(rows, n, eps) {
        Err(CalculationFault::NotUnique) => {
            let (v, w) = choose|v: Seq<real>, w: Seq<real>|
                v != w && #[trigger] solves(rows, v, n) && #[trigger] solves(rows, w, n);
            assert(balanced(target, t, precursors, byproducts, v));
            assert(balanced(target, t, precursors, byproducts, w));
        },
        Err(_) => {},
        Ok(moles) => {
            assert(balanced(target, t, precursors, byproducts, moles));
            assert(only_balance(target, t, precursors, byproducts, moles));
            let front = moles.take(p);
            let back = moles.skip(p);
            match amounts::<Exact>(precursors, front, eps) {
                Err(fault) => {
                    lemma_refused_amounts(precursors, front, eps, fault);
                    let j = choose|j: int|
                        0 <= j < precursors.len() && #[trigger] front[j] < 0real && fault
                            == (CalculationFault::NegativeAmount {
                            formula: precursors[j].formula,
                            moles: front[j],
                        });
                    assert(moles[j] == front[j]);
                },
                Ok(used) => match amounts::<Exact>(byproducts, back, eps) {
                    Err(fault) => {
                        lemma_refused_amounts(byproducts, back, eps, fault);
                        let j = choose|j: int|
                            0 <= j < byproducts.len() && #[trigger] back[j] < 0real && fault
                                == (CalculationFault::NegativeAmount {
                                formula: byproducts[j].formula,
                                moles: back[j],
                            });
                        assert(moles[p + j] == back[j]);
                        assert(formula_at(precursors, byproducts, p + j) == byproducts[j].formula);
                    },
                    Ok(released) => {
                        let found = lemma_reaction(
                            target,
                            mass,
                            precursors,
                            byproducts,
                            eps,
                            used,
                            released,
                        );
                        assert(solves(rows, found, n));
                        assert(found == moles);
                        assert forall|j: int| 0 <= j < moles.len() implies #[trigger] moles[j]
                            >= 0real by {
                            if j < p {
                                assert(used[j].moles == moles[j]);
                            } else {
                                assert(released[j - p].moles == moles[j]);
                            }
                        }
                    },
                },
            }
        },
    }
}

/// The weight of an element, or zero.
pub open spec fn weight_or_zero(element: Seq<char>) -> real {
    match weight_of::<Exact>(element) {
        Some(weight) => weight,
        None => 0real,
    }
}

/// The molar mass of atoms, summed over a list that holds each of their elements once.
proof fn lemma_mass_over_elements(
    atoms: Seq<(Seq<char>, real)>,
    elements: Seq<Seq<char>>,
    mass: real,
)
    requires
        ordered(atoms),
        ascending(elements),
        mass_of::<Exact>(atoms) == Ok::<real, FormulaFault>(mass),
        forall|e: Seq<char>| #[trigger] keys(atoms).contains(e) ==> elements.contains(e),
    ensures
        total(
            |i: int| weight_or_zero(elements[i]) * count_or_zero::<Exact>(atoms, elements[i]),
            elements.len() as int,
        ) == mass,
    decreases atoms.len(),
{
    let n = elements.len() as int;
    let f = |i: int| weight_or_zero(elements[i]) * count_or_zero::<Exact>(atoms, elements[i]);
    if atoms.len() == 0 {
        assert forall|i: int| 0 <= i < n implies #[trigger] f(i) == 0real by {
            lemma_zero_and_one(weight_or_zero(elements[i]));
        }
        lemma_total_zero(f, n);
    } else {
        let front = atoms.drop_last();
        let last = atoms.last();
        assert(atoms == front.push(last));
        assert(ordered(front));
        assert forall|e: Seq<char>| #[trigger] keys(front).contains(e) implies elements.contains(
            e,
        ) by {
            let k = choose|k: int| 0 <= k < keys(front).len() && keys(front)[k] == e;
            assert(keys(atoms)[k] == e);
            assert(keys(atoms).contains(e));
        }
        let before = match mass_of::<Exact>(front) {
            Ok(before) => before,
            Err(_) => 0real,
        };
        lemma_mass_over_elements(front, elements, before);
        assert(keys(atoms)[atoms.len() - 1] == last.0);
        assert(keys(atoms).contains(last.0));
        let k = choose|k: int| 0 <= k < elements.len() && elements[k] == last.0;
        // The last element does not occur among the others.
        lemma_count_in_some(front, last.0);
        if count_in(front, last.0) is Some {
            let i = choose|i: int| 0 <= i < front.len() && (#[trigger] front[i]).0 == last.0;
            assert(precedes(atoms[i].0, atoms[atoms.len() - 1].0));
            lemma_precedes_irreflexive(last.0);
        }
        let g = |i: int| weight_or_zero(elements[i]) * count_or_zero::<Exact>(front, elements[i]);
        let h = |i: int|
            if i == k {
                weight_or_zero(last.0) * last.1
            } else {
                0real
            };
        assert forall|i: int| 0 <= i < n implies #[trigger] f(i) == g(i) + h(i) by {
            lemma_count_in_push(front, last, elements[i]);
            if i == k {
                lemma_zero_and_one(weight_or_zero(elements[i]));
            } else if elements[i] == last.0 {
                if i < k {
                    assert(precedes(elements[i], elements[k]));
                } else {
                    assert(precedes(elements[k], elements[i]));
                }
                lemma_precedes_irreflexive(last.0);
            }
        }
        lemma_total_same(f, |i: int| g(i) + h(i), n);
        lemma_total_sum(g, h, n);
        lemma_total_one(h, n, k);
    }
}

/// The mass of some amounts, summed element by element.
proof fn lemma_grams_by_element(
    compounds: Seq<Substance<real>>,
    shares: Seq<Amount<real>>,
    elements: Seq<Seq<char>>,
)
    requires
        ascending(elements),
        shares.len() == compounds.len(),
        forall|j: int| 0 <= j < compounds.len() ==> consistent(#[trigger] compounds[j]),
        forall|j: int|
            0 <= j < shares.len() ==> (#[trigger] shares[j]).grams == shares[j].moles
                * compounds[j].molar_mass,
        forall|e: Seq<char>, j: int|
            0 <= j < compounds.len() && #[trigger] keys(compounds[j].atoms).contains(e)
                ==> elements.contains(e),
    ensures
        total_grams(shares) == total(
            |i: int| weight_or_zero(elements[i]) * element_moles(compounds, shares, elements[i]),
            elements.len() as int,
        ),
{
    let p = compounds.len() as int;
    let n = elements.len() as int;
    let h = |j: int, i: int|
        weight_or_zero(elements[i]) * (count_or_zero::<Exact>(compounds[j].atoms, elements[i])
            * shares[j].moles);
    let by_compound = |j: int| total(|i: int| h(j, i), n);
    let by_element = |i: int| total(|j: int| h(j, i), p);
    let grams = |j: int| shares[j].grams;
    assert forall|j: int| 0 <= j < p implies #[trigger] grams(j) == by_compound(j) by {
        let m = shares[j].moles;
        let part = |i: int|
            weight_or_zero(elements[i]) * count_or_zero::<Exact>(compounds[j].atoms, elements[i]);
        assert(consistent(compounds[j]));
        lemma_mass_over_elements(compounds[j].atoms, elements, compounds[j].molar_mass);
        lemma_total_times(part, m, n);
        let scaled_part = |i: int| m * part(i);
        assert forall|i: int| 0 <= i < n implies #[trigger] scaled_part(i) == h(j, i) by {
            let w = weight_or_zero(elements[i]);
            let c = count_or_zero::<Exact>(compounds[j].atoms, elements[i]);
            lemma_rotate(m, w, c);
        }
        lemma_total_same(scaled_part, |i: int| h(j, i), n);
        assert(shares[j].grams == m * compounds[j].molar_mass);
    }
    lemma_total_same(grams, by_compound, p);
    lemma_total_swap(h, p, n);
    let goal = |i: int|
        weight_or_zero(elements[i]) * element_moles(compounds, shares, elements[i]);
    assert forall|i: int| 0 <= i < n implies #[trigger] by_element(i) == goal(i) by {
        let w = weight_or_zero(elements[i]);
        let f = |j: int| count_or_zero::<Exact>(compounds[j].atoms, elements[i]) * shares[j].moles;
        lemma_total_times(f, w, p);
        lemma_total_same(|j: int| h(j, i), |j: int| w * f(j), p);
    }
    lemma_total_same(by_element, goal, n);
}

/// Law: mass is conserved. The precursors that are used weigh as much as the wanted mass of the
/// target and the byproducts together.
pub proof fn law_mass_is_conserved(
    target: Substance<real>,
    mass: real,
    precursors: Seq<Substance<real>>,
    byproducts: Seq<Substance<real>>,
    eps: real,
)
    requires
        eps >= 0real,
        decisive_balance(target, mass, precursors, byproducts, eps),
        consistent(target),
        target.molar_mass != 0real,
        forall|j: int| 0 <= j < precursors.len() ==> consistent(#[trigger] precursors[j]),
        forall|j: int| 0 <= j < byproducts.len() ==> consistent(#[trigger] byproducts[j]),
    ensures
        reaction_amounts::<Exact>(target, mass, precursors, byproducts, eps) matches Ok(
            (used, released),
        ) ==> total_grams(used) == mass + total_grams(released),
{
    if let Ok((used, released)) = reaction_amounts::<Exact>(
        target,
        mass,
        precursors,
        byproducts,
        eps,
    ) {
        let moles = lemma_reaction(target, mass, precursors, byproducts, eps, used, released);
        let t = moles_of::<Exact>(target, mass);
        let elements = elements_of(target, precursors, byproducts);
        let n = elements.len() as int;
        lemma_elements_of(target, precursors, byproducts);
        assert forall|e: Seq<char>| #[trigger] keys(target.atoms).contains(e) implies elements.contains(
            e,
        ) by {}
        lemma_grams_by_element(precursors, used, elements);
        lemma_grams_by_element(byproducts, released, elements);
        lemma_mass_over_elements(target.atoms, elements, target.molar_mass);
        let input = |i: int|
            weight_or_zero(elements[i]) * element_moles(precursors, used, elements[i]);
        let output = |i: int|
            weight_or_zero(elements[i]) * element_moles(byproducts, released, elements[i]);
        let unit = |i: int|
            weight_or_zero(elements[i]) * count_or_zero::<Exact>(target.atoms, elements[i]);
        let product = |i: int| t * unit(i);
        lemma_total_times(unit, t, n);
        assert forall|i: int| 0 <= i < n implies #[trigger] input(i) == product(i) + output(i) by {
            law_elements_balance(target, mass, precursors, byproducts, eps, elements[i]);
            let w = weight_or_zero(elements[i]);
            let c = count_or_zero::<Exact>(target.atoms, elements[i]);
            let o = element_moles(byproducts, released, elements[i]);
            lemma_distribute(w, c * t, o);
            lemma_rotate(t, w, c);
        }
        lemma_total_same(input, |i: int| product(i) + output(i), n);
        lemma_total_sum(product, output, n);
        lemma_quotient(mass, target.molar_mass);
    }
}

/// Numbers, each times a factor.
pub open spec fn multiplied(values: Seq<real>, factor: real) -> Seq<real> {
    Seq::new(values.len(), |j: int| factor * values[j])
}

/// Amounts, each times a factor.
pub open spec fn multiplied_amounts(shares: Seq<Amount<real>>, factor: real) -> Seq<Amount<real>> {
    Seq::new(
        shares.len(),
        |j: int|
            Amount {
                formula: shares[j].formula,
                moles: factor * shares[j].moles,
                grams: factor * shares[j].grams,
            },
    )
}

proof fn lemma_swap_factors(c: real, k: real, x: real)
    by (nonlinear_arith)
    ensures
        c * (k * x) == k * (c * x),
        (k * x) * c == k * (x * c),
{
}

proof fn lemma_inverse(k: real, x: real)
    requires
        k > 0real,
    ensures
        1real / k > 0real,
        k * ((1real / k) * x) == x,
        (1real / k) * (k * x) == x,
{
    let r = 1real / k;
    lemma_quotient(1real, k);
    assert(r > 0real) by (nonlinear_arith)
        requires
            r * k == 1real,
            k > 0real,
    ;
    assert(k * (r * x) == (r * k) * x) by (nonlinear_arith);
    assert(r * (k * x) == (r * k) * x) by (nonlinear_arith);
    lemma_zero_and_one(x);
}

proof fn lemma_sign(k: real, x: real)
    by (nonlinear_arith)
    requires
        k > 0real,
    ensures
        k * x < 0real <==> x < 0real,
{
}

/// What balances a reaction, times a factor, balances the reaction times the factor.
proof fn lemma_balance_scales(
    target: Substance<real>,
    t: real,
    precursors: Seq<Substance<real>>,
    byproducts: Seq<Substance<real>>,
    moles: Seq<real>,
    k: real,
)
    requires
        balanced(target, t, precursors, byproducts, moles),
    ensures
        balanced(target, k * t, precursors, byproducts, multiplied(moles, k)),
{
    let p = precursors.len() as int;
    let more = multiplied(moles, k);
    assert forall|element: Seq<char>| #[trigger]
        balances(target, k * t, precursors, byproducts, more, element) by {
        assert(balances(target, t, precursors, byproducts, moles, element));
        let f = |j: int| count_or_zero::<Exact>(precursors[j].atoms, element) * moles[j];
        let g = |j: int| count_or_zero::<Exact>(byproducts[j].atoms, element) * moles[p + j];
        let f1 = |j: int| count_or_zero::<Exact>(precursors[j].atoms, element) * more[j];
        let g1 = |j: int| count_or_zero::<Exact>(byproducts[j].atoms, element) * more[p + j];
        assert forall|j: int| 0 <= j < p implies #[trigger] f1(j) == k * f(j) by {
            lemma_swap_factors(
                count_or_zero::<Exact>(precursors[j].atoms, element),
                k,
                moles[j],
            );
        }
        assert forall|j: int| 0 <= j < byproducts.len() implies #[trigger] g1(j) == k * g(j) by {
            lemma_swap_factors(
                count_or_zero::<Exact>(byproducts[j].atoms, element),
                k,
                moles[p + j],
            );
        }
        lemma_total_same(f1, |j: int| k * f(j), p);
        lemma_total_same(g1, |j: int| k * g(j), byproducts.len() as int);
        lemma_total_times(f, k, p);
        lemma_total_times(g, k, byproducts.len() as int);
        let c = count_or_zero::<Exact>(target.atoms, element);
        lemma_swap_factors(c, k, t);
        lemma_distribute(k, c * t, total(g, byproducts.len() as int));
    }
}

/// The only choice that balances a reaction, times a factor, is the only one that balances the
/// reaction times the factor.
proof fn lemma_solution_scales(
    target: Substance<real>,
    t: real,
    precursors: Seq<Substance<real>>,
    byproducts: Seq<Substance<real>>,
    k: real,
)
    requires
        k > 0real,
    ensures
        ({
            let n = (precursors.len() + byproducts.len()) as int;
            let rows = balance_rows::<Exact>(target, t, precursors, byproducts);
            let more = balance_rows::<Exact>(target, k * t, precursors, byproducts);
            solution::<Exact>(more, n, 0real) == match solution::<Exact>(rows, n, 0real) {
                Ok(moles) => Ok(multiplied(moles, k)),
                Err(fault) => Err(fault),
            }
        }),
{
    let r = 1real / k;
    let n = (precursors.len() + byproducts.len()) as int;
    let rows = balance_rows::<Exact>(target, t, precursors, byproducts);
    let more = balance_rows::<Exact>(target, k * t, precursors, byproducts);
    assert(wide_enough(rows, n));
    assert(wide_enough(more, n));
    law_solution_is_the_only_one(rows, n);
    law_solution_is_the_only_one(more, n);
    assert forall|v: Seq<real>| #[trigger] solves(rows, v, n) implies solves(
        more,
        multiplied(v, k),
        n,
    ) by {
        lemma_rows_say_balanced(target, t, precursors, byproducts, v);
        lemma_balance_scales(target, t, precursors, byproducts, v, k);
        lemma_rows_say_balanced(target, k * t, precursors, byproducts, multiplied(v, k));
    }
    assert forall|w: Seq<real>| #[trigger] solves(more, w, n) implies solves(
        rows,
        multiplied(w, r),
        n,
    ) && multiplied(multiplied(w, r), k) == w by {
        lemma_rows_say_balanced(target, k * t, precursors, byproducts, w);
        lemma_balance_scales(target, k * t, precursors, byproducts, w, r);
        lemma_inverse(k, t);
        lemma_rows_say_balanced(target, t, precursors, byproducts, multiplied(w, r));
        assert forall|j: int| 0 <= j < w.len() implies #[trigger] multiplied(
            multiplied(w, r),
            k,
        )[j] == w[j] by {
            lemma_inverse(k, w[j]);
        }
        assert(multiplied(multiplied(w, r), k) =~= w);
    }
    match solution::<Exact>(rows, n, 0real) {
        Ok(v) => {
            assert(solves(more, multiplied(v, k), n));
            if let Err(CalculationFault::NotUnique) = solution::<Exact>(more, n, 0real) {
                let (a, b) = choose|a: Seq<real>, b: Seq<real>|
                    a != b && #[trigger] solves(more, a, n) && #[trigger] solves(more, b, n);
                assert(solves(rows, multiplied(a, r), n));
                assert(solves(rows, multiplied(b, r), n));
            }
        },
        Err(CalculationFault::Inconsistent) => {
            if exists|w: Seq<real>| #[trigger] solves(more, w, n) {
                let w = choose|w: Seq<real>| #[trigger] solves(more, w, n);
                assert(solves(rows, multiplied(w, r), n));
            }
        },
        Err(_) => {
            let (v, w) = choose|v: Seq<real>, w: Seq<real>|
                v != w && #[trigger] solves(rows, v, n) && #[trigger] solves(rows, w, n);
            assert(solves(more, multiplied(v, k), n));
            assert(solves(more, multiplied(w, k), n));
            if let Ok(found) = solution::<Exact>(more, n, 0real) {
                assert(multiplied(v, k) == multiplied(w, k));
                assert forall|j: int| 0 <= j < n implies v[j] == w[j] by {
                    lemma_inverse(k, v[j]);
                    lemma_inverse(k, w[j]);
                    assert(multiplied(v, k)[j] == multiplied(w, k)[j]);
                }
                assert(v =~= w);
            }
        },
    }
}

/// The fault for a reaction times a factor.
pub open spec fn multiplied_fault(fault: CalculationFault<real>, factor: real) -> CalculationFault<
    real,
> {
    match fault {
        CalculationFault::NegativeAmount { formula, moles } => CalculationFault::NegativeAmount {
            formula,
            moles: factor * moles,
        },
        other => other,
    }
}

proof fn lemma_amounts_scale(compounds: Seq<Substance<real>>, moles: Seq<real>, k: real)
    requires
        k > 0real,
        moles.len() >= compounds.len(),
    ensures
        amounts::<Exact>(compounds, multiplied(moles, k), 0real) == match amounts::<Exact>(
            compounds,
            moles,
            0real,
        ) {
            Ok(shares) => Ok(multiplied_amounts(shares, k)),
            Err(fault) => Err(multiplied_fault(fault, k)),
        },
    decreases compounds.len(),
{
    if compounds.len() == 0 {
        assert(multiplied_amounts(Seq::empty(), k) =~= Seq::empty());
    } else {
        let last = compounds.len() - 1;
        lemma_amounts_scale(compounds.drop_last(), moles, k);
        lemma_sign(k, moles[last]);
        lemma_swap_factors(compounds[last].molar_mass, k, moles[last]);
        if let Ok(front) = amounts::<Exact>(compounds.drop_last(), moles, 0real) {
            if moles[last] >= 0real {
                let share = amount::<Exact>(compounds[last], moles[last], 0real);
                assert(multiplied_amounts(front.push(share), k) =~= multiplied_amounts(
                    front,
                    k,
                ).push(amount::<Exact>(compounds[last], k * moles[last], 0real)));
            }
        }
    }
}

/// Law: amounts are proportional to the mass of the target. A multiple of a mass takes the same
/// multiple of each compound, or is refused for the same reason.
pub proof fn law_amounts_scale_with_mass(
    target: Substance<real>,
    mass: real,
    precursors: Seq<Substance<real>>,
    byproducts: Seq<Substance<real>>,
    factor: real,
)
    requires
        factor > 0real,
        target.molar_mass != 0real,
    ensures
        reaction_amounts::<Exact>(target, factor * mass, precursors, byproducts, 0real)
            == match reaction_amounts::<Exact>(target, mass, precursors, byproducts, 0real) {
            Ok((used, released)) => Ok(
                (multiplied_amounts(used, factor), multiplied_amounts(released, factor)),
            ),
            Err(fault) => Err(multiplied_fault(fault, factor)),
        },
{
    let k = factor;
    let d = target.molar_mass;
    let t = moles_of::<Exact>(target, mass);
    let p = precursors.len() as int;
    let n = p + byproducts.len();
    assert((k * mass) / d == k * (mass / d)) by {
        lemma_quotient(k * mass, d);
        lemma_quotient(mass, d);
        lemma_swap_factors(d, k, mass / d);
        lemma_cancel((k * mass) / d, k * (mass / d), d);
    }
    lemma_solution_scales(target, t, precursors, byproducts, k);
    let rows = balance_rows::<Exact>(target, t, precursors, byproducts);
    law_solution_is_the_only_one(rows, n);
    if let Ok(moles) = solution::<Exact>(rows, n, 0real) {
        lemma_amounts_scale(precursors, moles.take(p), k);
        lemma_amounts_scale(byproducts, moles.skip(p), k);
        assert(multiplied(moles, k).take(p) =~= multiplied(moles.take(p), k));
        assert(multiplied(moles, k).skip(p) =~= multiplied(moles.skip(p), k));
    }
}

/// Whether an amount is that of a gas among the first `n` precursors of which more than nothing
/// is used.
pub open spec fn gas_amount<M: Numerals>(
    precursors: Seq<Substance<M::Number>>,
    all: Seq<Amount<M::Number>>,
    n: int,
    share: Amount<M::Number>,
) -> bool {
    exists|j: int|
        0 <= j < n && #[trigger] all[j] == share && gas_formula(precursors[j].formula) && M::below(
            M::integer(0),
            share.moles,
        )
}

proof fn lemma_gases<M: Numerals>(
    precursors: Seq<Substance<M::Number>>,
    all: Seq<Amount<M::Number>>,
    n: int,
)
    ensures
        forall|k: int|
            0 <= k < sorted_out::<M>(precursors, all, true, n).len() ==> gas_amount::<M>(
                precursors,
                all,
                n,
                #[trigger] sorted_out::<M>(precursors, all, true, n)[k],
            ),
    decreases n,
{
    if n > 0 {
        lemma_gases::<M>(precursors, all, n - 1);
        let gases = sorted_out::<M>(precursors, all, true, n);
        let before = sorted_out::<M>(precursors, all, true, n - 1);
        assert forall|k: int| 0 <= k < gases.len() implies gas_amount::<M>(
            precursors,
            all,
            n,
            #[trigger] gases[k],
        ) by {
            if k < before.len() {
                assert(gases[k] == before[k]);
                assert(gas_amount::<M>(precursors, all, n - 1, before[k]));
                let j = choose|j: int|
                    0 <= j < n - 1 && #[trigger] all[j] == before[k] && gas_formula(
                        precursors[j].formula,
                    ) && M::below(M::integer(0), before[k].moles);
                assert(all[j] == gases[k]);
            } else {
                assert(all[n - 1] == gases[k]);
            }
        }
    }
}

/// Law: parting the gases from the rest loses nothing. Each amount ends up in one of the two
/// lists, and what is listed as a gas is a gas of which more than nothing is used.
pub proof fn law_split_loses_nothing<M: Numerals>(
    precursors: Seq<Substance<M::Number>>,
    all: Seq<Amount<M::Number>>,
    n: int,
)
    requires
        0 <= n <= pairs(precursors, all),
    ensures
        sorted_out::<M>(precursors, all, false, n).to_multiset().add(
            sorted_out::<M>(precursors, all, true, n).to_multiset(),
        ) == all.take(n).to_multiset(),
        forall|k: int|
            0 <= k < sorted_out::<M>(precursors, all, true, n).len() ==> gas_amount::<M>(
                precursors,
                all,
                n,
                #[trigger] sorted_out::<M>(precursors, all, true, n)[k],
            ),
    decreases n,
{
    lemma_gases::<M>(precursors, all, n);
    let weighed = sorted_out::<M>(precursors, all, false, n);
    let gases = sorted_out::<M>(precursors, all, true, n);
    if n > 0 {
        law_split_loses_nothing::<M>(precursors, all, n - 1);
        let share = all[n - 1];
        assert(all.take(n) == all.take(n - 1).push(share));
        to_multiset_build(all.take(n - 1), share);
        to_multiset_build(sorted_out::<M>(precursors, all, false, n - 1), share);
        to_multiset_build(sorted_out::<M>(precursors, all, true, n - 1), share);
        assert(weighed.to_multiset().add(gases.to_multiset()) =~= all.take(n).to_multiset());
    } else {
        Seq::<Amount<M::Number>>::empty().to_multiset_ensures();
        assert(all.take(n) == Seq::<Amount<M::Number>>::empty());
        assert(weighed.to_multiset().add(gases.to_multiset()) =~= all.take(n).to_multiset());
    }
}

/// Law: the gases that are supplied rather than weighed are the noble gases and the gases of two
/// like atoms: hydrogen, nitrogen, oxygen, fluorine and chlorine.
pub proof fn law_gases(formula: Seq<char>)
    ensures
        gas_formula(formula) <==> {
            ||| seq!["He"@, "Ne"@, "Ar"@, "Kr"@, "Xe"@, "Rn"@].contains(formula)
            ||| formula.len() > 0 && formula.last() == '2' && seq![
                "H"@,
                "N"@,
                "O"@,
                "F"@,
                "Cl"@,
            ].contains(formula.drop_last())
        },
{
    reveal_strlit("H2");
    reveal_strlit("N2");
    reveal_strlit("O2");
    reveal_strlit("F2");
    reveal_strlit("Cl2");
    reveal_strlit("H");
    reveal_strlit("N");
    reveal_strlit("O");
    reveal_strlit("F");
    reveal_strlit("Cl");
    assert("H2"@.drop_last() == "H"@);
    assert("N2"@.drop_last() == "N"@);
    assert("O2"@.drop_last() == "O"@);
    assert("F2"@.drop_last() == "F"@);
    assert("Cl2"@.drop_last() == "Cl"@);
    assert("H"@.push('2') == "H2"@);
    assert("N"@.push('2') == "N2"@);
    assert("O"@.push('2') == "O2"@);
    assert("F"@.push('2') == "F2"@);
    assert("Cl"@.push('2') == "Cl2"@);
    if formula.len() > 0 && formula.last() == '2' {
        assert(formula == formula.drop_last().push('2'));
    }
    let noble = seq!["He"@, "Ne"@, "Ar"@, "Kr"@, "Xe"@, "Rn"@];
    let atoms = seq!["H"@, "N"@, "O"@, "F"@, "Cl"@];
    assert(noble[0] == "He"@ && noble[1] == "Ne"@ && noble[2] == "Ar"@ && noble[3] == "Kr"@
        && noble[4] == "Xe"@ && noble[5] == "Rn"@);
    assert(atoms[0] == "H"@ && atoms[1] == "N"@ && atoms[2] == "O"@ && atoms[3] == "F"@ && atoms[4]
        == "Cl"@);
}

/// The amount that is listed for a number of moles: the number, or zero where it is smaller than
/// what counts, under the formula of the compound, with the mass that many moles have.
pub open spec fn amount_for<M: Numerals>(
    compound: Substance<M::Number>,
    moles: M::Number,
    eps: M::Number,
    share: Amount<M::Number>,
) -> bool {
    &&& share.formula == compound.formula
    &&& M::below(M::size(moles), eps) ==> share.moles == M::integer(0)
    &&& !M::below(M::size(moles), eps) ==> share.moles == moles
    &&& share.grams == M::product(share.moles, compound.molar_mass)
}

proof fn lemma_amounts_each<M: Numerals>(
    compounds: Seq<Substance<M::Number>>,
    moles: Seq<M::Number>,
    eps: M::Number,
)
    ensures
        match amounts::<M>(compounds, moles, eps) {
            Ok(shares) => {
                &&& shares.len() == compounds.len()
                &&& forall|j: int|
                    0 <= j < compounds.len() ==> amount_for::<M>(
                        compounds[j],
                        moles[j],
                        eps,
                        #[trigger] shares[j],
                    )
                &&& forall|j: int|
                    0 <= j < compounds.len() ==> !M::below(#[trigger] moles[j], M::opposite(eps))
            },
            Err(fault) => exists|j: int|
                {
                    &&& 0 <= j < compounds.len()
                    &&& M::below(#[trigger] moles[j], M::opposite(eps))
                    &&& forall|k: int|
                        0 <= k < j ==> !M::below(#[trigger] moles[k], M::opposite(eps))
                    &&& fault == (CalculationFault::NegativeAmount {
                        formula: compounds[j].formula,
                        moles: moles[j],
                    })
                },
        },
    decreases compounds.len(),
{
    if compounds.len() > 0 {
        let front = compounds.drop_last();
        let last = compounds.len() - 1;
        lemma_amounts_each::<M>(front, moles, eps);
        match amounts::<M>(front, moles, eps) {
            Ok(before) => {
                if let Ok(shares) = amounts::<M>(compounds, moles, eps) {
                    assert forall|j: int| 0 <= j < compounds.len() implies amount_for::<M>(
                        compounds[j],
                        moles[j],
                        eps,
                        #[trigger] shares[j],
                    ) by {
                        if j < last {
                            assert(shares[j] == before[j]);
                            assert(front[j] == compounds[j]);
                        }
                    }
                } else {
                    assert(M::below(moles[last], M::opposite(eps)));
                }
            },
            Err(fault) => {
                let j = choose|j: int|
                    {
                        &&& 0 <= j < front.len()
                        &&& M::below(#[trigger] moles[j], M::opposite(eps))
                        &&& forall|k: int|
                            0 <= k < j ==> !M::below(#[trigger] moles[k], M::opposite(eps))
                        &&& fault == (CalculationFault::NegativeAmount {
                            formula: front[j].formula,
                            moles: moles[j],
                        })
                    };
                assert(M::below(moles[j], M::opposite(eps)));
                assert(front[j] == compounds[j]);
            },
        }
    }
}

/// Law: the amounts are those that solve the balances of the elements. Each compound is listed in
/// its place with the number of moles found for it, or zero where that is smaller than what counts,
/// and with the mass of that many moles. The first number that is negative by more than what counts
/// is refused, and the compound is named.
pub proof fn law_amounts_are_those_solved<M: Numerals>(
    target: Substance<M::Number>,
    mass: M::Number,
    precursors: Seq<Substance<M::Number>>,
    byproducts: Seq<Substance<M::Number>>,
    eps: M::Number,
)
    ensures
        ({
            let p = precursors.len() as int;
            let rows = balance_rows::<M>(
                target,
                M::quotient(mass, target.molar_mass),
                precursors,
                byproducts,
            );
            let result = reaction_amounts::<M>(target, mass, precursors, byproducts, eps);
            match solution::<M>(rows, (p + byproducts.len()) as int, eps) {
                Err(fault) => result == Err::<
                    (Seq<Amount<M::Number>>, Seq<Amount<M::Number>>),
                    CalculationFault<M::Number>,
                >(fault),
                Ok(moles) => match result {
                    Ok((used, released)) => {
                        &&& used.len() == p
                        &&& released.len() == byproducts.len()
                        &&& forall|j: int|
                            0 <= j < p ==> amount_for::<M>(
                                precursors[j],
                                moles.take(p)[j],
                                eps,
                                #[trigger] used[j],
                            )
                        &&& forall|j: int|
                            0 <= j < byproducts.len() ==> amount_for::<M>(
                                byproducts[j],
                                moles.skip(p)[j],
                                eps,
                                #[trigger] released[j],
                            )
                    },
                    Err(fault) => {
                        ||| exists|j: int|
                            {
                                &&& 0 <= j < p
                                &&& M::below(#[trigger] moles.take(p)[j], M::opposite(eps))
                                &&& fault == (CalculationFault::NegativeAmount {
                                    formula: precursors[j].formula,
                                    moles: moles.take(p)[j],
                                })
                            }
                        ||| exists|j: int|
                            {
                                &&& 0 <= j < byproducts.len()
                                &&& M::below(#[trigger] moles.skip(p)[j], M::opposite(eps))
                                &&& fault == (CalculationFault::NegativeAmount {
                                    formula: byproducts[j].formula,
                                    moles: moles.skip(p)[j],
                                })
                            }
                    },
                },
            }
        }),
{
    let p = precursors.len() as int;
    let rows = balance_rows::<M>(
        target,
        M::quotient(mass, target.molar_mass),
        precursors,
        byproducts,
    );
    if let Ok(moles) = solution::<M>(rows, (p + byproducts.len()) as int, eps) {
        lemma_amounts_each::<M>(precursors, moles.take(p), eps);
        lemma_amounts_each::<M>(byproducts, moles.skip(p), eps);
    }
}

/// Law: a number counts as zero if it is less than a hundred-millionth away from zero.
pub proof fn law_what_counts_as_zero(number: real)
    ensures
        Exact::below(Exact::size(number), tolerance::<Exact>()) <==> -1real < number
            * 100_000_000real < 1real,
{
    let eps = tolerance::<Exact>();
    assert(Exact::integer(1) == 1real);
    assert(Exact::integer(100_000_000) == 100_000_000real);
    lemma_quotient(1real, 100_000_000real);
    assert(eps * 100_000_000real == 1real);
}

} // verus!
