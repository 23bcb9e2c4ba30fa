//! Amounts of starting materials that yield a given mass of a target compound.
//!
//! The amounts follow from the element balance: for each element, what the precursors bring in
//! equals what the target and the volatile byproducts hold.

use vstd::prelude::*;

use crate::arithmetic::{from_integer, is_below, lawful, magnitude, negated, over, times, Arithmetic, Machine, Numerals};
use crate::formula::{atoms_of, count_or_zero, find_count, AtomCount, Compound, Substance};
use crate::solver::{grid, solution, solve_unique_linear_system, tolerance, tolerance_number, wide_enough, CalculationError, CalculationFault};
use crate::text::{chars_of, insert_text, is_text, texts, with_texts};

verus! {

/// How much of a substance takes part in a reaction.
#[derive(Debug, Clone)]
pub struct WeighingResult<N> {
    pub formula: String,
    pub moles: N,
    pub grams: N,
}

/// What a [`WeighingResult`] says.
pub struct Amount<N> {
    pub formula: Seq<char>,
    pub moles: N,
    pub grams: N,
}

impl<N> View for WeighingResult<N> {
    type V = Amount<N>;

    open spec fn view(&self) -> Amount<N> {
        Amount { formula: self.formula@, moles: self.moles, grams: self.grams }
    }
}

/// The compounds that a sequence holds.
pub open spec fn substances<N>(compounds: Seq<Compound<N>>) -> Seq<Substance<N>> {
    compounds.map_values(|compound: Compound<N>| compound@)
}

/// The amounts that a sequence holds.
pub open spec fn amounts_of<N>(results: Seq<WeighingResult<N>>) -> Seq<Amount<N>> {
    results.map_values(|result: WeighingResult<N>| result@)
}

/// The elements of a compound.
pub open spec fn keys<N>(atoms: Seq<(Seq<char>, N)>) -> Seq<Seq<char>> {
    atoms.map_values(|entry: (Seq<char>, N)| entry.0)
}

/// The elements of some compounds, in order, each once, together with those of a list.
pub open spec fn with_elements<N>(list: Seq<Seq<char>>, compounds: Seq<Substance<N>>) -> Seq<
    Seq<char>,
>
    decreases compounds.len(),
{
    if compounds.len() == 0 {
        list
    } else {
        with_texts(with_elements(list, compounds.drop_last()), keys(compounds.last().atoms))
    }
}

/// The elements that take part in a reaction, in order, each once.
pub open spec fn elements_of<N>(
    target: Substance<N>,
    precursors: Seq<Substance<N>>,
    byproducts: Seq<Substance<N>>,
) -> Seq<Seq<char>> {
    with_elements(
        with_elements(with_texts(Seq::empty(), keys(target.atoms)), precursors),
        byproducts,
    )
}

/// How many moles of a target a mass of it is.
pub open spec fn moles_of<M: Numerals>(target: Substance<M::Number>, mass: M::Number) -> M::Number {
    M::quotient(mass, target.molar_mass)
}

/// The balance of one element: what a mole of each precursor brings in, what a mole of each
/// byproduct takes out, and what the target holds.
pub open spec fn balance_row<M: Numerals>(
    element: Seq<char>,
    target: Substance<M::Number>,
    target_moles: M::Number,
    precursors: Seq<Substance<M::Number>>,
    byproducts: Seq<Substance<M::Number>>,
) -> Seq<M::Number> {
    Seq::new(
        precursors.len() + byproducts.len() + 1,
        |j: int|
            if j < precursors.len() {
                count_or_zero::<M>(precursors[j].atoms, element)
            } else if j < precursors.len() + byproducts.len() {
                M::opposite(count_or_zero::<M>(byproducts[j - precursors.len()].atoms, element))
            } else {
                M::product(count_or_zero::<M>(target.atoms, element), target_moles)
            },
    )
}

/// The balances of all elements that take part in a reaction.
pub open spec fn balance_rows<M: Numerals>(
    target: Substance<M::Number>,
    target_moles: M::Number,
    precursors: Seq<Substance<M::Number>>,
    byproducts: Seq<Substance<M::Number>>,
) -> Seq<Seq<M::Number>> {
    elements_of(target, precursors, byproducts).map_values(
        |element: Seq<char>|
            balance_row::<M>(element, target, target_moles, precursors, byproducts),
    )
}

/// A number of moles, or zero where it counts as zero.
pub open spec fn settled<M: Numerals>(moles: M::Number, eps: M::Number) -> M::Number {
    if M::below(M::size(moles), eps) {
        M::integer(0)
    } else {
        moles
    }
}

/// The amount of a compound for a number of moles.
pub open spec fn amount<M: Numerals>(
    compound: Substance<M::Number>,
    moles: M::Number,
    eps: M::Number,
) -> Amount<M::Number> {
    Amount {
        formula: compound.formula,
        moles: settled::<M>(moles, eps),
        grams: M::product(settled::<M>(moles, eps), compound.molar_mass),
    }
}

/// The amounts of compounds for their numbers of moles. The first that is negative is refused.
pub open spec fn amounts<M: Numerals>(
    compounds: Seq<Substance<M::Number>>,
    moles: Seq<M::Number>,
    eps: M::Number,
) -> Result<Seq<Amount<M::Number>>, CalculationFault<M::Number>>
    decreases compounds.len(),
{
    if compounds.len() == 0 {
        Ok(Seq::empty())
    } else {
        let last = compounds.len() - 1;
        match amounts::<M>(compounds.drop_last(), moles, eps) {
            Err(fault) => Err(fault),
            Ok(front) => if M::below(moles[last], M::opposite(eps)) {
                Err(
                    CalculationFault::NegativeAmount {
                        formula: compounds[last].formula,
                        moles: moles[last],
                    },
                )
            } else {
                Ok(front.push(amount::<M>(compounds[last], moles[last], eps)))
            },
        }
    }
}

/// The amounts of all precursors and of all byproducts of a reaction, or why there are none.
pub open spec fn reaction_amounts<M: Numerals>(
    target: Substance<M::Number>,
    mass: M::Number,
    precursors: Seq<Substance<M::Number>>,
    byproducts: Seq<Substance<M::Number>>,
    eps: M::Number,
) -> Result<(Seq<Amount<M::Number>>, Seq<Amount<M::Number>>), CalculationFault<M::Number>> {
    let rows = balance_rows::<M>(target, moles_of::<M>(target, mass), precursors, byproducts);
    match solution::<M>(rows, (precursors.len() + byproducts.len()) as int, eps) {
        Err(fault) => Err(fault),
        Ok(moles) => match amounts::<M>(precursors, moles.take(precursors.len() as int), eps) {
            Err(fault) => Err(fault),
            Ok(used) => match amounts::<M>(byproducts, moles.skip(precursors.len() as int), eps) {
                Err(fault) => Err(fault),
                Ok(released) => Ok((used, released)),
            },
        },
    }
}

/// The amounts that are more than nothing.
pub open spec fn positive<M: Numerals>(all: Seq<Amount<M::Number>>) -> Seq<Amount<M::Number>>
    decreases all.len(),
{
    if all.len() == 0 {
        all
    } else if M::below(M::integer(0), all.last().moles) {
        positive::<M>(all.drop_last()).push(all.last())
    } else {
        positive::<M>(all.drop_last())
    }
}

/// The formulas of gases that are supplied rather than weighed.
pub open spec fn gas_formula(formula: Seq<char>) -> bool {
    ||| formula == "H2"@
    ||| formula == "N2"@
    ||| formula == "O2"@
    ||| formula == "F2"@
    ||| formula == "Cl2"@
    ||| formula == "He"@
    ||| formula == "Ne"@
    ||| formula == "Ar"@
    ||| formula == "Kr"@
    ||| formula == "Xe"@
    ||| formula == "Rn"@
}

pub fn is_gas_reactant<N>(compound: &Compound<N>) -> (r: bool)
    ensures
        r == gas_formula(compound@.formula),
{
    let chars: Vec<char> = chars_of(compound.formula.as_str());
    is_text(&chars, "H2") || is_text(&chars, "N2") || is_text(&chars, "O2") || is_text(&chars, "F2")
        || is_text(&chars, "Cl2") || is_text(&chars, "He") || is_text(&chars, "Ne") || is_text(
        &chars,
        "Ar",
    ) || is_text(&chars, "Kr") || is_text(&chars, "Xe") || is_text(&chars, "Rn")
}

/// Of the first `n` amounts, those of gases that are used up if `gas`, else the others.
pub open spec fn sorted_out<M: Numerals>(
    precursors: Seq<Substance<M::Number>>,
    all: Seq<Amount<M::Number>>,
    gas: bool,
    n: int,
) -> Seq<Amount<M::Number>>
    decreases n,
{
    if n <= 0 {
        Seq::empty()
    } else {
        let before = sorted_out::<M>(precursors, all, gas, n - 1);
        let supplied = gas_formula(precursors[n - 1].formula) && M::below(
            M::integer(0),
            all[n - 1].moles,
        );
        if supplied == gas {
            before.push(all[n - 1])
        } else {
            before
        }
    }
}

/// How many pairs two sequences make up.
pub open spec fn pairs<S, T>(a: Seq<S>, b: Seq<T>) -> int {
    if a.len() < b.len() {
        a.len() as int
    } else {
        b.len() as int
    }
}

pub(crate) fn copy_result<N: Copy>(result: &WeighingResult<N>) -> (r: WeighingResult<N>)
    ensures
        r@ == result@,
{
    WeighingResult { formula: result.formula.clone(), moles: result.moles, grams: result.grams }
}

/// Parts the amounts that are weighed from those of gases.
pub fn split_gas_reactants<A: Arithmetic>(
    precursors: &[Compound<A::Number>],
    precursor_results: Vec<WeighingResult<A::Number>>,
) -> (r: (Vec<WeighingResult<A::Number>>, Vec<WeighingResult<A::Number>>))
    requires
        lawful::<A>(),
    ensures
        amounts_of(r.0@) == sorted_out::<Machine<A>>(
            substances(precursors@),
            amounts_of(precursor_results@),
            false,
            pairs(substances(precursors@), amounts_of(precursor_results@)),
        ),
        amounts_of(r.1@) == sorted_out::<Machine<A>>(
            substances(precursors@),
            amounts_of(precursor_results@),
            true,
            pairs(substances(precursors@), amounts_of(precursor_results@)),
        ),
{
    let mut weighed: Vec<WeighingResult<A::Number>> = Vec::new();
    let mut gases: Vec<WeighingResult<A::Number>> = Vec::new();
    let ghost compounds = substances(precursors@);
    let ghost all = amounts_of(precursor_results@);
    let zero: A::Number = from_integer::<A>(0);
    let count: usize = if precursors.len() < precursor_results.len() {
        precursors.len()
    } else {
        precursor_results.len()
    };
    assert(amounts_of(weighed@) == Seq::<Amount<A::Number>>::empty());
    assert(amounts_of(gases@) == Seq::<Amount<A::Number>>::empty());
    for i in 0..count
        invariant
            lawful::<A>(),
            count <= precursors@.len(),
            count <= precursor_results@.len(),
            zero == A::integer(0),
            compounds == substances(precursors@),
            all == amounts_of(precursor_results@),
            amounts_of(weighed@) == sorted_out::<Machine<A>>(compounds, all, false, i as int),
            amounts_of(gases@) == sorted_out::<Machine<A>>(compounds, all, true, i as int),
    {
        let ghost weighed_before = weighed@;
        let ghost gases_before = gases@;
        let result: WeighingResult<A::Number> = copy_result(&precursor_results[i]);
        assert(result@ == all[i as int]);
        assert(precursors@[i as int]@ == compounds[i as int]);
        if is_gas_reactant(&precursors[i]) && is_below::<A>(zero, result.moles) {
            gases.push(result);
            assert(amounts_of(gases@) == amounts_of(gases_before).push(result@));
        } else {
            weighed.push(result);
            assert(amounts_of(weighed@) == amounts_of(weighed_before).push(result@));
        }
    }
    (weighed, gases)
}

fn insert_elements<N>(list: &mut Vec<String>, atoms: &Vec<AtomCount<N>>)
    ensures
        texts(final(list)@) == with_texts(texts(old(list)@), keys(atoms_of(atoms@))),
{
    let ghost names = keys(atoms_of(atoms@));
    let ghost start = texts(list@);
    for i in 0..atoms.len()
        invariant
            names == keys(atoms_of(atoms@)),
            texts(list@) == with_texts(start, names.take(i as int)),
    {
        assert(names.take(i + 1).drop_last() == names.take(i as int));
        assert(names.take(i + 1).last() == atoms@[i as int].element@);
        insert_text(list, atoms[i].element.as_str());
    }
    assert(names.take(names.len() as int) == names);
}

fn insert_all_elements<N>(list: &mut Vec<String>, compounds: &[Compound<N>])
    ensures
        texts(final(list)@) == with_elements(texts(old(list)@), substances(compounds@)),
{
    let ghost all = substances(compounds@);
    let ghost start = texts(list@);
    for i in 0..compounds.len()
        invariant
            all == substances(compounds@),
            texts(list@) == with_elements(start, all.take(i as int)),
    {
        assert(all.take(i + 1).drop_last() == all.take(i as int));
        assert(all.take(i + 1).last() == compounds@[i as int]@);
        insert_elements(list, &compounds[i].atoms);
    }
    assert(all.take(all.len() as int) == all);
}

fn number_of<A: Arithmetic>(atoms: &Vec<AtomCount<A::Number>>, element: &str) -> (r: A::Number)
    requires
        lawful::<A>(),
    ensures
        r == count_or_zero::<Machine<A>>(atoms_of(atoms@), element@),
{
    match find_count(atoms, element) {
        Some(count) => count,
        None => from_integer::<A>(0),
    }
}

fn build_row<A: Arithmetic>(
    element: &str,
    target: &Compound<A::Number>,
    target_moles: A::Number,
    precursors: &[Compound<A::Number>],
    byproducts: &[Compound<A::Number>],
) -> (row: Vec<A::Number>)
    requires
        lawful::<A>(),
    ensures
        row@ == balance_row::<Machine<A>>(
            element@,
            target@,
            target_moles,
            substances(precursors@),
            substances(byproducts@),
        ),
{
    let ghost goal = balance_row::<Machine<A>>(
        element@,
        target@,
        target_moles,
        substances(precursors@),
        substances(byproducts@),
    );
    let mut row: Vec<A::Number> = Vec::new();
    for i in 0..precursors.len()
        invariant
            lawful::<A>(),
            goal == balance_row::<Machine<A>>(
                element@,
                target@,
                target_moles,
                substances(precursors@),
                substances(byproducts@),
            ),
            row@ == goal.take(i as int),
    {
        row.push(number_of::<A>(&precursors[i].atoms, element));
        assert(goal.take(i + 1) == goal.take(i as int).push(goal[i as int]));
    }
    for i in 0..byproducts.len()
        invariant
            lawful::<A>(),
            goal == balance_row::<Machine<A>>(
                element@,
                target@,
                target_moles,
                substances(precursors@),
                substances(byproducts@),
            ),
            row@ == goal.take(precursors@.len() + i),
    {
        row.push(negated::<A>(number_of::<A>(&byproducts[i].atoms, element)));
        let ghost k: int = precursors@.len() + i;
        assert(goal.take(k + 1) == goal.take(k).push(goal[k]));
    }
    row.push(times::<A>(number_of::<A>(&target.atoms, element), target_moles));
    assert(row@ == goal);
    row
}

fn build_rows<A: Arithmetic>(
    target: &Compound<A::Number>,
    target_moles: A::Number,
    precursors: &[Compound<A::Number>],
    byproducts: &[Compound<A::Number>],
) -> (rows: Vec<Vec<A::Number>>)
    requires
        lawful::<A>(),
    ensures
        grid(rows@) == balance_rows::<Machine<A>>(
            target@,
            target_moles,
            substances(precursors@),
            substances(byproducts@),
        ),
{
    let mut elements: Vec<String> = Vec::new();
    assert(texts(elements@) == Seq::<Seq<char>>::empty());
    insert_elements(&mut elements, &target.atoms);
    insert_all_elements(&mut elements, precursors);
    insert_all_elements(&mut elements, byproducts);
    let ghost goal = balance_rows::<Machine<A>>(
        target@,
        target_moles,
        substances(precursors@),
        substances(byproducts@),
    );
    let mut rows: Vec<Vec<A::Number>> = Vec::new();
    for i in 0..elements.len()
        invariant
            lawful::<A>(),
            texts(elements@) == elements_of(
                target@,
                substances(precursors@),
                substances(byproducts@),
            ),
            goal == balance_rows::<Machine<A>>(
                target@,
                target_moles,
                substances(precursors@),
                substances(byproducts@),
            ),
            grid(rows@) == goal.take(i as int),
    {
        let ghost done = rows@;
        let element: &str = elements[i].as_str();
        assert(texts(elements@)[i as int] == element@);
        rows.push(build_row::<A>(element, target, target_moles, precursors, byproducts));
        assert(grid(rows@) == grid(done).push(rows@[i as int]@));
        assert(goal.take(i + 1) == goal.take(i as int).push(goal[i as int]));
    }
    assert(goal.take(goal.len() as int) == goal);
    rows
}

/// A refusal among the first compounds is the refusal of all.
proof fn lemma_refusal_spreads<M: Numerals>(
    compounds: Seq<Substance<M::Number>>,
    moles: Seq<M::Number>,
    eps: M::Number,
    i: int,
)
    requires
        0 <= i <= compounds.len(),
        amounts::<M>(compounds.take(i), moles, eps) is Err,
    ensures
        amounts::<M>(compounds, moles, eps) == amounts::<M>(compounds.take(i), moles, eps),
    decreases compounds.len(),
{
    if i < compounds.len() {
        assert(compounds.drop_last().take(i) == compounds.take(i));
        lemma_refusal_spreads::<M>(compounds.drop_last(), moles, eps, i);
    } else {
        assert(compounds.take(i) == compounds);
    }
}

/// What the amounts of compounds, or their refusal, say.
pub open spec fn amounts_or_fault<N>(
    result: Result<Vec<WeighingResult<N>>, CalculationError<N>>,
) -> Result<Seq<Amount<N>>, CalculationFault<N>> {
    match result {
        Ok(results) => Ok(amounts_of(results@)),
        Err(error) => Err(error@),
    }
}

fn weigh<A: Arithmetic>(
    compounds: &[Compound<A::Number>],
    moles: &Vec<A::Number>,
    offset: usize,
) -> (r: Result<Vec<WeighingResult<A::Number>>, CalculationError<A::Number>>)
    requires
        lawful::<A>(),
        offset + compounds@.len() <= moles@.len(),
    ensures
        amounts_or_fault(r) == amounts::<Machine<A>>(
            substances(compounds@),
            moles@.subrange(offset as int, offset + compounds@.len()),
            tolerance::<Machine<A>>(),
        ),
{
    let eps: A::Number = tolerance_number::<A>();
    let limit: A::Number = negated::<A>(eps);
    let length: usize = moles.len();
    let mut results: Vec<WeighingResult<A::Number>> = Vec::new();
    let ghost all = substances(compounds@);
    let ghost shares = moles@.subrange(offset as int, offset + compounds@.len());
    assert(amounts_of(results@) == Seq::<Amount<A::Number>>::empty());
    for i in 0..compounds.len()
        invariant
            lawful::<A>(),
            offset + compounds@.len() <= length == moles@.len(),
            eps == tolerance::<Machine<A>>(),
            limit == A::opposite(eps),
            all == substances(compounds@),
            shares == moles@.subrange(offset as int, offset + compounds@.len()),
            amounts::<Machine<A>>(all.take(i as int), shares, eps) == Ok::<
                Seq<Amount<A::Number>>,
                CalculationFault<A::Number>,
            >(amounts_of(results@)),
    {
        let share: A::Number = moles[offset + i];
        assert(share == shares[i as int]);
        assert(all.take(i + 1).drop_last() == all.take(i as int));
        assert(all[i as int] == compounds@[i as int]@);
        if is_below::<A>(share, limit) {
            proof {
                lemma_refusal_spreads::<Machine<A>>(all, shares, eps, i + 1);
            }
            return Err(
                CalculationError::NegativeAmount {
                    formula: compounds[i].formula.clone(),
                    moles: share,
                },
            );
        }
        let used: A::Number = if is_below::<A>(magnitude::<A>(share), eps) {
            from_integer::<A>(0)
        } else {
            share
        };
        let ghost before = results@;
        let result: WeighingResult<A::Number> = WeighingResult {
            formula: compounds[i].formula.clone(),
            moles: used,
            grams: times::<A>(used, compounds[i].molar_mass),
        };
        results.push(result);
        assert(amounts_of(results@) == amounts_of(before).push(result@));
    }
    assert(all.take(all.len() as int) == all);
    Ok(results)
}

/// What the amounts of precursors and byproducts, or their refusal, say.
pub open spec fn both_or_fault<N>(
    result: Result<(Vec<WeighingResult<N>>, Vec<WeighingResult<N>>), CalculationError<N>>,
) -> Result<(Seq<Amount<N>>, Seq<Amount<N>>), CalculationFault<N>> {
    match result {
        Ok((used, released)) => Ok((amounts_of(used@), amounts_of(released@))),
        Err(error) => Err(error@),
    }
}

pub(crate) fn balance<A: Arithmetic>(
    target: &Compound<A::Number>,
    mass: A::Number,
    precursors: &[Compound<A::Number>],
    byproducts: &[Compound<A::Number>],
) -> (r: Result<
    (Vec<WeighingResult<A::Number>>, Vec<WeighingResult<A::Number>>),
    CalculationError<A::Number>,
>)
    requires
        lawful::<A>(),
        precursors@.len() + byproducts@.len() <= usize::MAX,
    ensures
        both_or_fault(r) == reaction_amounts::<Machine<A>>(
            target@,
            mass,
            substances(precursors@),
            substances(byproducts@),
            tolerance::<Machine<A>>(),
        ),
{
    let target_moles: A::Number = over::<A>(mass, target.molar_mass);
    let rows: Vec<Vec<A::Number>> = build_rows::<A>(target, target_moles, precursors, byproducts);
    let unknowns: usize = precursors.len() + byproducts.len();
    let ghost g = grid(rows@);
    assert(wide_enough(g, unknowns as int));
    let moles: Vec<A::Number> = match solve_unique_linear_system::<A>(rows, unknowns) {
        Err(error) => {
            return Err(error);
        },
        Ok(moles) => moles,
    };
    assert(moles@.subrange(0, precursors@.len() as int) == moles@.take(precursors@.len() as int));
    assert(moles@.subrange(precursors@.len() as int, unknowns as int) == moles@.skip(
        precursors@.len() as int,
    ));
    match weigh::<A>(precursors, &moles, 0) {
        Err(error) => Err(error),
        Ok(used) => match weigh::<A>(byproducts, &moles, precursors.len()) {
            Err(error) => Err(error),
            Ok(released) => Ok((used, released)),
        },
    }
}

/// The amounts of precursors that yield a mass of a target and nothing else.
pub fn calculate_weighing<A: Arithmetic>(
    target: &Compound<A::Number>,
    target_mass_g: A::Number,
    precursors: &[Compound<A::Number>],
) -> (r: Result<Vec<WeighingResult<A::Number>>, CalculationError<A::Number>>)
    requires
        lawful::<A>(),
    ensures
        amounts_or_fault(r) == match reaction_amounts::<Machine<A>>(
            target@,
            target_mass_g,
            substances(precursors@),
            Seq::empty(),
            tolerance::<Machine<A>>(),
        ) {
            Ok((used, _)) => Ok(used),
            Err(fault) => Err(fault),
        },
{
    let none: Vec<Compound<A::Number>> = Vec::new();
    assert(substances(none@) == Seq::<Substance<A::Number>>::empty());
    let count: usize = precursors.len();
    assert(count + none@.len() <= usize::MAX);
    match balance::<A>(target, target_mass_g, precursors, none.as_slice()) {
        Err(error) => Err(error),
        Ok((used, _)) => Ok(used),
    }
}

} // verus!
