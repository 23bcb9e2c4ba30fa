//! The whole calculation: what to weigh, which gases to supply, what escapes, and the equation.

use vstd::prelude::*;

use crate::arithmetic::{from_integer, is_below, lawful, over, Arithmetic, Machine, Numerals};
use crate::equation::{equation_text, format_reaction_equation, share_terms, term_text, terms};
use crate::formula::{Compound, Substance};
use crate::solver::{solution, tolerance, CalculationError, CalculationFault};
use crate::text::join;
use crate::weighing::{amounts, amounts_of, balance, balance_rows, calculate_weighing, copy_result, gas_formula, moles_of, pairs, positive, reaction_amounts, sorted_out, split_gas_reactants, substances, Amount, WeighingResult};
use crate::weighing_laws::law_split_loses_nothing;

verus! {

/// The outcome of a calculation.
#[derive(Debug, Clone)]
pub struct WeighingCalculation<N> {
    pub results: Vec<WeighingResult<N>>,
    pub gas_reactants: Vec<WeighingResult<N>>,
    pub volatile_byproducts: Vec<WeighingResult<N>>,
    pub reaction_equation: String,
}

/// What a [`WeighingCalculation`] says.
pub struct Plan<N> {
    pub results: Seq<Amount<N>>,
    pub gas_reactants: Seq<Amount<N>>,
    pub volatile_byproducts: Seq<Amount<N>>,
    pub reaction_equation: Seq<char>,
}

impl<N> View for WeighingCalculation<N> {
    type V = Plan<N>;

    open spec fn view(&self) -> Plan<N> {
        Plan {
            results: amounts_of(self.results@),
            gas_reactants: amounts_of(self.gas_reactants@),
            volatile_byproducts: amounts_of(self.volatile_byproducts@),
            reaction_equation: self.reaction_equation@,
        }
    }
}

/// The plan for the amounts of all precursors and all byproducts of a reaction.
pub open spec fn plan_for<A: Arithmetic>(
    target: Substance<A::Number>,
    mass: A::Number,
    precursors: Seq<Substance<A::Number>>,
    byproducts: Seq<Substance<A::Number>>,
    used: Seq<Amount<A::Number>>,
    released: Seq<Amount<A::Number>>,
) -> Plan<A::Number> {
    Plan {
        results: sorted_out::<Machine<A>>(precursors, used, false, pairs(precursors, used)),
        gas_reactants: sorted_out::<Machine<A>>(precursors, used, true, pairs(precursors, used)),
        volatile_byproducts: positive::<Machine<A>>(released),
        reaction_equation: equation_text::<A>(
            precursors,
            used,
            target,
            moles_of::<Machine<A>>(target, mass),
            byproducts,
            released,
        ),
    }
}

/// The plan for a mass of a target, or why there is none.
pub open spec fn plan_of<A: Arithmetic>(
    target: Substance<A::Number>,
    mass: A::Number,
    precursors: Seq<Substance<A::Number>>,
    byproducts: Seq<Substance<A::Number>>,
) -> Result<Plan<A::Number>, CalculationFault<A::Number>> {
    match reaction_amounts::<Machine<A>>(
        target,
        mass,
        precursors,
        byproducts,
        tolerance::<Machine<A>>(),
    ) {
        Err(fault) => Err(fault),
        Ok((used, released)) => Ok(
            plan_for::<A>(target, mass, precursors, byproducts, used, released),
        ),
    }
}

/// What the result of a calculation says.
pub open spec fn plan_or_fault<N>(
    result: Result<WeighingCalculation<N>, CalculationError<N>>,
) -> Result<Plan<N>, CalculationFault<N>> {
    match result {
        Ok(calculation) => Ok(calculation@),
        Err(error) => Err(error@),
    }
}

fn keep_positive<A: Arithmetic>(all: &Vec<WeighingResult<A::Number>>) -> (kept: Vec<
    WeighingResult<A::Number>,
>)
    requires
        lawful::<A>(),
    ensures
        amounts_of(kept@) == positive::<Machine<A>>(amounts_of(all@)),
{
    let zero: A::Number = from_integer::<A>(0);
    let ghost shares = amounts_of(all@);
    let mut kept: Vec<WeighingResult<A::Number>> = Vec::new();
    assert(amounts_of(kept@) == shares.take(0));
    for i in 0..all.len()
        invariant
            lawful::<A>(),
            zero == A::integer(0),
            shares == amounts_of(all@),
            amounts_of(kept@) == positive::<Machine<A>>(shares.take(i as int)),
    {
        assert(shares.take(i + 1).drop_last() == shares.take(i as int));
        assert(shares.take(i + 1).last() == all@[i as int]@);
        let ghost before = kept@;
        if is_below::<A>(zero, all[i].moles) {
            let result: WeighingResult<A::Number> = copy_result(&all[i]);
            kept.push(result);
            assert(amounts_of(kept@) == amounts_of(before).push(result@));
        }
    }
    assert(shares.take(shares.len() as int) == shares);
    kept
}

/// The plan for a mass of a target from which byproducts escape.
pub fn calculate_weighing_with_volatile_byproducts<A: Arithmetic>(
    target: &Compound<A::Number>,
    target_mass_g: A::Number,
    precursors: &[Compound<A::Number>],
    volatile_byproducts: Vec<Compound<A::Number>>,
) -> (r: Result<WeighingCalculation<A::Number>, CalculationError<A::Number>>)
    requires
        lawful::<A>(),
        precursors@.len() + volatile_byproducts@.len() <= usize::MAX,
    ensures
        plan_or_fault(r) == plan_of::<A>(
            target@,
            target_mass_g,
            substances(precursors@),
            substances(volatile_byproducts@),
        ),
{
    let target_moles: A::Number = over::<A>(target_mass_g, target.molar_mass);
    match balance::<A>(target, target_mass_g, precursors, volatile_byproducts.as_slice()) {
        Err(error) => Err(error),
        Ok((precursor_results, all_released)) => {
            let volatile_results: Vec<WeighingResult<A::Number>> = keep_positive::<A>(
                &all_released,
            );
            let reaction_equation: String = format_reaction_equation::<A>(
                precursors,
                precursor_results.as_slice(),
                target,
                target_moles,
                volatile_byproducts.as_slice(),
                all_released.as_slice(),
            );
            let (results, gas_reactants) = split_gas_reactants::<A>(precursors, precursor_results);
            Ok(
                WeighingCalculation {
                    results,
                    gas_reactants,
                    volatile_byproducts: volatile_results,
                    reaction_equation,
                },
            )
        },
    }
}

/// The plan for a mass of a target, with or without byproducts that escape.
pub fn calculate_weighing_with_optional_volatiles<A: Arithmetic>(
    target: &Compound<A::Number>,
    target_mass_g: A::Number,
    precursors: &[Compound<A::Number>],
    volatile_byproducts: Vec<Compound<A::Number>>,
) -> (r: Result<WeighingCalculation<A::Number>, CalculationError<A::Number>>)
    requires
        lawful::<A>(),
        precursors@.len() + volatile_byproducts@.len() <= usize::MAX,
    ensures
        plan_or_fault(r) == plan_of::<A>(
            target@,
            target_mass_g,
            substances(precursors@),
            substances(volatile_byproducts@),
        ),
{
    if volatile_byproducts.len() == 0 {
        let ghost none = Seq::<Substance<A::Number>>::empty();
        assert(substances(volatile_byproducts@) == none);
        match calculate_weighing::<A>(target, target_mass_g, precursors) {
            Err(error) => Err(error),
            Ok(precursor_results) => {
                let target_moles: A::Number = over::<A>(target_mass_g, target.molar_mass);
                let nothing: Vec<WeighingResult<A::Number>> = Vec::new();
                assert(amounts_of(nothing@) == Seq::<Amount<A::Number>>::empty());
                let reaction_equation: String = format_reaction_equation::<A>(
                    precursors,
                    precursor_results.as_slice(),
                    target,
                    target_moles,
                    volatile_byproducts.as_slice(),
                    nothing.as_slice(),
                );
                let (results, gas_reactants) = split_gas_reactants::<A>(
                    precursors,
                    precursor_results,
                );
                Ok(
                    WeighingCalculation {
                        results,
                        gas_reactants,
                        volatile_byproducts: nothing,
                        reaction_equation,
                    },
                )
            },
        }
    } else {
        calculate_weighing_with_volatile_byproducts::<A>(
            target,
            target_mass_g,
            precursors,
            volatile_byproducts,
        )
    }
}

proof fn lemma_amount_formulas<M: Numerals>(
    compounds: Seq<Substance<M::Number>>,
    moles: Seq<M::Number>,
    eps: M::Number,
    shares: Seq<Amount<M::Number>>,
)
    requires
        amounts::<M>(compounds, moles, eps) == Ok::<
            Seq<Amount<M::Number>>,
            CalculationFault<M::Number>,
        >(shares),
    ensures
        shares.len() == compounds.len(),
        forall|j: int|
            0 <= j < shares.len() ==> (#[trigger] shares[j]).formula == compounds[j].formula,
    decreases compounds.len(),
{
    if compounds.len() > 0 {
        if let Ok(front) = amounts::<M>(compounds.drop_last(), moles, eps) {
            lemma_amount_formulas::<M>(compounds.drop_last(), moles, eps, front);
            assert forall|j: int| 0 <= j < shares.len() implies (#[trigger] shares[j]).formula
                == compounds[j].formula by {
                if j < front.len() {
                    assert(shares[j] == front[j]);
                    assert(compounds.drop_last()[j] == compounds[j]);
                }
            }
        }
    }
}

/// The amounts that are more than nothing are those that pass that test, in order.
proof fn lemma_positive<M: Numerals>(all: Seq<Amount<M::Number>>)
    ensures
        positive::<M>(all) == all.filter(
            |share: Amount<M::Number>| M::below(M::integer(0), share.moles),
        ),
    decreases all.len(),
{
    reveal(Seq::filter);
    if all.len() > 0 {
        lemma_positive::<M>(all.drop_last());
    }
}

/// The terms for amounts that carry the formulas of their compounds.
proof fn lemma_terms<A: Arithmetic>(
    compounds: Seq<Substance<A::Number>>,
    shares: Seq<Amount<A::Number>>,
    target_moles: A::Number,
    n: int,
)
    requires
        0 <= n <= shares.len(),
        forall|j: int|
            0 <= j < shares.len() ==> (#[trigger] shares[j]).formula == compounds[j].formula,
    ensures
        terms::<A>(compounds, shares, target_moles, false, n) == share_terms::<A>(
            shares.take(n),
            target_moles,
        ),
        terms::<A>(compounds, shares, target_moles, true, n) == share_terms::<A>(
            positive::<Machine<A>>(shares.take(n)),
            target_moles,
        ),
    decreases n,
{
    let now = shares.take(n);
    if n > 0 {
        lemma_terms::<A>(compounds, shares, target_moles, n - 1);
        let share = shares[n - 1];
        let term = term_text::<A>(A::quotient(share.moles, target_moles), share.formula);
        assert(now.drop_last() == shares.take(n - 1));
        assert(now.last() == share);
        assert(share_terms::<A>(now, target_moles) == share_terms::<A>(
            shares.take(n - 1),
            target_moles,
        ).push(term));
        let before = positive::<Machine<A>>(shares.take(n - 1));
        assert(share_terms::<A>(before.push(share), target_moles) == share_terms::<A>(
            before,
            target_moles,
        ).push(term));
    } else {
        assert(positive::<Machine<A>>(now) == now);
        assert(share_terms::<A>(now, target_moles) == Seq::<Seq<char>>::empty());
    }
}

/// Law: a plan lists exactly the byproducts of which more than nothing escapes, in their order. Its
/// equation names each precursor with its own amount, the target, and the byproducts listed, each
/// with its own amount.
pub proof fn law_equation_names_what_forms<A: Arithmetic>(
    target: Substance<A::Number>,
    mass: A::Number,
    precursors: Seq<Substance<A::Number>>,
    byproducts: Seq<Substance<A::Number>>,
    used: Seq<Amount<A::Number>>,
    released: Seq<Amount<A::Number>>,
)
    requires
        reaction_amounts::<Machine<A>>(
            target,
            mass,
            precursors,
            byproducts,
            tolerance::<Machine<A>>(),
        ) == Ok::<
            (Seq<Amount<A::Number>>, Seq<Amount<A::Number>>),
            CalculationFault<A::Number>,
        >((used, released)),
    ensures
        used.len() == precursors.len(),
        forall|j: int|
            0 <= j < used.len() ==> (#[trigger] used[j]).formula == precursors[j].formula,
        released.len() == byproducts.len(),
        forall|j: int|
            0 <= j < released.len() ==> (#[trigger] released[j]).formula == byproducts[j].formula,
        plan_of::<A>(target, mass, precursors, byproducts) matches Ok(plan) && {
            let target_moles = moles_of::<Machine<A>>(target, mass);
            &&& plan.volatile_byproducts == released.filter(
                |share: Amount<A::Number>| A::below(A::integer(0), share.moles),
            )
            &&& plan.reaction_equation == join(share_terms::<A>(used, target_moles), " + "@)
                + " -> "@ + join(
                seq![term_text::<A>(A::integer(1), target.formula)] + share_terms::<A>(
                    plan.volatile_byproducts,
                    target_moles,
                ),
                " + "@,
            )
        },
{
    let eps = tolerance::<Machine<A>>();
    let target_moles = moles_of::<Machine<A>>(target, mass);
    let rows = balance_rows::<Machine<A>>(target, target_moles, precursors, byproducts);
    let p = precursors.len() as int;
    if let Ok(moles) = solution::<Machine<A>>(rows, p + byproducts.len(), eps) {
        lemma_amount_formulas::<Machine<A>>(precursors, moles.take(p), eps, used);
        lemma_amount_formulas::<Machine<A>>(byproducts, moles.skip(p), eps, released);
    }
    lemma_positive::<Machine<A>>(released);
    assert((|share: Amount<A::Number>| A::below(A::integer(0), share.moles)) =~= (
    |share: Amount<A::Number>| Machine::<A>::below(Machine::<A>::integer(0), share.moles)));
    lemma_terms::<A>(precursors, used, target_moles, p);
    lemma_terms::<A>(byproducts, released, target_moles, byproducts.len() as int);
    assert(used.take(p) == used);
    assert(released.take(byproducts.len() as int) == released);
}

/// The amounts that are parted from the rest are those that pass a test, in order.
proof fn lemma_sorted_out<M: Numerals>(
    precursors: Seq<Substance<M::Number>>,
    all: Seq<Amount<M::Number>>,
    gas: bool,
    n: int,
)
    requires
        0 <= n <= all.len(),
        forall|j: int|
            0 <= j < all.len() ==> (#[trigger] all[j]).formula == precursors[j].formula,
    ensures
        sorted_out::<M>(precursors, all, gas, n) == all.take(n).filter(
            |share: Amount<M::Number>|
                (gas_formula(share.formula) && M::below(M::integer(0), share.moles)) == gas,
        ),
    decreases n,
{
    reveal(Seq::filter);
    if n > 0 {
        lemma_sorted_out::<M>(precursors, all, gas, n - 1);
        assert(all.take(n).drop_last() == all.take(n - 1));
        assert(all.take(n).last() == all[n - 1]);
    }
}

/// Law: a plan lists each precursor with its amount, exactly once. The gases of which more than
/// nothing is used are listed as gases, all others are listed to be weighed, both in the order of
/// the precursors; the two lists together are the amounts that the element balance gives. The
/// byproducts listed are those of which more than nothing escapes.
pub proof fn law_plan_lists_every_amount<A: Arithmetic>(
    target: Substance<A::Number>,
    mass: A::Number,
    precursors: Seq<Substance<A::Number>>,
    byproducts: Seq<Substance<A::Number>>,
)
    ensures
        match reaction_amounts::<Machine<A>>(
            target,
            mass,
            precursors,
            byproducts,
            tolerance::<Machine<A>>(),
        ) {
            Err(fault) => plan_of::<A>(target, mass, precursors, byproducts) == Err::<
                Plan<A::Number>,
                CalculationFault<A::Number>,
            >(fault),
            Ok((used, released)) => {
                &&& plan_of::<A>(target, mass, precursors, byproducts) matches Ok(plan)
                &&& plan.results.to_multiset().add(plan.gas_reactants.to_multiset())
                    == used.to_multiset()
                &&& plan.results.len() + plan.gas_reactants.len() == precursors.len()
                &&& plan.gas_reactants == used.filter(
                    |share: Amount<A::Number>|
                        gas_formula(share.formula) && A::below(A::integer(0), share.moles),
                )
                &&& plan.results == used.filter(
                    |share: Amount<A::Number>|
                        !(gas_formula(share.formula) && A::below(A::integer(0), share.moles)),
                )
                &&& plan.volatile_byproducts == released.filter(
                    |share: Amount<A::Number>| A::below(A::integer(0), share.moles),
                )
            },
        },
{
    if let Ok((used, released)) = reaction_amounts::<Machine<A>>(
        target,
        mass,
        precursors,
        byproducts,
        tolerance::<Machine<A>>(),
    ) {
        law_equation_names_what_forms::<A>(target, mass, precursors, byproducts, used, released);
        let n = used.len() as int;
        assert(used.take(n) == used);
        law_split_loses_nothing::<Machine<A>>(precursors, used, n);
        lemma_sorted_out::<Machine<A>>(precursors, used, true, n);
        lemma_sorted_out::<Machine<A>>(precursors, used, false, n);
        assert((|share: Amount<A::Number>|
            (gas_formula(share.formula) && Machine::<A>::below(
                Machine::<A>::integer(0),
                share.moles,
            )) == true) =~= (|share: Amount<A::Number>|
            gas_formula(share.formula) && A::below(A::integer(0), share.moles)));
        assert((|share: Amount<A::Number>|
            (gas_formula(share.formula) && Machine::<A>::below(
                Machine::<A>::integer(0),
                share.moles,
            )) == false) =~= (|share: Amount<A::Number>|
            !(gas_formula(share.formula) && A::below(A::integer(0), share.moles))));
        if let Ok(plan) = plan_of::<A>(target, mass, precursors, byproducts) {
            used.to_multiset_ensures();
            plan.results.to_multiset_ensures();
            plan.gas_reactants.to_multiset_ensures();
        }
    }
}

} // verus!
