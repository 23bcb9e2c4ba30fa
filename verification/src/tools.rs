//! What the tools of the assistant answer.

use vstd::prelude::*;

use crate::advice::{explain_calculation_error, explanation, is_inorganic_material_like, organic, precursor_fixes, suggest_precursor_fixes};
use crate::arithmetic::{from_integer, is_at_most, is_finite, lawful, Arithmetic, Machine};
use crate::calculation::{calculate_weighing_with_optional_volatiles, law_equation_names_what_forms, law_plan_lists_every_amount, plan_of};
use crate::equation::term_text;
use crate::formula::{atoms_of, compound_of, parse_compound, AtomCount, Compound, Substance};
use crate::formula_laws::law_compound;
use crate::solver::tolerance;
use crate::text::{join, text_in, texts, trim};
use crate::weighing::{amounts_of, gas_formula, reaction_amounts, substances, Amount, WeighingResult};

verus! {

/// What the formula tool is asked.
#[derive(Debug)]
pub struct ValidateFormulaArgs {
    pub formula: String,
}

/// What the formula tool answers.
#[derive(Debug)]
pub struct ValidateFormulaOutput<N> {
    pub valid: bool,
    pub formula: String,
    pub message: String,
    pub elements: Vec<AtomCount<N>>,
    pub molar_mass_g_per_mol: Option<N>,
}

/// What a [`ValidateFormulaOutput`] says.
pub struct FormulaReport<N> {
    pub valid: bool,
    pub formula: Seq<char>,
    pub message: Seq<char>,
    pub elements: Seq<(Seq<char>, N)>,
    pub molar_mass: Option<N>,
}

impl<N> View for ValidateFormulaOutput<N> {
    type V = FormulaReport<N>;

    open spec fn view(&self) -> FormulaReport<N> {
        FormulaReport {
            valid: self.valid,
            formula: self.formula@,
            message: self.message@,
            elements: atoms_of(self.elements@),
            molar_mass: self.molar_mass_g_per_mol,
        }
    }
}

/// What there is to say of a text as the formula of an inorganic material.
pub open spec fn formula_report<A: Arithmetic>(text: Seq<char>) -> FormulaReport<A::Number> {
    match compound_of::<A>(text) {
        Ok(compound) => FormulaReport {
            valid: !organic(compound),
            formula: compound.formula,
            message: if organic(compound) {
                "無機材料の組成として扱いにくい入力です。"@
            } else {
                "valid"@
            },
            elements: compound.atoms,
            molar_mass: Some(compound.molar_mass),
        },
        Err(fault) => FormulaReport {
            valid: false,
            formula: text,
            message: fault.words(),
            elements: Seq::empty(),
            molar_mass: None,
        },
    }
}

/// Examines a formula.
pub fn validate_formula<A: Arithmetic>(args: ValidateFormulaArgs) -> (output: ValidateFormulaOutput<
    A::Number,
>)
    requires
        lawful::<A>(),
    ensures
        output@ == formula_report::<A>(args.formula@),
{
    match parse_compound::<A>(args.formula.as_str()) {
        Ok(compound) => {
            let valid: bool = is_inorganic_material_like(&compound);
            let message: String = if valid {
                "valid".to_string()
            } else {
                "無機材料の組成として扱いにくい入力です。".to_string()
            };
            ValidateFormulaOutput {
                valid,
                formula: compound.formula,
                message,
                elements: compound.atoms,
                molar_mass_g_per_mol: Some(compound.molar_mass),
            }
        },
        Err(error) => {
            let elements: Vec<AtomCount<A::Number>> = Vec::new();
            assert(atoms_of(elements@) == Seq::<(Seq<char>, A::Number)>::empty());
            ValidateFormulaOutput {
                valid: false,
                formula: args.formula,
                message: error.message(),
                elements,
                molar_mass_g_per_mol: None,
            }
        },
    }
}

/// What the weighing tool is asked.
#[derive(Debug)]
pub struct CalculateWeighingArgs<N> {
    pub target_formula: String,
    pub target_mass_g: N,
    pub precursor_formulas: Vec<String>,
    pub volatile_byproduct_formulas: Vec<String>,
}

/// What the weighing tool answers.
#[derive(Debug)]
pub struct CalculateWeighingOutput<N> {
    pub ok: bool,
    pub target_formula: String,
    pub target_mass_g: N,
    pub results: Vec<WeighingResult<N>>,
    pub gas_reactants: Vec<WeighingResult<N>>,
    pub volatile_byproducts: Vec<WeighingResult<N>>,
    pub reaction_equation: Option<String>,
    pub error: Option<String>,
    pub suggestions: Vec<String>,
}

/// What a [`CalculateWeighingOutput`] says.
pub struct WeighingReport<N> {
    pub ok: bool,
    pub target: Seq<char>,
    pub mass: N,
    pub results: Seq<Amount<N>>,
    pub gas_reactants: Seq<Amount<N>>,
    pub volatile_byproducts: Seq<Amount<N>>,
    pub reaction_equation: Option<Seq<char>>,
    pub error: Option<Seq<char>>,
    pub suggestions: Seq<Seq<char>>,
}

impl<N> View for CalculateWeighingOutput<N> {
    type V = WeighingReport<N>;

    open spec fn view(&self) -> WeighingReport<N> {
        WeighingReport {
            ok: self.ok,
            target: self.target_formula@,
            mass: self.target_mass_g,
            results: amounts_of(self.results@),
            gas_reactants: amounts_of(self.gas_reactants@),
            volatile_byproducts: amounts_of(self.volatile_byproducts@),
            reaction_equation: text_in(self.reaction_equation),
            error: text_in(self.error),
            suggestions: texts(self.suggestions@),
        }
    }
}

/// The answer to a request that is refused.
pub open spec fn refusal<N>(
    target: Seq<char>,
    mass: N,
    error: Seq<char>,
    suggestions: Seq<Seq<char>>,
) -> WeighingReport<N> {
    WeighingReport {
        ok: false,
        target,
        mass,
        results: Seq::empty(),
        gas_reactants: Seq::empty(),
        volatile_byproducts: Seq::empty(),
        reaction_equation: None,
        error: Some(error),
        suggestions,
    }
}

/// The target that a text denotes, or why it denotes none.
pub open spec fn target_in<A: Arithmetic>(text: Seq<char>) -> Result<
    Substance<A::Number>,
    Seq<char>,
> {
    match compound_of::<A>(text) {
        Ok(compound) => if organic(compound) {
            Err("目的組成が無機材料の組成として扱いにくい入力です。"@)
        } else {
            Ok(compound)
        },
        Err(fault) => Err("目的組成が不正です: "@ + fault.words()),
    }
}

/// The precursors that some texts denote, or why the first that denotes none does not.
pub open spec fn precursors_in<A: Arithmetic>(formulas: Seq<Seq<char>>) -> Result<
    Seq<Substance<A::Number>>,
    Seq<char>,
>
    decreases formulas.len(),
{
    if formulas.len() == 0 {
        Ok(Seq::empty())
    } else {
        match precursors_in::<A>(formulas.drop_last()) {
            Err(error) => Err(error),
            Ok(front) => match compound_of::<A>(formulas.last()) {
                Ok(compound) => if organic(compound) {
                    Err(
                        "原料 "@ + formulas.last()
                            + " は無機材料の組成として扱いにくい入力です。"@,
                    )
                } else {
                    Ok(front.push(compound))
                },
                Err(fault) => Err(
                    "原料 "@ + formulas.last() + " が不正です: "@ + fault.words(),
                ),
            },
        }
    }
}

/// The byproducts that some texts denote, or why the first that denotes none does not.
pub open spec fn byproducts_in<A: Arithmetic>(formulas: Seq<Seq<char>>) -> Result<
    Seq<Substance<A::Number>>,
    Seq<char>,
>
    decreases formulas.len(),
{
    if formulas.len() == 0 {
        Ok(Seq::empty())
    } else {
        match byproducts_in::<A>(formulas.drop_last()) {
            Err(error) => Err(error),
            Ok(front) => match compound_of::<A>(formulas.last()) {
                Ok(compound) => Ok(front.push(compound)),
                Err(fault) => Err(
                    "揮発副生成物 "@ + formulas.last() + " が不正です: "@ + fault.words(),
                ),
            },
        }
    }
}

/// The answer for compounds that could be read.
pub open spec fn report_for<A: Arithmetic>(
    target: Substance<A::Number>,
    mass: A::Number,
    precursors: Seq<Substance<A::Number>>,
    byproducts: Seq<Substance<A::Number>>,
) -> WeighingReport<A::Number> {
    match plan_of::<A>(target, mass, precursors, byproducts) {
        Ok(plan) => WeighingReport {
            ok: true,
            target: target.formula,
            mass,
            results: plan.results,
            gas_reactants: plan.gas_reactants,
            volatile_byproducts: plan.volatile_byproducts,
            reaction_equation: Some(plan.reaction_equation),
            error: None,
            suggestions: Seq::empty(),
        },
        Err(fault) => refusal(
            target.formula,
            mass,
            explanation::<A>(fault, target, precursors),
            precursor_fixes(target, precursors),
        ),
    }
}

/// The answer to a request.
pub open spec fn weighing_report<A: Arithmetic>(
    target: Seq<char>,
    mass: A::Number,
    precursors: Seq<Seq<char>>,
    byproducts: Seq<Seq<char>>,
) -> WeighingReport<A::Number> {
    match target_in::<A>(target) {
        Err(error) => refusal(target, mass, error, Seq::empty()),
        Ok(compound) => if !A::finite(mass) || A::at_most(mass, A::integer(0)) {
            refusal(
                compound.formula,
                mass,
                "目標質量は0より大きいg単位の数値で指定してください。"@,
                Seq::empty(),
            )
        } else {
            match precursors_in::<A>(precursors) {
                Err(error) => refusal(compound.formula, mass, error, Seq::empty()),
                Ok(starting) => match byproducts_in::<A>(byproducts) {
                    Err(error) => refusal(compound.formula, mass, error, Seq::empty()),
                    Ok(escaping) => report_for::<A>(compound, mass, starting, escaping),
                },
            }
        },
    }
}

fn refuse<N>(target: String, mass: N, error: String, suggestions: Vec<String>) -> (output:
    CalculateWeighingOutput<N>)
    ensures
        output@ == refusal(target@, mass, error@, texts(suggestions@)),
{
    let output: CalculateWeighingOutput<N> = CalculateWeighingOutput {
        ok: false,
        target_formula: target,
        target_mass_g: mass,
        results: Vec::new(),
        gas_reactants: Vec::new(),
        volatile_byproducts: Vec::new(),
        reaction_equation: None,
        error: Some(error),
        suggestions,
    };
    assert(output@.results == Seq::<Amount<N>>::empty());
    assert(output@.gas_reactants == Seq::<Amount<N>>::empty());
    assert(output@.volatile_byproducts == Seq::<Amount<N>>::empty());
    output
}

/// A refusal among the first formulas is the refusal of all.
proof fn lemma_precursor_refusal_spreads<A: Arithmetic>(formulas: Seq<Seq<char>>, i: int)
    requires
        0 <= i <= formulas.len(),
        precursors_in::<A>(formulas.take(i)) is Err,
    ensures
        precursors_in::<A>(formulas) == precursors_in::<A>(formulas.take(i)),
    decreases formulas.len(),
{
    if i < formulas.len() {
        assert(formulas.drop_last().take(i) == formulas.take(i));
        lemma_precursor_refusal_spreads::<A>(formulas.drop_last(), i);
    } else {
        assert(formulas.take(i) == formulas);
    }
}

/// A refusal among the first formulas is the refusal of all.
proof fn lemma_byproduct_refusal_spreads<A: Arithmetic>(formulas: Seq<Seq<char>>, i: int)
    requires
        0 <= i <= formulas.len(),
        byproducts_in::<A>(formulas.take(i)) is Err,
    ensures
        byproducts_in::<A>(formulas) == byproducts_in::<A>(formulas.take(i)),
    decreases formulas.len(),
{
    if i < formulas.len() {
        assert(formulas.drop_last().take(i) == formulas.take(i));
        lemma_byproduct_refusal_spreads::<A>(formulas.drop_last(), i);
    } else {
        assert(formulas.take(i) == formulas);
    }
}

/// What compounds, or the reason why there are none, say.
pub open spec fn compounds_or_error<N>(result: Result<Vec<Compound<N>>, String>) -> Result<
    Seq<Substance<N>>,
    Seq<char>,
> {
    match result {
        Ok(compounds) => Ok(substances(compounds@)),
        Err(error) => Err(error@),
    }
}

fn read_precursors<A: Arithmetic>(formulas: &Vec<String>) -> (r: Result<
    Vec<Compound<A::Number>>,
    String,
>)
    requires
        lawful::<A>(),
    ensures
        compounds_or_error(r) == precursors_in::<A>(texts(formulas@)),
        r matches Ok(compounds) ==> compounds@.len() == formulas@.len(),
{
    let ghost all = texts(formulas@);
    let mut compounds: Vec<Compound<A::Number>> = Vec::new();
    assert(substances(compounds@) == Seq::<Substance<A::Number>>::empty());
    for i in 0..formulas.len()
        invariant
            lawful::<A>(),
            all == texts(formulas@),
            compounds@.len() == i,
            precursors_in::<A>(all.take(i as int)) == Ok::<Seq<Substance<A::Number>>, Seq<char>>(
                substances(compounds@),
            ),
    {
        assert(all.take(i + 1).drop_last() == all.take(i as int));
        assert(all.take(i + 1).last() == formulas@[i as int]@);
        match parse_compound::<A>(formulas[i].as_str()) {
            Ok(compound) => {
                if !is_inorganic_material_like(&compound) {
                    let mut error: String = "原料 ".to_string();
                    error.append(formulas[i].as_str());
                    error.append(" は無機材料の組成として扱いにくい入力です。");
                    proof {
                        lemma_precursor_refusal_spreads::<A>(all, i + 1);
                    }
                    return Err(error);
                }
                let ghost before = compounds@;
                compounds.push(compound);
                assert(substances(compounds@) == substances(before).push(compound@));
            },
            Err(fault) => {
                let mut error: String = "原料 ".to_string();
                error.append(formulas[i].as_str());
                error.append(" が不正です: ");
                error.append(fault.message().as_str());
                proof {
                    lemma_precursor_refusal_spreads::<A>(all, i + 1);
                }
                return Err(error);
            },
        }
    }
    assert(all.take(all.len() as int) == all);
    Ok(compounds)
}

fn read_byproducts<A: Arithmetic>(formulas: &Vec<String>) -> (r: Result<
    Vec<Compound<A::Number>>,
    String,
>)
    requires
        lawful::<A>(),
    ensures
        compounds_or_error(r) == byproducts_in::<A>(texts(formulas@)),
        r matches Ok(compounds) ==> compounds@.len() == formulas@.len(),
{
    let ghost all = texts(formulas@);
    let mut compounds: Vec<Compound<A::Number>> = Vec::new();
    assert(substances(compounds@) == Seq::<Substance<A::Number>>::empty());
    for i in 0..formulas.len()
        invariant
            lawful::<A>(),
            all == texts(formulas@),
            compounds@.len() == i,
            byproducts_in::<A>(all.take(i as int)) == Ok::<Seq<Substance<A::Number>>, Seq<char>>(
                substances(compounds@),
            ),
    {
        assert(all.take(i + 1).drop_last() == all.take(i as int));
        assert(all.take(i + 1).last() == formulas@[i as int]@);
        match parse_compound::<A>(formulas[i].as_str()) {
            Ok(compound) => {
                let ghost before = compounds@;
                compounds.push(compound);
                assert(substances(compounds@) == substances(before).push(compound@));
            },
            Err(fault) => {
                let mut error: String = "揮発副生成物 ".to_string();
                error.append(formulas[i].as_str());
                error.append(" が不正です: ");
                error.append(fault.message().as_str());
                proof {
                    lemma_byproduct_refusal_spreads::<A>(all, i + 1);
                }
                return Err(error);
            },
        }
    }
    assert(all.take(all.len() as int) == all);
    Ok(compounds)
}

fn read_target<A: Arithmetic>(formula: &str) -> (r: Result<Compound<A::Number>, String>)
    requires
        lawful::<A>(),
    ensures
        match r {
            Ok(compound) => target_in::<A>(formula@) == Ok::<Substance<A::Number>, Seq<char>>(
                compound@,
            ),
            Err(error) => target_in::<A>(formula@) == Err::<Substance<A::Number>, Seq<char>>(
                error@,
            ),
        },
{
    match parse_compound::<A>(formula) {
        Ok(compound) => if is_inorganic_material_like(&compound) {
            Ok(compound)
        } else {
            Err("目的組成が無機材料の組成として扱いにくい入力です。".to_string())
        },
        Err(fault) => {
            let mut error: String = "目的組成が不正です: ".to_string();
            error.append(fault.message().as_str());
            Err(error)
        },
    }
}

fn no_suggestions() -> (list: Vec<String>)
    ensures
        texts(list@) == Seq::<Seq<char>>::empty(),
{
    let list: Vec<String> = Vec::new();
    assert(texts(list@) == Seq::<Seq<char>>::empty());
    list
}

/// Answers a request for the amounts of starting materials.
pub fn calculate_weighing_tool_output<A: Arithmetic>(args: CalculateWeighingArgs<A::Number>) -> (output:
    CalculateWeighingOutput<A::Number>)
    requires
        lawful::<A>(),
        args.precursor_formulas@.len() + args.volatile_byproduct_formulas@.len() <= usize::MAX,
    ensures
        output@ == weighing_report::<A>(
            args.target_formula@,
            args.target_mass_g,
            texts(args.precursor_formulas@),
            texts(args.volatile_byproduct_formulas@),
        ),
{
    let mass: A::Number = args.target_mass_g;
    let target: Compound<A::Number> = match read_target::<A>(args.target_formula.as_str()) {
        Err(error) => {
            return refuse(args.target_formula, mass, error, no_suggestions());
        },
        Ok(target) => target,
    };
    if !is_finite::<A>(mass) || is_at_most::<A>(mass, from_integer::<A>(0)) {
        return refuse(
            target.formula,
            mass,
            "目標質量は0より大きいg単位の数値で指定してください。".to_string(),
            no_suggestions(),
        );
    }
    let precursors: Vec<Compound<A::Number>> = match read_precursors::<A>(
        &args.precursor_formulas,
    ) {
        Err(error) => {
            return refuse(target.formula, mass, error, no_suggestions());
        },
        Ok(precursors) => precursors,
    };
    let volatile_byproducts: Vec<Compound<A::Number>> = match read_byproducts::<A>(
        &args.volatile_byproduct_formulas,
    ) {
        Err(error) => {
            return refuse(target.formula, mass, error, no_suggestions());
        },
        Ok(volatile_byproducts) => volatile_byproducts,
    };
    match calculate_weighing_with_optional_volatiles::<A>(
        &target,
        mass,
        precursors.as_slice(),
        volatile_byproducts,
    ) {
        Ok(calculation) => CalculateWeighingOutput {
            ok: true,
            target_formula: target.formula,
            target_mass_g: mass,
            results: calculation.results,
            gas_reactants: calculation.gas_reactants,
            volatile_byproducts: calculation.volatile_byproducts,
            reaction_equation: Some(calculation.reaction_equation),
            error: None,
            suggestions: no_suggestions(),
        },
        Err(error) => {
            let text: String = explain_calculation_error::<A>(
                &error,
                &target,
                precursors.as_slice(),
            );
            let suggestions: Vec<String> = suggest_precursor_fixes(&target, precursors.as_slice());
            refuse(target.formula, mass, text, suggestions)
        },
    }
}

/// Law: an answer either succeeds, with an equation and without an error or advice, or fails, with
/// an error and without any amounts or equation. It repeats the mass that was asked for.
pub proof fn law_answer_is_amounts_or_error<A: Arithmetic>(
    target: Seq<char>,
    mass: A::Number,
    precursors: Seq<Seq<char>>,
    byproducts: Seq<Seq<char>>,
)
    ensures
        ({
            let report = weighing_report::<A>(target, mass, precursors, byproducts);
            &&& report.mass == mass
            &&& report.ok ==> report.error is None && report.reaction_equation is Some
                && report.suggestions.len() == 0
            &&& !report.ok ==> report.error is Some && report.reaction_equation is None
                && report.results.len() == 0 && report.gas_reactants.len() == 0
                && report.volatile_byproducts.len() == 0
        }),
{
}

proof fn lemma_precursors_read<A: Arithmetic>(formulas: Seq<Seq<char>>)
    ensures
        precursors_in::<A>(formulas) is Ok <==> forall|i: int|
            0 <= i < formulas.len() ==> (compound_of::<A>(#[trigger] formulas[i]) matches Ok(
                compound,
            ) && !organic(compound)),
        precursors_in::<A>(formulas) matches Ok(list) ==> list == compounds_of::<A>(formulas),
    decreases formulas.len(),
{
    if formulas.len() > 0 {
        let front = formulas.drop_last();
        lemma_precursors_read::<A>(front);
        assert(formulas.last() == formulas[formulas.len() - 1]);
        assert forall|i: int| 0 <= i < front.len() implies front[i] == #[trigger] formulas[i] by {}
        if let Ok(list) = precursors_in::<A>(formulas) {
            assert(list.drop_last() == compounds_of::<A>(front));
            assert(list == compounds_of::<A>(formulas));
        }
    }
}

proof fn lemma_byproducts_read<A: Arithmetic>(formulas: Seq<Seq<char>>)
    ensures
        byproducts_in::<A>(formulas) is Ok <==> forall|i: int|
            0 <= i < formulas.len() ==> compound_of::<A>(#[trigger] formulas[i]) is Ok,
        byproducts_in::<A>(formulas) matches Ok(list) ==> list == compounds_of::<A>(formulas),
    decreases formulas.len(),
{
    if formulas.len() > 0 {
        let front = formulas.drop_last();
        lemma_byproducts_read::<A>(front);
        assert(formulas.last() == formulas[formulas.len() - 1]);
        assert forall|i: int| 0 <= i < front.len() implies front[i] == #[trigger] formulas[i] by {}
        if let Ok(list) = byproducts_in::<A>(formulas) {
            assert(list.drop_last() == compounds_of::<A>(front));
            assert(list == compounds_of::<A>(formulas));
        }
    }
}

/// The compounds that some texts denote, all of which denote one.
pub open spec fn compounds_of<A: Arithmetic>(formulas: Seq<Seq<char>>) -> Seq<
    Substance<A::Number>,
> {
    formulas.map_values(|formula: Seq<char>| compound_of::<A>(formula)->Ok_0)
}

/// Law: an answer succeeds if, and only if, the mass is finite and positive, all formulas can be
/// read, the target and the precursors are inorganic, and the balance of the elements gives
/// amounts. It then lists each precursor with its amount exactly once: the gases of which more than
/// nothing is used under the gases, all others under what is weighed, each list in the order of
/// the precursors. It lists the byproducts of which more than nothing escapes, and gives the
/// equation, which names each precursor, the target, and the byproducts listed.
pub proof fn law_answer_lists_every_amount<A: Arithmetic>(
    target: Seq<char>,
    mass: A::Number,
    precursors: Seq<Seq<char>>,
    byproducts: Seq<Seq<char>>,
)
    ensures
        ({
            let report = weighing_report::<A>(target, mass, precursors, byproducts);
            let wanted = compound_of::<A>(target)->Ok_0;
            let starting = compounds_of::<A>(precursors);
            let escaping = compounds_of::<A>(byproducts);
            let balance = reaction_amounts::<Machine<A>>(
                wanted,
                mass,
                starting,
                escaping,
                tolerance::<Machine<A>>(),
            );
            let (used, released) = balance->Ok_0;
            let moles = A::quotient(mass, wanted.molar_mass);
            let term = |share: Amount<A::Number>|
                term_text::<A>(A::quotient(share.moles, moles), share.formula);
            let supplied = |share: Amount<A::Number>|
                gas_formula(share.formula) && A::below(A::integer(0), share.moles);
            &&& report.ok <==> {
                &&& A::finite(mass) && !A::at_most(mass, A::integer(0))
                &&& compound_of::<A>(target) is Ok && !organic(wanted)
                &&& forall|i: int|
                    0 <= i < precursors.len() ==> (compound_of::<A>(#[trigger] precursors[i])
                        matches Ok(compound) && !organic(compound))
                &&& forall|i: int|
                    0 <= i < byproducts.len() ==> compound_of::<A>(#[trigger] byproducts[i]) is Ok
                &&& balance is Ok
            }
            &&& report.ok ==> {
                &&& report.target == trim(target)
                &&& used.len() == precursors.len()
                &&& forall|i: int|
                    0 <= i < used.len() ==> (#[trigger] used[i]).formula == trim(precursors[i])
                &&& report.results.to_multiset().add(report.gas_reactants.to_multiset())
                    == used.to_multiset()
                &&& report.results.len() + report.gas_reactants.len() == precursors.len()
                &&& report.gas_reactants == used.filter(supplied)
                &&& report.results == used.filter(
                    |share: Amount<A::Number>|
                        !(gas_formula(share.formula) && A::below(A::integer(0), share.moles)),
                )
                &&& report.volatile_byproducts == released.filter(
                    |share: Amount<A::Number>| A::below(A::integer(0), share.moles),
                )
                &&& report.reaction_equation == Some(
                    join(used.map_values(term), " + "@) + " -> "@ + join(
                        seq![term_text::<A>(A::integer(1), trim(target))]
                            + report.volatile_byproducts.map_values(term),
                        " + "@,
                    ),
                )
            }
        }),
{
    let wanted = compound_of::<A>(target)->Ok_0;
    let starting = compounds_of::<A>(precursors);
    let escaping = compounds_of::<A>(byproducts);
    lemma_precursors_read::<A>(precursors);
    lemma_byproducts_read::<A>(byproducts);
    law_plan_lists_every_amount::<A>(wanted, mass, starting, escaping);
    law_compound::<A>(target);
    if let Ok((used, released)) = reaction_amounts::<Machine<A>>(
        wanted,
        mass,
        starting,
        escaping,
        tolerance::<Machine<A>>(),
    ) {
        law_equation_names_what_forms::<A>(wanted, mass, starting, escaping, used, released);
        if weighing_report::<A>(target, mass, precursors, byproducts).ok {
            assert forall|i: int| 0 <= i < used.len() implies (#[trigger] used[i]).formula == trim(
                precursors[i],
            ) by {
                assert(starting[i] == compound_of::<A>(precursors[i])->Ok_0);
                assert(compound_of::<A>(precursors[i]) is Ok);
                law_compound::<A>(precursors[i]);
            }
        }
    }
}

/// Whether a text denotes an inorganic compound.
pub open spec fn inorganic_in<A: Arithmetic>(text: Seq<char>) -> bool {
    compound_of::<A>(text) matches Ok(compound) && !organic(compound)
}

proof fn lemma_first_bad_precursor<A: Arithmetic>(formulas: Seq<Seq<char>>, i: int)
    requires
        0 <= i < formulas.len(),
        forall|k: int| 0 <= k < i ==> inorganic_in::<A>(#[trigger] formulas[k]),
        !inorganic_in::<A>(formulas[i]),
    ensures
        precursors_in::<A>(formulas) == Err::<Seq<Substance<A::Number>>, Seq<char>>(
            match compound_of::<A>(formulas[i]) {
                Ok(_) => "原料 "@ + formulas[i]
                    + " は無機材料の組成として扱いにくい入力です。"@,
                Err(fault) => "原料 "@ + formulas[i] + " が不正です: "@ + fault.words(),
            },
        ),
{
    let front = formulas.take(i + 1);
    lemma_precursors_read::<A>(formulas.take(i));
    assert(front.drop_last() == formulas.take(i));
    assert(front.last() == formulas[i]);
    assert forall|k: int| 0 <= k < i implies (compound_of::<A>(
        #[trigger] formulas.take(i)[k],
    ) matches Ok(compound) && !organic(compound)) by {
        assert(inorganic_in::<A>(formulas[k]));
    }
    lemma_precursor_refusal_spreads::<A>(formulas, i + 1);
}

proof fn lemma_first_bad_byproduct<A: Arithmetic>(formulas: Seq<Seq<char>>, i: int)
    requires
        0 <= i < formulas.len(),
        forall|k: int| 0 <= k < i ==> compound_of::<A>(#[trigger] formulas[k]) is Ok,
        compound_of::<A>(formulas[i]) is Err,
    ensures
        byproducts_in::<A>(formulas) == Err::<Seq<Substance<A::Number>>, Seq<char>>(
            "揮発副生成物 "@ + formulas[i] + " が不正です: "@ + compound_of::<A>(
                formulas[i],
            )->Err_0.words(),
        ),
{
    let front = formulas.take(i + 1);
    lemma_byproducts_read::<A>(formulas.take(i));
    assert(front.drop_last() == formulas.take(i));
    assert(front.last() == formulas[i]);
    assert forall|k: int| 0 <= k < i implies compound_of::<A>(
        #[trigger] formulas.take(i)[k],
    ) is Ok by {
        assert(compound_of::<A>(formulas[k]) is Ok);
    }
    lemma_byproduct_refusal_spreads::<A>(formulas, i + 1);
}

/// Law: a refusal says what is wrong first, in the order target, mass, precursors, byproducts,
/// balance: of the formulas the first that is wrong is named, with the reason. Advice is given
/// where the balance fails, and only there.
pub proof fn law_refusal_says_what_is_wrong<A: Arithmetic>(
    target: Seq<char>,
    mass: A::Number,
    precursors: Seq<Seq<char>>,
    byproducts: Seq<Seq<char>>,
    i: int,
)
    ensures
        ({
            let report = weighing_report::<A>(target, mass, precursors, byproducts);
            let wanted = compound_of::<A>(target)->Ok_0;
            let massive = A::finite(mass) && !A::at_most(mass, A::integer(0));
            let readable = forall|k: int|
                0 <= k < precursors.len() ==> inorganic_in::<A>(#[trigger] precursors[k]);
            &&& compound_of::<A>(target) matches Err(fault) ==> {
                &&& report.target == target
                &&& report.error == Some("目的組成が不正です: "@ + fault.words())
                &&& report.suggestions.len() == 0
            }
            &&& compound_of::<A>(target) is Ok && organic(wanted) ==> {
                &&& report.target == target
                &&& report.error == Some("目的組成が無機材料の組成として扱いにくい入力です。"@)
                &&& report.suggestions.len() == 0
            }
            &&& inorganic_in::<A>(target) ==> report.target == trim(target)
            &&& inorganic_in::<A>(target) && !massive ==> {
                &&& report.error == Some(
                    "目標質量は0より大きいg単位の数値で指定してください。"@,
                )
                &&& report.suggestions.len() == 0
            }
            &&& inorganic_in::<A>(target) && massive && 0 <= i < precursors.len() && (forall|k: int|
                0 <= k < i ==> inorganic_in::<A>(#[trigger] precursors[k])) ==> {
                &&& compound_of::<A>(precursors[i]) matches Err(fault) ==> report.error == Some(
                    "原料 "@ + precursors[i] + " が不正です: "@ + fault.words(),
                ) && report.suggestions.len() == 0
                &&& compound_of::<A>(precursors[i]) matches Ok(compound) ==> organic(compound)
                    ==> report.error == Some(
                    "原料 "@ + precursors[i]
                        + " は無機材料の組成として扱いにくい入力です。"@,
                ) && report.suggestions.len() == 0
            }
            &&& inorganic_in::<A>(target) && massive && readable && 0 <= i < byproducts.len() && (
            forall|k: int|
                0 <= k < i ==> compound_of::<A>(#[trigger] byproducts[k]) is Ok) ==> (compound_of::<
                A,
            >(byproducts[i]) matches Err(fault) ==> report.error == Some(
                "揮発副生成物 "@ + byproducts[i] + " が不正です: "@ + fault.words(),
            ) && report.suggestions.len() == 0)
            &&& inorganic_in::<A>(target) && massive && readable && (forall|k: int|
                0 <= k < byproducts.len() ==> compound_of::<A>(#[trigger] byproducts[k]) is Ok)
                ==> (reaction_amounts::<Machine<A>>(
                wanted,
                mass,
                compounds_of::<A>(precursors),
                compounds_of::<A>(byproducts),
                tolerance::<Machine<A>>(),
            ) matches Err(fault) ==> {
                &&& report.error == Some(
                    explanation::<A>(fault, wanted, compounds_of::<A>(precursors)),
                )
                &&& report.suggestions == precursor_fixes(wanted, compounds_of::<A>(precursors))
            })
        }),
{
    let wanted = compound_of::<A>(target)->Ok_0;
    lemma_precursors_read::<A>(precursors);
    lemma_byproducts_read::<A>(byproducts);
    law_plan_lists_every_amount::<A>(
        wanted,
        mass,
        compounds_of::<A>(precursors),
        compounds_of::<A>(byproducts),
    );
    law_compound::<A>(target);
    if 0 <= i < precursors.len() && !inorganic_in::<A>(precursors[i]) && forall|k: int|
        0 <= k < i ==> inorganic_in::<A>(#[trigger] precursors[k]) {
        lemma_first_bad_precursor::<A>(precursors, i);
    }
    if 0 <= i < byproducts.len() && compound_of::<A>(byproducts[i]) is Err && forall|k: int|
        0 <= k < i ==> compound_of::<A>(#[trigger] byproducts[k]) is Ok {
        lemma_first_bad_byproduct::<A>(byproducts, i);
    }
    if forall|k: int| 0 <= k < precursors.len() ==> inorganic_in::<A>(#[trigger] precursors[k]) {
        assert forall|k: int| 0 <= k < precursors.len() implies (compound_of::<A>(
            #[trigger] precursors[k],
        ) matches Ok(compound) && !organic(compound)) by {
            assert(inorganic_in::<A>(precursors[k]));
        }
    }
}

/// Law: a formula is called valid if, and only if, it can be read and is inorganic. What can be
/// read is reported with all its elements and its molar mass, under the formula without white space
/// at its ends; of what cannot be read the reason is given, and the text as it was asked about.
pub proof fn law_formula_is_examined<A: Arithmetic>(text: Seq<char>)
    ensures
        ({
            let report = formula_report::<A>(text);
            &&& report.valid <==> inorganic_in::<A>(text)
            &&& compound_of::<A>(text) matches Ok(compound) ==> {
                &&& report.formula == trim(text)
                &&& report.elements == compound.atoms
                &&& report.molar_mass == Some(compound.molar_mass)
                &&& report.valid ==> report.message == "valid"@
                &&& !report.valid ==> report.message
                    == "無機材料の組成として扱いにくい入力です。"@
            }
            &&& compound_of::<A>(text) matches Err(fault) ==> {
                &&& report.formula == text
                &&& report.elements.len() == 0
                &&& report.molar_mass is None
                &&& report.message == fault.words()
            }
        }),
{
    law_compound::<A>(text);
}

/// Law: an answer succeeds only for a finite, positive mass and for formulas that can all be read,
/// with a target and precursors that are inorganic; and then if, and only if, the balance of the
/// elements gives amounts.
pub proof fn law_when_an_answer_succeeds<A: Arithmetic>(
    target: Seq<char>,
    mass: A::Number,
    precursors: Seq<Seq<char>>,
    byproducts: Seq<Seq<char>>,
)
    ensures
        weighing_report::<A>(target, mass, precursors, byproducts).ok <==> {
            &&& A::finite(mass)
            &&& !A::at_most(mass, A::integer(0))
            &&& target_in::<A>(target) matches Ok(compound)
            &&& precursors_in::<A>(precursors) matches Ok(starting)
            &&& byproducts_in::<A>(byproducts) matches Ok(escaping)
            &&& plan_of::<A>(compound, mass, starting, escaping) is Ok
        },
{
}

} // verus!
